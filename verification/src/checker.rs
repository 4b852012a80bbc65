//! The project a repository belongs to, the results of checking references
//! against GitHub and GitLab, and the decisions taken while checking them.
use vstd::prelude::*;

use crate::scan::{first_index, first_index_of};
use crate::text::{chars_of, string_eq_str, string_of, trim};
use crate::text::{decimal, push_decimal};
use crate::todo::{KindView, ReferenceView, TodoReference, TodoReferenceKind};
use crate::token::{
    all_ascii_digits, ends_with, has_prefix, has_suffix, is_ascii_digit, last_index, last_index_of,
    slice_chars, starts_with,
};

verus! {

/// The GitHub repository or GitLab project that the scanned code belongs to.
#[derive(Debug)]
pub enum ProjectDetection {
    Undetected,
    GitHub(String),
    GitLab(String),
}

pub enum ProjectView {
    Undetected,
    GitHub(Seq<char>),
    GitLab(Seq<char>),
}

impl View for ProjectDetection {
    type V = ProjectView;

    open spec fn view(&self) -> ProjectView {
        match self {
            ProjectDetection::Undetected => ProjectView::Undetected,
            ProjectDetection::GitHub(r) => ProjectView::GitHub(r@),
            ProjectDetection::GitLab(p) => ProjectView::GitLab(p@),
        }
    }
}

impl Clone for ProjectDetection {
    fn clone(&self) -> (r: Self)
        ensures
            r@ == self@,
    {
        match self {
            ProjectDetection::Undetected => ProjectDetection::Undetected,
            ProjectDetection::GitHub(r) => ProjectDetection::GitHub(r.clone()),
            ProjectDetection::GitLab(p) => ProjectDetection::GitLab(p.clone()),
        }
    }
}

/// The group a GitLab project path sits in: everything before its last `/`.
pub open spec fn parent_path(p: Seq<char>) -> Option<Seq<char>> {
    if last_index(p, '/') >= 0 {
        Some(p.take(last_index(p, '/')))
    } else {
        None
    }
}

/// The detected project is the GitLab project `project`.
pub open spec fn is_gitlab_project(d: ProjectView, project: Seq<char>) -> bool {
    d == ProjectView::GitLab(project)
}

/// The detected project is a GitLab project directly inside `group`.
pub open spec fn is_in_gitlab_group(d: ProjectView, group: Seq<char>) -> bool {
    match d {
        ProjectView::GitLab(p) => parent_path(p) == Some(group),
        _ => false,
    }
}

/// The parent group of `path`, if it has one.
pub fn parent_group(path: &str) -> (r: Option<Vec<char>>)
    ensures
        match r {
            Some(g) => parent_path(path@) == Some(g@),
            None => parent_path(path@) is None,
        },
{
    let v = crate::text::chars_of(path);
    match last_index_of(&v, '/') {
        Some(i) => {
            let g = slice_chars(&v, 0, i);
            assert(g@ == v@.take(i as int));
            Some(g)
        },
        None => None,
    }
}

impl ProjectDetection {
    /// Whether this is the GitLab project `project`.
    pub fn matches_gitlab(&self, project: &str) -> (r: bool)
        ensures
            r == is_gitlab_project(self@, project@),
    {
        match self {
            ProjectDetection::GitLab(p) => string_eq_str(p, project),
            _ => false,
        }
    }

    /// Whether this is a GitLab project directly inside `group`.
    pub fn parent_group_matches(&self, group: &str) -> (r: bool)
        ensures
            r == is_in_gitlab_group(self@, group@),
    {
        match self {
            ProjectDetection::GitLab(p) => match parent_group(p.as_str()) {
                Some(g) => {
                    let gv = crate::text::chars_of(group);
                    crate::scan::same_chars(&g, &gv)
                },
                None => false,
            },
            _ => false,
        }
    }
}

/// A reference whose issue, merge request or epic is closed.
#[derive(Debug)]
pub struct ClosedReference {
    pub reference: TodoReference,
    pub title: String,
}

/// A reference that could not be resolved.
#[derive(Debug)]
pub struct NotFoundReference {
    pub reference: TodoReference,
    pub error: String,
}

pub struct ClosedView {
    pub reference: ReferenceView,
    pub title: Seq<char>,
}

pub struct NotFoundView {
    pub reference: ReferenceView,
    pub error: Seq<char>,
}

impl View for ClosedReference {
    type V = ClosedView;

    open spec fn view(&self) -> ClosedView {
        ClosedView { reference: self.reference@, title: self.title@ }
    }
}

impl View for NotFoundReference {
    type V = NotFoundView;

    open spec fn view(&self) -> NotFoundView {
        NotFoundView { reference: self.reference@, error: self.error@ }
    }
}

/// What checking a list of references found.
pub struct CheckResult {
    pub closed: Vec<ClosedReference>,
    pub not_found: Vec<NotFoundReference>,
}

pub open spec fn closed_views(v: Seq<ClosedReference>) -> Seq<ClosedView> {
    v.map_values(|c: ClosedReference| c@)
}

pub open spec fn not_found_views(v: Seq<NotFoundReference>) -> Seq<NotFoundView> {
    v.map_values(|c: NotFoundReference| c@)
}

} // verus!

verus! {

/// `s` without any leading `c`, as `str::trim_start_matches(c)` gives it.
pub open spec fn trim_start_char(s: Seq<char>, c: char) -> Seq<char>
    decreases s.len(),
{
    if s.len() > 0 && s[0] == c {
        trim_start_char(s.drop_first(), c)
    } else {
        s
    }
}

/// `s` without any number of leading copies of `p`, as `str::trim_start_matches(p)` gives it.
pub open spec fn trim_start_seq(s: Seq<char>, p: Seq<char>) -> Seq<char>
    decreases s.len(),
{
    if p.len() > 0 && has_prefix(s, p) {
        trim_start_seq(s.skip(p.len() as int), p)
    } else {
        s
    }
}

/// `s` without any number of trailing copies of `p`, as `str::trim_end_matches(p)` gives it.
pub open spec fn trim_end_seq(s: Seq<char>, p: Seq<char>) -> Seq<char>
    decreases s.len(),
{
    if p.len() > 0 && has_suffix(s, p) {
        trim_end_seq(s.take(s.len() - p.len()), p)
    } else {
        s
    }
}

/// A repository path without leading `/` and trailing `.git`.
pub open spec fn normalized_project_path(p: Seq<char>) -> Seq<char> {
    trim_end_seq(trim_start_char(p, '/'), ".git"@)
}

fn trim_start_char_exec(v: &Vec<char>, c: char) -> (r: Vec<char>)
    ensures
        r@ == trim_start_char(v@, c),
{
    let mut i: usize = 0;
    assert(v@.skip(0) == v@);
    while i < v.len() && v[i] == c
        invariant
            0 <= i <= v@.len(),
            trim_start_char(v@, c) == trim_start_char(v@.skip(i as int), c),
        decreases v.len() - i,
    {
        assert(v@.skip(i as int).drop_first() == v@.skip(i + 1));
        i = i + 1;
    }
    let r = slice_chars(v, i, v.len());
    assert(r@ == v@.skip(i as int));
    r
}

pub fn trim_start_seq_exec(v: &Vec<char>, p: &Vec<char>) -> (r: Vec<char>)
    ensures
        r@ == trim_start_seq(v@, p@),
{
    if p.len() == 0 {
        return slice_chars(v, 0, v.len());
    }
    let mut cur = slice_chars(v, 0, v.len());
    assert(cur@ == v@);
    while starts_with(&cur, p)
        invariant
            p@.len() > 0,
            trim_start_seq(v@, p@) == trim_start_seq(cur@, p@),
        decreases cur@.len(),
    {
        let next = slice_chars(&cur, p.len(), cur.len());
        assert(next@ == cur@.skip(p@.len() as int));
        cur = next;
    }
    cur
}

pub fn trim_end_seq_exec(v: &Vec<char>, p: &Vec<char>) -> (r: Vec<char>)
    ensures
        r@ == trim_end_seq(v@, p@),
{
    if p.len() == 0 {
        return slice_chars(v, 0, v.len());
    }
    let mut cur = slice_chars(v, 0, v.len());
    assert(cur@ == v@);
    while ends_with(&cur, p)
        invariant
            p@.len() > 0,
            trim_end_seq(v@, p@) == trim_end_seq(cur@, p@),
        decreases cur@.len(),
    {
        let next = slice_chars(&cur, 0, cur.len() - p.len());
        assert(next@ == cur@.take(cur@.len() - p@.len()));
        cur = next;
    }
    cur
}

proof fn lemma_trim_start_char(s: Seq<char>, c: char)
    ensures
        trim_start_char(s, c).len() <= s.len(),
        trim_start_char(s, c).len() == 0 || trim_start_char(s, c)[0] != c,
        trim_start_char(s, c) == s.skip(s.len() - trim_start_char(s, c).len()),
    decreases s.len(),
{
    if s.len() > 0 && s[0] == c {
        lemma_trim_start_char(s.drop_first(), c);
        let r = trim_start_char(s, c);
        assert(s.drop_first().skip(s.drop_first().len() - r.len()) =~= s.skip(s.len() - r.len()));
    } else {
        assert(s.skip(0) =~= s);
    }
}

proof fn lemma_trim_end_seq(s: Seq<char>, p: Seq<char>)
    requires
        p.len() > 0,
    ensures
        trim_end_seq(s, p).len() <= s.len(),
        !has_suffix(trim_end_seq(s, p), p),
        trim_end_seq(s, p) == s.take(trim_end_seq(s, p).len() as int),
    decreases s.len(),
{
    if has_suffix(s, p) {
        let shorter = s.take(s.len() - p.len());
        lemma_trim_end_seq(shorter, p);
        let r = trim_end_seq(s, p);
        assert(shorter.take(r.len() as int) =~= s.take(r.len() as int));
    } else {
        assert(s.take(s.len() as int) =~= s);
    }
}

/// Normalizing a repository path a second time changes nothing.
pub proof fn law_normalized_path_is_stable(p: Seq<char>)
    ensures
        normalized_project_path(normalized_project_path(p)) == normalized_project_path(p),
{
    reveal_strlit(".git");
    let a = trim_start_char(p, '/');
    let q = normalized_project_path(p);
    lemma_trim_start_char(p, '/');
    lemma_trim_end_seq(a, ".git"@);
    assert(q == a.take(q.len() as int));
    if q.len() > 0 {
        assert(q[0] == a[0]);
    }
    assert(trim_start_char(q, '/') == q);
    assert(trim_end_seq(q, ".git"@) == q);
}

/// A repository path without leading `/` and trailing `.git`.
pub fn normalize_project_path(path: &str) -> (r: String)
    ensures
        r@ == normalized_project_path(path@),
{
    let v = chars_of(path);
    let a = trim_start_char_exec(&v, '/');
    let git = chars_of(".git");
    let b = trim_end_seq_exec(&a, &git);
    let r = string_of(&b, 0, b.len());
    assert(b@.subrange(0, b@.len() as int) == b@);
    r
}

} // verus!

verus! {

/// The project named by GitLab CI's `CI_PROJECT_PATH` if set, else by the
/// host and path of the `origin` remote's fetch URL.
pub open spec fn detected_project(
    ci_project_path: Option<Seq<char>>,
    host: Option<Seq<char>>,
    path: Option<Seq<char>>,
) -> ProjectView {
    match ci_project_path {
        Some(p) => ProjectView::GitLab(normalized_project_path(p)),
        None => match (host, path) {
            (Some(h), Some(p)) => if h == "github.com"@ {
                ProjectView::GitHub(normalized_project_path(p))
            } else if h == "gitlab.com"@ {
                ProjectView::GitLab(normalized_project_path(p))
            } else {
                ProjectView::Undetected
            },
            _ => ProjectView::Undetected,
        },
    }
}

pub open spec fn opt_str_view(o: Option<&str>) -> Option<Seq<char>> {
    match o {
        Some(s) => Some(s@),
        None => None,
    }
}

/// The project from `CI_PROJECT_PATH` (if set) or from the `origin` remote's
/// host and path (`None` where the repository, remote or URL part is missing).
pub fn detect_project_from(ci_project_path: Option<&str>, host: Option<&str>, path: Option<&str>) -> (r:
    ProjectDetection)
    ensures
        r@ == detected_project(
            opt_str_view(ci_project_path),
            opt_str_view(host),
            opt_str_view(path),
        ),
{
    if let Some(p) = ci_project_path {
        return ProjectDetection::GitLab(normalize_project_path(p));
    }
    match (host, path) {
        (Some(h), Some(p)) => {
            let hv = chars_of(h);
            if crate::scan::same_chars(&hv, &chars_of("github.com")) {
                ProjectDetection::GitHub(normalize_project_path(p))
            } else if crate::scan::same_chars(&hv, &chars_of("gitlab.com")) {
                ProjectDetection::GitLab(normalize_project_path(p))
            } else {
                ProjectDetection::Undetected
            }
        },
        _ => ProjectDetection::Undetected,
    }
}

/// The GitLab host named by `GITLAB_URL` (default `gitlab.com`), reduced to
/// the bare host: without schema, `git@` or user, path, or scp-like `:path`,
/// while a `:port` before the path is kept.
pub open spec fn normalized_gitlab_host(raw: Option<Seq<char>>) -> Seq<char> {
    let h = match raw {
        Some(r) => r,
        None => "gitlab.com"@,
    };
    let t0 = trim(h);
    let t1 = trim_start_seq(
        trim_start_seq(trim_start_seq(trim_start_seq(t0, "https://"@), "http://"@), "ssh://"@),
        "git@"@,
    );
    let at = first_index(t1, '@');
    let t2 = if at >= 0 && first_index(t1.take(at), '/') < 0 {
        t1.skip(at + 1)
    } else {
        t1
    };
    let colon = first_index(t2, ':');
    let slash = first_index(t2, '/');
    let t3 = if colon >= 0 && slash >= 0 && colon < slash {
        if all_ascii_digits(t2.subrange(colon + 1, slash)) {
            t2.take(slash)
        } else {
            t2.take(colon)
        }
    } else {
        t2
    };
    let s3 = first_index(t3, '/');
    if s3 >= 0 {
        t3.take(s3)
    } else {
        t3
    }
}

fn is_all_ascii_digits(v: &Vec<char>, lo: usize, hi: usize) -> (r: bool)
    requires
        lo <= hi <= v@.len(),
    ensures
        r == all_ascii_digits(v@.subrange(lo as int, hi as int)),
{
    let mut i = lo;
    while i < hi
        invariant
            lo <= i <= hi <= v@.len(),
            forall|j: int| lo <= j < i ==> is_ascii_digit(#[trigger] v@[j]),
        decreases hi - i,
    {
        let u = v[i] as u32;
        if u < 48 || u > 57 {
            assert(!is_ascii_digit(v@.subrange(lo as int, hi as int)[i - lo]));
            return false;
        }
        i = i + 1;
    }
    assert forall|j: int| 0 <= j < hi - lo implies is_ascii_digit(
        #[trigger] v@.subrange(lo as int, hi as int)[j],
    ) by {
        assert(v@.subrange(lo as int, hi as int)[j] == v@[lo + j]);
    }
    true
}

/// The GitLab host to connect to, from the raw `GITLAB_URL` value.
pub fn normalize_gitlab_host(raw: Option<&str>) -> (r: String)
    ensures
        r@ == normalized_gitlab_host(opt_str_view(raw)),
{
    let h = match raw {
        Some(r) => chars_of(r),
        None => chars_of("gitlab.com"),
    };
    let (a, b) = crate::text::trim_bounds(&h, 0, h.len());
    assert(h@.subrange(0, h@.len() as int) == h@);
    let t0 = slice_chars(&h, a, b);
    let t1 = trim_start_seq_exec(
        &trim_start_seq_exec(
            &trim_start_seq_exec(&trim_start_seq_exec(&t0, &chars_of("https://")), &chars_of("http://")),
            &chars_of("ssh://"),
        ),
        &chars_of("git@"),
    );
    let t2 = match first_index_of(&t1, '@') {
        Some(at) => {
            let user = slice_chars(&t1, 0, at);
            assert(user@ == t1@.take(at as int));
            if first_index_of(&user, '/').is_none() {
                let rest = slice_chars(&t1, at + 1, t1.len());
                assert(rest@ == t1@.skip(at + 1));
                rest
            } else {
                t1
            }
        },
        None => t1,
    };
    let t3 = match (first_index_of(&t2, ':'), first_index_of(&t2, '/')) {
        (Some(colon), Some(slash)) => {
            if colon < slash {
                if is_all_ascii_digits(&t2, colon + 1, slash) {
                    let x = slice_chars(&t2, 0, slash);
                    assert(x@ == t2@.take(slash as int));
                    x
                } else {
                    let x = slice_chars(&t2, 0, colon);
                    assert(x@ == t2@.take(colon as int));
                    x
                }
            } else {
                t2
            }
        },
        _ => t2,
    };
    let host = match first_index_of(&t3, '/') {
        Some(s3) => {
            let x = slice_chars(&t3, 0, s3);
            assert(x@ == t3@.take(s3 as int));
            x
        },
        None => t3,
    };
    let r = string_of(&host, 0, host.len());
    assert(host@.subrange(0, host@.len() as int) == host@);
    r
}

/// `s` with ASCII upper-case letters made lower case.
pub open spec fn ascii_lowercase(s: Seq<char>) -> Seq<char> {
    s.map_values(|c: char| if 65 <= (c as u32) <= 90 { ((c as u32) + 32) as char } else { c })
}

/// The GitLab token type from `GITLAB_TOKEN_TYPE`/`GL_TOKEN_TYPE` (default
/// `pat`), in lower case.
pub open spec fn gitlab_token_type_of(raw: Option<Seq<char>>) -> Seq<char> {
    ascii_lowercase(
        match raw {
            Some(r) => r,
            None => "pat"@,
        },
    )
}

fn ascii_lower_char(c: char) -> (r: char)
    ensures
        r == (if 65 <= (c as u32) <= 90 { ((c as u32) + 32) as char } else { c }),
{
    match c {
        'A' => 'a',
        'B' => 'b',
        'C' => 'c',
        'D' => 'd',
        'E' => 'e',
        'F' => 'f',
        'G' => 'g',
        'H' => 'h',
        'I' => 'i',
        'J' => 'j',
        'K' => 'k',
        'L' => 'l',
        'M' => 'm',
        'N' => 'n',
        'O' => 'o',
        'P' => 'p',
        'Q' => 'q',
        'R' => 'r',
        'S' => 's',
        'T' => 't',
        'U' => 'u',
        'V' => 'v',
        'W' => 'w',
        'X' => 'x',
        'Y' => 'y',
        'Z' => 'z',
        _ => c,
    }
}

/// The GitLab token type, from the raw environment value.
pub fn gitlab_token_type(raw: Option<&str>) -> (r: String)
    ensures
        r@ == gitlab_token_type_of(opt_str_view(raw)),
{
    let v = match raw {
        Some(r) => chars_of(r),
        None => chars_of("pat"),
    };
    let mut s = String::new();
    let mut i: usize = 0;
    while i < v.len()
        invariant
            0 <= i <= v@.len(),
            s@ == ascii_lowercase(v@.take(i as int)),
        decreases v.len() - i,
    {
        let c = ascii_lower_char(v[i]);
        s.push(c);
        assert(ascii_lowercase(v@.take(i + 1)) =~= ascii_lowercase(v@.take(i as int)).push(c));
        i = i + 1;
    }
    assert(v@.take(v@.len() as int) == v@);
    s
}

/// Whether the token type asks for an OAuth2 bearer token.
pub open spec fn is_oauth_token_type(t: Seq<char>) -> bool {
    t == "oauth"@ || t == "oauth2"@ || t == "bearer"@
}

pub fn uses_oauth(token_type: &str) -> (r: bool)
    ensures
        r == is_oauth_token_type(token_type@),
{
    let v = chars_of(token_type);
    crate::scan::same_chars(&v, &chars_of("oauth")) || crate::scan::same_chars(&v, &chars_of("oauth2"))
        || crate::scan::same_chars(&v, &chars_of("bearer"))
}

} // verus!

verus! {

/// The bytes that URL encoding leaves as they are: ASCII letters, digits, `-`, `.`, `_`, `~`.
pub open spec fn is_unreserved(b: u8) -> bool {
    ||| 48 <= b <= 57
    ||| 65 <= b <= 90
    ||| 97 <= b <= 122
    ||| b == 45
    ||| b == 46
    ||| b == 95
    ||| b == 126
}

/// An upper-case hexadecimal digit.
pub open spec fn hex_digit(d: u8) -> char {
    if d < 10 {
        ((d + 48) as u32) as char
    } else {
        ((d + 55) as u32) as char
    }
}

/// Percent-encoding of `bytes`: unreserved bytes as themselves, every other
/// byte as `%` and two upper-case hex digits.
pub open spec fn percent_encode(bytes: Seq<u8>) -> Seq<char>
    decreases bytes.len(),
{
    if bytes.len() == 0 {
        seq![]
    } else {
        let b = bytes[0];
        (if is_unreserved(b) {
            seq![(b as u32) as char]
        } else {
            seq!['%', hex_digit(b / 16), hex_digit(b % 16)]
        }) + percent_encode(bytes.drop_first())
    }
}

/// `urlencoding::encode`: percent-encodes the UTF-8 bytes of `s`, keeping
/// ASCII letters, digits, `-`, `.`, `_` and `~`.
#[verifier::external_body]
fn url_encode(s: &str) -> (r: String)
    ensures
        r@ == percent_encode(vstd::utf8::encode_utf8(s@)),
{
    urlencoding::encode(s).into_owned()
}

/// The GitLab REST endpoint of epic `number` of `group`.
pub open spec fn epic_endpoint_of(group: Seq<char>, number: u32) -> Seq<char> {
    "groups/"@ + percent_encode(vstd::utf8::encode_utf8(group)) + "/epics/"@ + decimal(
        number as nat,
    )
}

pub fn epic_endpoint(group: &str, number: u32) -> (r: String)
    ensures
        r@ == epic_endpoint_of(group@, number),
{
    let mut s = crate::text::string_from("groups/");
    let enc = url_encode(group);
    crate::text::push_str_chars(&mut s, enc.as_str());
    crate::text::push_str_chars(&mut s, "/epics/");
    push_decimal(&mut s, number as u64);
    s
}

/// What checking one reference takes.
#[derive(Debug)]
pub enum CheckStep {
    /// The service it lives on is not configured: it is not checked.
    Skip,
    /// It cannot be checked; it is reported as not found with this message.
    Fail(String),
    /// Fetch the GitLab issue.
    GitLabIssue { project: String, number: u32 },
    /// Fetch the GitHub issue.
    GitHubIssue { owner: String, repo: String, number: u32 },
    /// Fetch the GitLab merge request.
    GitLabMr { project: String, number: u32 },
    /// Fetch the GitHub pull request.
    GitHubPr { owner: String, repo: String, number: u32 },
    /// Fetch the GitLab epic from this REST endpoint.
    GitLabEpic { endpoint: String },
}

pub enum StepView {
    Skip,
    Fail(Seq<char>),
    GitLabIssue { project: Seq<char>, number: u32 },
    GitHubIssue { owner: Seq<char>, repo: Seq<char>, number: u32 },
    GitLabMr { project: Seq<char>, number: u32 },
    GitHubPr { owner: Seq<char>, repo: Seq<char>, number: u32 },
    GitLabEpic { endpoint: Seq<char> },
}

impl View for CheckStep {
    type V = StepView;

    open spec fn view(&self) -> StepView {
        match self {
            CheckStep::Skip => StepView::Skip,
            CheckStep::Fail(m) => StepView::Fail(m@),
            CheckStep::GitLabIssue { project, number } => StepView::GitLabIssue {
                project: project@,
                number: *number,
            },
            CheckStep::GitHubIssue { owner, repo, number } => StepView::GitHubIssue {
                owner: owner@,
                repo: repo@,
                number: *number,
            },
            CheckStep::GitLabMr { project, number } => StepView::GitLabMr {
                project: project@,
                number: *number,
            },
            CheckStep::GitHubPr { owner, repo, number } => StepView::GitHubPr {
                owner: owner@,
                repo: repo@,
                number: *number,
            },
            CheckStep::GitLabEpic { endpoint } => StepView::GitLabEpic { endpoint: endpoint@ },
        }
    }
}

/// A GitHub `owner/repo` split at its `/`; `None` unless it has exactly one `/`.
pub open spec fn owner_and_repo(r: Seq<char>) -> Option<(Seq<char>, Seq<char>)> {
    let i = first_index(r, '/');
    if i >= 0 && first_index(r.skip(i + 1), '/') < 0 {
        Some((r.take(i), r.skip(i + 1)))
    } else {
        None
    }
}

/// The project a GitLab reference points into: its own, else the detected GitLab project.
pub open spec fn gitlab_project_for(d: ProjectView, own: Option<Seq<char>>) -> Option<Seq<char>> {
    match own {
        Some(p) => Some(p),
        None => match d {
            ProjectView::GitLab(p) => Some(p),
            _ => None,
        },
    }
}

/// What checking a reference takes, given the detected project and which
/// services are configured.
pub open spec fn check_step_of(
    d: ProjectView,
    kind: KindView,
    github_configured: bool,
    gitlab_configured: bool,
) -> StepView {
    match kind {
        KindView::GitLabIssue { project, number } => if !gitlab_configured {
            StepView::Skip
        } else {
            match gitlab_project_for(d, project) {
                Some(p) => StepView::GitLabIssue { project: p, number },
                None => StepView::Fail("GitLab issue requires project path"@),
            }
        },
        KindView::GitHubIssueOrPr { repo, number } => if !github_configured {
            StepView::Skip
        } else {
            let path = match repo {
                Some(r) => Some(r),
                None => match d {
                    ProjectView::GitHub(r) => Some(r),
                    _ => None,
                },
            };
            match path {
                None => StepView::Fail("GitHub issue requires repository path"@),
                Some(r) => match owner_and_repo(r) {
                    Some((o, n)) => StepView::GitHubIssue { owner: o, repo: n, number },
                    None => StepView::Fail("Invalid GitHub repo format: "@ + r),
                },
            }
        },
        KindView::GitLabMr { project, number } => if !gitlab_configured {
            StepView::Skip
        } else {
            match gitlab_project_for(d, project) {
                Some(p) => StepView::GitLabMr { project: p, number },
                None => StepView::Fail("GitLab MR requires project path"@),
            }
        },
        KindView::GitHubPr { repo, number } => if !github_configured {
            StepView::Skip
        } else {
            match owner_and_repo(repo) {
                Some((o, n)) => StepView::GitHubPr { owner: o, repo: n, number },
                None => StepView::Fail("Invalid GitHub repo format: "@ + repo),
            }
        },
        KindView::GitLabEpic { group, number } => if !gitlab_configured {
            StepView::Skip
        } else {
            match group {
                Some(g) => StepView::GitLabEpic { endpoint: epic_endpoint_of(g, number) },
                None => match d {
                    ProjectView::GitLab(p) => match parent_path(p) {
                        Some(g) => StepView::GitLabEpic { endpoint: epic_endpoint_of(g, number) },
                        None => StepView::Fail("Cannot determine group from project path: "@ + p),
                    },
                    _ => StepView::Fail("GitLab epic requires group path"@),
                },
            }
        },
    }
}

fn fail_with(prefix: &str, detail: &str) -> (r: CheckStep)
    ensures
        r@ == StepView::Fail(prefix@ + detail@),
{
    let mut s = crate::text::string_from(prefix);
    crate::text::push_str_chars(&mut s, detail);
    CheckStep::Fail(s)
}

fn split_owner_repo(r: &str) -> (o: Option<(String, String)>)
    ensures
        match o {
            Some((a, b)) => owner_and_repo(r@) == Some((a@, b@)),
            None => owner_and_repo(r@) is None,
        },
{
    let v = chars_of(r);
    match first_index_of(&v, '/') {
        None => None,
        Some(i) => {
            let rest = slice_chars(&v, i + 1, v.len());
            assert(rest@ == v@.skip(i + 1));
            if first_index_of(&rest, '/').is_some() {
                None
            } else {
                let owner = string_of(&v, 0, i);
                assert(v@.subrange(0, i as int) == v@.take(i as int));
                let name = string_of(&rest, 0, rest.len());
                assert(rest@.subrange(0, rest@.len() as int) == rest@);
                Some((owner, name))
            }
        },
    }
}

fn github_step(repo: &str, number: u32, is_pull: bool) -> (r: CheckStep)
    ensures
        r@ == match owner_and_repo(repo@) {
            Some((o, n)) => if is_pull {
                StepView::GitHubPr { owner: o, repo: n, number }
            } else {
                StepView::GitHubIssue { owner: o, repo: n, number }
            },
            None => StepView::Fail("Invalid GitHub repo format: "@ + repo@),
        },
{
    match split_owner_repo(repo) {
        Some((owner, name)) => if is_pull {
            CheckStep::GitHubPr { owner, repo: name, number }
        } else {
            CheckStep::GitHubIssue { owner, repo: name, number }
        },
        None => fail_with("Invalid GitHub repo format: ", repo),
    }
}

/// What checking `reference` takes.
pub fn plan_check(
    default_project: &ProjectDetection,
    reference: &TodoReference,
    github_configured: bool,
    gitlab_configured: bool,
) -> (r: CheckStep)
    ensures
        r@ == check_step_of(
            default_project@,
            reference@.kind,
            github_configured,
            gitlab_configured,
        ),
{
    match &reference.kind {
        TodoReferenceKind::GitLabIssue { project, number } => {
            if !gitlab_configured {
                return CheckStep::Skip;
            }
            match project {
                Some(p) => CheckStep::GitLabIssue { project: p.clone(), number: *number },
                None => match default_project {
                    ProjectDetection::GitLab(p) => CheckStep::GitLabIssue {
                        project: p.clone(),
                        number: *number,
                    },
                    _ => CheckStep::Fail(crate::text::string_from("GitLab issue requires project path")),
                },
            }
        },
        TodoReferenceKind::GitHubIssueOrPr { repo, number } => {
            if !github_configured {
                return CheckStep::Skip;
            }
            match repo {
                Some(r) => github_step(r.as_str(), *number, false),
                None => match default_project {
                    ProjectDetection::GitHub(r) => github_step(r.as_str(), *number, false),
                    _ => CheckStep::Fail(
                        crate::text::string_from("GitHub issue requires repository path"),
                    ),
                },
            }
        },
        TodoReferenceKind::GitLabMr { project, number } => {
            if !gitlab_configured {
                return CheckStep::Skip;
            }
            match project {
                Some(p) => CheckStep::GitLabMr { project: p.clone(), number: *number },
                None => match default_project {
                    ProjectDetection::GitLab(p) => CheckStep::GitLabMr {
                        project: p.clone(),
                        number: *number,
                    },
                    _ => CheckStep::Fail(crate::text::string_from("GitLab MR requires project path")),
                },
            }
        },
        TodoReferenceKind::GitHubPr { repo, number } => {
            if !github_configured {
                return CheckStep::Skip;
            }
            github_step(repo.as_str(), *number, true)
        },
        TodoReferenceKind::GitLabEpic { group, number } => {
            if !gitlab_configured {
                return CheckStep::Skip;
            }
            match group {
                Some(g) => CheckStep::GitLabEpic { endpoint: epic_endpoint(g.as_str(), *number) },
                None => match default_project {
                    ProjectDetection::GitLab(p) => match parent_group(p.as_str()) {
                        Some(g) => {
                            let gs = string_of(&g, 0, g.len());
                            assert(g@.subrange(0, g@.len() as int) == g@);
                            CheckStep::GitLabEpic { endpoint: epic_endpoint(gs.as_str(), *number) }
                        },
                        None => fail_with("Cannot determine group from project path: ", p.as_str()),
                    },
                    _ => CheckStep::Fail(crate::text::string_from("GitLab epic requires group path")),
                },
            }
        },
    }
}

/// A reference that names its own GitLab project, GitHub repository or epic
/// group is checked there, whatever project is detected: with the service
/// configured, the planned step asks for exactly that project, repository
/// or group and that number.
pub proof fn law_named_place_is_checked(d: ProjectView, github_configured: bool, p: Seq<char>, n: u32)
    ensures
        check_step_of(d, KindView::GitLabIssue { project: Some(p), number: n }, github_configured, true)
            == (StepView::GitLabIssue { project: p, number: n }),
        check_step_of(d, KindView::GitLabMr { project: Some(p), number: n }, github_configured, true)
            == (StepView::GitLabMr { project: p, number: n }),
        check_step_of(d, KindView::GitLabEpic { group: Some(p), number: n }, github_configured, true)
            == (StepView::GitLabEpic { endpoint: epic_endpoint_of(p, n) }),
        owner_and_repo(p) matches Some((o, r)) ==> check_step_of(
            d,
            KindView::GitHubIssueOrPr { repo: Some(p), number: n },
            true,
            github_configured,
        ) == (StepView::GitHubIssue { owner: o, repo: r, number: n }) && check_step_of(
            d,
            KindView::GitHubPr { repo: p, number: n },
            true,
            github_configured,
        ) == (StepView::GitHubPr { owner: o, repo: r, number: n }),
{
}

} // verus!
