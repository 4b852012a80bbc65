//! TODO references, lint violations and the extraction result.
use vstd::prelude::*;

use crate::checker::{is_gitlab_project, is_in_gitlab_group, ProjectDetection, ProjectView};
use crate::text::{chars_of, push_decimal, string_from, string_of, trim, trim_bounds};
use crate::order::{first_of_key, has_key, key_lt, sort_unique_by_key, Key, Keyed};
use crate::scan::{first_index, first_index_of, line_references, line_violation, ref_views, scan_line};
use crate::token::{parse_token, parse_token_exec, slice_chars, with_number};
use crate::{ReferenceWarning, WarningView};

verus! {

/// A possibly absent string, by its characters.
pub open spec fn opt_view(o: Option<String>) -> Option<Seq<char>> {
    match o {
        Some(s) => Some(s@),
        None => None,
    }
}

/// What a TODO comment points at.
#[allow(inconsistent_fields)]
#[derive(Debug)]
pub enum TodoReferenceKind {
    GitLabIssue { project: Option<String>, number: u32 },
    GitHubIssueOrPr { repo: Option<String>, number: u32 },
    GitLabMr { project: Option<String>, number: u32 },
    GitHubPr { repo: String, number: u32 },
    GitLabEpic { group: Option<String>, number: u32 },
}

/// The mathematical value of a [`TodoReferenceKind`].
#[allow(inconsistent_fields)]
pub enum KindView {
    GitLabIssue { project: Option<Seq<char>>, number: u32 },
    GitHubIssueOrPr { repo: Option<Seq<char>>, number: u32 },
    GitLabMr { project: Option<Seq<char>>, number: u32 },
    GitHubPr { repo: Seq<char>, number: u32 },
    GitLabEpic { group: Option<Seq<char>>, number: u32 },
}

impl View for TodoReferenceKind {
    type V = KindView;

    open spec fn view(&self) -> KindView {
        match self {
            TodoReferenceKind::GitLabIssue { project, number } => KindView::GitLabIssue {
                project: opt_view(*project),
                number: *number,
            },
            TodoReferenceKind::GitHubIssueOrPr { repo, number } => KindView::GitHubIssueOrPr {
                repo: opt_view(*repo),
                number: *number,
            },
            TodoReferenceKind::GitLabMr { project, number } => KindView::GitLabMr {
                project: opt_view(*project),
                number: *number,
            },
            TodoReferenceKind::GitHubPr { repo, number } => KindView::GitHubPr {
                repo: repo@,
                number: *number,
            },
            TodoReferenceKind::GitLabEpic { group, number } => KindView::GitLabEpic {
                group: opt_view(*group),
                number: *number,
            },
        }
    }
}

pub fn clone_opt_string(o: &Option<String>) -> (r: Option<String>)
    ensures
        opt_view(r) == opt_view(*o),
{
    match o {
        Some(s) => Some(s.clone()),
        None => None,
    }
}

/// Whether two strings hold the same characters.
pub fn string_eq(a: &String, b: &String) -> (r: bool)
    ensures
        r == (a@ == b@),
{
    *a == *b
}

pub fn opt_string_eq(a: &Option<String>, b: &Option<String>) -> (r: bool)
    ensures
        r == (opt_view(*a) == opt_view(*b)),
{
    match (a, b) {
        (Some(x), Some(y)) => string_eq(x, y),
        (None, None) => true,
        _ => false,
    }
}

impl Clone for TodoReferenceKind {
    fn clone(&self) -> (r: Self)
        ensures
            r@ == self@,
    {
        match self {
            TodoReferenceKind::GitLabIssue { project, number } => TodoReferenceKind::GitLabIssue {
                project: clone_opt_string(project),
                number: *number,
            },
            TodoReferenceKind::GitHubIssueOrPr { repo, number } =>
                TodoReferenceKind::GitHubIssueOrPr { repo: clone_opt_string(repo), number: *number },
            TodoReferenceKind::GitLabMr { project, number } => TodoReferenceKind::GitLabMr {
                project: clone_opt_string(project),
                number: *number,
            },
            TodoReferenceKind::GitHubPr { repo, number } => TodoReferenceKind::GitHubPr {
                repo: repo.clone(),
                number: *number,
            },
            TodoReferenceKind::GitLabEpic { group, number } => TodoReferenceKind::GitLabEpic {
                group: clone_opt_string(group),
                number: *number,
            },
        }
    }
}

impl TodoReferenceKind {
    /// Whether two kinds are equal, field by field.
    pub fn same_as(&self, other: &Self) -> (r: bool)
        ensures
            r == (self@ == other@),
    {
        match (self, other) {
            (
                TodoReferenceKind::GitLabIssue { project: p1, number: n1 },
                TodoReferenceKind::GitLabIssue { project: p2, number: n2 },
            ) => *n1 == *n2 && opt_string_eq(p1, p2),
            (
                TodoReferenceKind::GitHubIssueOrPr { repo: p1, number: n1 },
                TodoReferenceKind::GitHubIssueOrPr { repo: p2, number: n2 },
            ) => *n1 == *n2 && opt_string_eq(p1, p2),
            (
                TodoReferenceKind::GitLabMr { project: p1, number: n1 },
                TodoReferenceKind::GitLabMr { project: p2, number: n2 },
            ) => *n1 == *n2 && opt_string_eq(p1, p2),
            (
                TodoReferenceKind::GitHubPr { repo: p1, number: n1 },
                TodoReferenceKind::GitHubPr { repo: p2, number: n2 },
            ) => *n1 == *n2 && *p1 == *p2,
            (
                TodoReferenceKind::GitLabEpic { group: p1, number: n1 },
                TodoReferenceKind::GitLabEpic { group: p2, number: n2 },
            ) => *n1 == *n2 && opt_string_eq(p1, p2),
            _ => false,
        }
    }
}

} // verus!

verus! {

/// A reference found in a TODO comment, with where it was found.
#[derive(Debug)]
pub struct TodoReference {
    pub kind: TodoReferenceKind,
    pub source_line: String,
    pub file_path: String,
    pub line_number: u64,
    /// String token as matched from the TODO reference segment.
    pub original_reference: String,
    /// Suggested shorter format for URL-form references; `None` if already in preferred form.
    pub recommended_format: Option<String>,
}

/// The mathematical value of a [`TodoReference`].
pub struct ReferenceView {
    pub kind: KindView,
    pub source_line: Seq<char>,
    pub file_path: Seq<char>,
    pub line_number: u64,
    pub original_reference: Seq<char>,
    pub recommended_format: Option<Seq<char>>,
}

impl View for TodoReference {
    type V = ReferenceView;

    open spec fn view(&self) -> ReferenceView {
        ReferenceView {
            kind: self.kind@,
            source_line: self.source_line@,
            file_path: self.file_path@,
            line_number: self.line_number,
            original_reference: self.original_reference@,
            recommended_format: opt_view(self.recommended_format),
        }
    }
}

impl Clone for TodoReference {
    fn clone(&self) -> (r: Self)
        ensures
            r@ == self@,
    {
        TodoReference {
            kind: self.kind.clone(),
            source_line: self.source_line.clone(),
            file_path: self.file_path.clone(),
            line_number: self.line_number,
            original_reference: self.original_reference.clone(),
            recommended_format: clone_opt_string(&self.recommended_format),
        }
    }
}

/// How a reference of this kind is displayed: `#12`, `group/project!3`,
/// `owner/repo#7`, `&5`, ...
pub open spec fn display_of(k: KindView) -> Seq<char> {
    match k {
        KindView::GitLabIssue { project: None, number } => crate::token::with_number(
            seq![],
            '#',
            number,
        ),
        KindView::GitLabIssue { project: Some(p), number } => crate::token::with_number(
            p,
            '#',
            number,
        ),
        KindView::GitHubIssueOrPr { repo: Some(r), number } => crate::token::with_number(
            r,
            '#',
            number,
        ),
        KindView::GitHubIssueOrPr { repo: None, number } => crate::token::with_number(
            seq![],
            '#',
            number,
        ),
        KindView::GitLabMr { project: None, number } => crate::token::with_number(
            seq![],
            '!',
            number,
        ),
        KindView::GitLabMr { project: Some(p), number } => crate::token::with_number(
            p,
            '!',
            number,
        ),
        KindView::GitHubPr { repo, number } => crate::token::with_number(repo, '#', number),
        KindView::GitLabEpic { group: None, number } => crate::token::with_number(
            seq![],
            '&',
            number,
        ),
        KindView::GitLabEpic { group: Some(g), number } => crate::token::with_number(
            g,
            '&',
            number,
        ),
    }
}

/// `path` (if any), then `sigil`, then the number.
fn numbered_string(path: &Option<String>, sigil: char, n: u32) -> (s: String)
    ensures
        s@ == crate::token::with_number(
            match opt_view(*path) {
                Some(p) => p,
                None => Seq::<char>::empty(),
            },
            sigil,
            n,
        ),
{
    let mut s = String::new();
    match path {
        Some(p) => {
            s = p.clone();
        },
        None => {},
    }
    s.push(sigil);
    push_decimal(&mut s, n as u64);
    s
}

impl TodoReference {
    /// A reference found on `source_line`; the line is kept trimmed.
    pub fn new(
        kind: TodoReferenceKind,
        source_line: &str,
        file_path: &str,
        line_number: u64,
        original_reference: &str,
        recommended_format: Option<String>,
    ) -> (r: Self)
        ensures
            r@ == (ReferenceView {
                kind: kind@,
                source_line: trim(source_line@),
                file_path: file_path@,
                line_number,
                original_reference: original_reference@,
                recommended_format: opt_view(recommended_format),
            }),
    {
        let line = chars_of(source_line);
        let (a, b) = trim_bounds(&line, 0, line.len());
        assert(line@.subrange(0, line@.len() as int) == line@);
        TodoReference {
            kind,
            source_line: string_of(&line, a, b),
            file_path: string_from(file_path),
            line_number,
            original_reference: string_from(original_reference),
            recommended_format,
        }
    }

    /// The reference written in its short form.
    pub fn display(&self) -> (s: String)
        ensures
            s@ == display_of(self.kind@),
    {
        match &self.kind {
            TodoReferenceKind::GitLabIssue { project, number } => numbered_string(
                project,
                '#',
                *number,
            ),
            TodoReferenceKind::GitHubIssueOrPr { repo, number } => numbered_string(
                repo,
                '#',
                *number,
            ),
            TodoReferenceKind::GitLabMr { project, number } => numbered_string(
                project,
                '!',
                *number,
            ),
            TodoReferenceKind::GitHubPr { repo, number } => {
                let mut s = repo.clone();
                s.push('#');
                push_decimal(&mut s, *number as u64);
                s
            },
            TodoReferenceKind::GitLabEpic { group, number } => numbered_string(
                group,
                '&',
                *number,
            ),
        }
    }

    pub fn source_line(&self) -> (s: &str)
        ensures
            s@ == self.source_line@,
    {
        self.source_line.as_str()
    }

    pub fn file_path(&self) -> (s: &str)
        ensures
            s@ == self.file_path@,
    {
        self.file_path.as_str()
    }

    pub fn line_number(&self) -> (n: u64)
        ensures
            n == self.line_number,
    {
        self.line_number
    }

    /// Whether two references are equal, field by field.
    pub fn same_as(&self, other: &Self) -> (r: bool)
        ensures
            r == (self@ == other@),
    {
        self.line_number == other.line_number && self.kind.same_as(&other.kind) && string_eq(
            &self.source_line,
            &other.source_line,
        ) && string_eq(&self.file_path, &other.file_path) && string_eq(
            &self.original_reference,
            &other.original_reference,
        ) && opt_string_eq(&self.recommended_format, &other.recommended_format)
    }
}

/// A TODO-like comment line that does not follow the accepted reference syntax.
#[derive(Debug)]
pub struct LintViolation {
    pub source_line: String,
    pub file_path: String,
    pub line_number: u64,
}

pub struct ViolationView {
    pub source_line: Seq<char>,
    pub file_path: Seq<char>,
    pub line_number: u64,
}

impl View for LintViolation {
    type V = ViolationView;

    open spec fn view(&self) -> ViolationView {
        ViolationView {
            source_line: self.source_line@,
            file_path: self.file_path@,
            line_number: self.line_number,
        }
    }
}

impl Clone for LintViolation {
    fn clone(&self) -> (r: Self)
        ensures
            r@ == self@,
    {
        LintViolation {
            source_line: self.source_line.clone(),
            file_path: self.file_path.clone(),
            line_number: self.line_number,
        }
    }
}

/// A list of TODO-like comment lines that do not match accepted TODO reference syntax.
pub type LintViolations = Vec<LintViolation>;

} // verus!

verus! {

/// The warning a reference raises, if it was written as a URL: it suggests
/// its recommended short form, or the bare `#N`, `!N`, `&N` form when it
/// points into the detected project (for epics: the detected project's group).
pub open spec fn suggestion_of(r: ReferenceView, d: ProjectView) -> Option<WarningView> {
    match r.recommended_format {
        None => None,
        Some(base) => Some(
            WarningView {
                reference: r,
                original: r.original_reference,
                suggestion: match r.kind {
                    KindView::GitLabIssue { project: Some(p), number } => if is_gitlab_project(
                        d,
                        p,
                    ) {
                        with_number(seq![], '#', number)
                    } else {
                        base
                    },
                    KindView::GitLabMr { project: Some(p), number } => if is_gitlab_project(d, p) {
                        with_number(seq![], '!', number)
                    } else {
                        base
                    },
                    KindView::GitLabEpic { group: Some(g), number } => if is_in_gitlab_group(
                        d,
                        g,
                    ) {
                        with_number(seq![], '&', number)
                    } else {
                        base
                    },
                    _ => base,
                },
            },
        ),
    }
}

pub open spec fn opt_warning_view(o: Option<ReferenceWarning>) -> Option<WarningView> {
    match o {
        Some(w) => Some(w@),
        None => None,
    }
}

impl TodoReference {
    /// The shorter form this reference could be written in, if it is written as a URL.
    pub fn suggest_simplified_format(&self, project_detection: &ProjectDetection) -> (r: Option<
        ReferenceWarning,
    >)
        ensures
            opt_warning_view(r) == suggestion_of(self@, project_detection@),
    {
        let base = match &self.recommended_format {
            Some(b) => b,
            None => {
                return None;
            },
        };
        let suggestion = match &self.kind {
            TodoReferenceKind::GitLabIssue { project: Some(project), number } => {
                if project_detection.matches_gitlab(project.as_str()) {
                    numbered_string(&None, '#', *number)
                } else {
                    base.clone()
                }
            },
            TodoReferenceKind::GitLabMr { project: Some(project), number } => {
                if project_detection.matches_gitlab(project.as_str()) {
                    numbered_string(&None, '!', *number)
                } else {
                    base.clone()
                }
            },
            TodoReferenceKind::GitLabEpic { group: Some(group), number } => {
                if project_detection.parent_group_matches(group.as_str()) {
                    numbered_string(&None, '&', *number)
                } else {
                    base.clone()
                }
            },
            _ => base.clone(),
        };
        Some(
            ReferenceWarning {
                reference: self.clone(),
                original: self.original_reference.clone(),
                suggestion,
            },
        )
    }
}

} // verus!

verus! {

/// Lint violations are reported by file, line, then line text.
pub open spec fn violation_key(v: ViolationView) -> Key {
    (v.file_path, v.line_number, v.source_line)
}

impl Keyed for LintViolation {
    open spec fn key(&self) -> Key {
        violation_key(self@)
    }

    fn key_chars(&self) -> (r: (Vec<char>, u64, Vec<char>)) {
        (chars_of(self.file_path.as_str()), self.line_number, chars_of(self.source_line.as_str()))
    }
}

pub open spec fn violation_views(s: Seq<LintViolation>) -> Seq<ViolationView> {
    s.map_values(|v: LintViolation| v@)
}

/// `out` lists each violation of `input` once, ordered by file, line and text.
pub open spec fn violations_in_report_order(input: Seq<ViolationView>, out: Seq<ViolationView>) -> bool {
    &&& forall|k: int, l: int|
        0 <= k < l < out.len() ==> key_lt(violation_key(out[k]), violation_key(out[l]))
    &&& forall|x: ViolationView| out.contains(x) <==> input.contains(x)
}

proof fn lemma_same_violation_prefix(
    input: Seq<ViolationView>,
    a: Seq<ViolationView>,
    b: Seq<ViolationView>,
    k: int,
)
    requires
        violations_in_report_order(input, a),
        violations_in_report_order(input, b),
        0 <= k <= a.len(),
        k <= b.len(),
    ensures
        forall|j: int| 0 <= j < k ==> #[trigger] a[j] == b[j],
    decreases k,
{
    if k > 0 {
        lemma_same_violation_prefix(input, a, b, k - 1);
        let x = a[k - 1];
        let y = b[k - 1];
        assert(a.contains(x));
        assert(b.contains(x));
        assert(b.contains(y));
        assert(a.contains(y));
        let l = choose|l: int| 0 <= l < b.len() && b[l] == x;
        let m = choose|m: int| 0 <= m < a.len() && a[m] == y;
        crate::order::lemma_key_irreflexive(violation_key(x));
        crate::order::lemma_key_irreflexive(violation_key(y));
        if l < k - 1 {
            assert(a[l] == b[l]);
            assert(key_lt(violation_key(a[l]), violation_key(a[k - 1])));
        }
        if m < k - 1 {
            assert(a[m] == b[m]);
            assert(key_lt(violation_key(b[m]), violation_key(b[k - 1])));
        }
        if l > k - 1 && m > k - 1 {
            assert(key_lt(violation_key(y), violation_key(x)));
            assert(key_lt(violation_key(x), violation_key(y)));
            crate::order::lemma_key_transitive(violation_key(x), violation_key(y), violation_key(x));
        }
    }
}

/// The report of lint violations is determined by the violations found:
/// two lists that each hold exactly the found violations, in strictly
/// increasing report order, are equal.
pub proof fn law_violation_report_determined(
    input: Seq<ViolationView>,
    a: Seq<ViolationView>,
    b: Seq<ViolationView>,
)
    requires
        violations_in_report_order(input, a),
        violations_in_report_order(input, b),
    ensures
        a == b,
{
    if a.len() > b.len() {
        lemma_same_violation_prefix(input, a, b, b.len() as int);
        let x = a[b.len() as int];
        assert(a.contains(x));
        assert(b.contains(x));
        let l = choose|l: int| 0 <= l < b.len() && b[l] == x;
        assert(a[l] == b[l]);
        assert(key_lt(violation_key(a[l]), violation_key(x)));
        crate::order::lemma_key_irreflexive(violation_key(x));
    } else if b.len() > a.len() {
        lemma_same_violation_prefix(input, a, b, a.len() as int);
        let x = b[a.len() as int];
        assert(b.contains(x));
        assert(a.contains(x));
        let l = choose|l: int| 0 <= l < a.len() && a[l] == x;
        assert(a[l] == b[l]);
        assert(key_lt(violation_key(b[l]), violation_key(x)));
        crate::order::lemma_key_irreflexive(violation_key(x));
    } else {
        lemma_same_violation_prefix(input, a, b, a.len() as int);
        assert(a =~= b);
    }
}

/// `s` with `r` added unless it is already there.
pub open spec fn with_reference(s: Seq<ReferenceView>, r: ReferenceView) -> Seq<ReferenceView> {
    if s.contains(r) {
        s
    } else {
        s.push(r)
    }
}

/// `s` with each of `rs` added in turn unless already there.
pub open spec fn with_references(s: Seq<ReferenceView>, rs: Seq<ReferenceView>) -> Seq<ReferenceView>
    decreases rs.len(),
{
    if rs.len() == 0 {
        s
    } else {
        with_reference(with_references(s, rs.drop_last()), rs.last())
    }
}

/// No reference occurs twice.
pub open spec fn no_duplicates(s: Seq<ReferenceView>) -> bool {
    forall|i: int, j: int| 0 <= i < j < s.len() ==> s[i] != s[j]
}

/// Adding references one at a time, each unless it is already there, keeps
/// every reference once: the result holds exactly the references of `s`
/// and of `rs`, none twice.
pub proof fn law_references_kept_once(s: Seq<ReferenceView>, rs: Seq<ReferenceView>)
    requires
        no_duplicates(s),
    ensures
        no_duplicates(with_references(s, rs)),
        forall|x: ReferenceView| #[trigger]
            with_references(s, rs).contains(x) <==> (s.contains(x) || rs.contains(x)),
    decreases rs.len(),
{
    if rs.len() > 0 {
        let prev = with_references(s, rs.drop_last());
        law_references_kept_once(s, rs.drop_last());
        let r = rs.last();
        if !prev.contains(r) {
            assert forall|i: int, j: int| 0 <= i < j < prev.push(r).len() implies prev.push(r)[i]
                != prev.push(r)[j] by {
                if j == prev.len() {
                    assert(prev[i] == prev.push(r)[i]);
                }
            }
        }
        assert forall|x: ReferenceView| #[trigger]
            with_references(s, rs).contains(x) <==> (s.contains(x) || rs.contains(x)) by {
            if rs.drop_last().contains(x) {
                let k = choose|k: int| 0 <= k < rs.drop_last().len() && rs.drop_last()[k] == x;
                assert(rs[k] == x);
            }
            if rs.contains(x) && x != r {
                let k = choose|k: int| 0 <= k < rs.len() && rs[k] == x;
                assert(rs.drop_last()[k] == x);
            }
            if x == r {
                assert(rs[rs.len() - 1] == x);
            }
            if prev.contains(r) {
            } else {
                if prev.push(r).contains(x) && x != r {
                    let k = choose|k: int| 0 <= k < prev.push(r).len() && prev.push(r)[k] == x;
                    assert(prev[k] == x);
                }
                if prev.contains(x) {
                    let k = choose|k: int| 0 <= k < prev.len() && prev[k] == x;
                    assert(prev.push(r)[k] == x);
                }
                assert(prev.push(r)[prev.len() as int] == r);
            }
        }
    }
}

/// The lines of `t`, each with its line feed where it has one, as
/// `str::split_inclusive('\n')` gives them.
pub open spec fn text_lines(t: Seq<char>) -> Seq<Seq<char>>
    decreases t.len(),
{
    if t.len() == 0 {
        seq![]
    } else {
        let i = first_index(t, '\n');
        if i < 0 || i >= t.len() {
            seq![t]
        } else {
            seq![t.take(i + 1)] + text_lines(t.skip(i + 1))
        }
    }
}

/// A line of a file as read: `Ok` with its text where it is UTF-8, `Err`
/// with its text where its bad bytes were replaced.
pub open spec fn read_line_view(l: Result<String, String>) -> Result<Seq<char>, Seq<char>> {
    match l {
        Ok(t) => Ok(t@),
        Err(t) => Err(t@),
    }
}

pub open spec fn read_lines_view(v: Seq<Result<String, String>>) -> Seq<Result<Seq<char>, Seq<char>>> {
    v.map_values(|l: Result<String, String>| read_line_view(l))
}

/// The text that the search of a file reads: each line as it is, a line
/// that is not UTF-8 but holds no TODO-like marker with its bad bytes
/// replaced, and nothing from the first TODO-like line that is not UTF-8 on.
pub open spec fn readable_of(ls: Seq<Result<Seq<char>, Seq<char>>>) -> Seq<char>
    decreases ls.len(),
{
    if ls.len() == 0 {
        seq![]
    } else {
        match ls[0] {
            Ok(t) => t + readable_of(ls.drop_first()),
            Err(t) => if crate::scan::todo_like(t) {
                seq![]
            } else {
                t + readable_of(ls.drop_first())
            },
        }
    }
}

/// Whether the search of the file stops early, at a TODO-like line that is
/// not UTF-8.
pub open spec fn stops_early(ls: Seq<Result<Seq<char>, Seq<char>>>) -> bool {
    exists|i: int|
        0 <= i < ls.len() && (#[trigger] ls[i] matches Err(t) && crate::scan::todo_like(t))
}

/// The text that the search of a file reads from its lines, and whether it
/// stopped early.
pub fn readable_text(lines: &Vec<Result<String, String>>) -> (r: (String, bool))
    ensures
        r.0@ == readable_of(read_lines_view(lines@)),
        r.1 == stops_early(read_lines_view(lines@)),
{
    let ghost ls = read_lines_view(lines@);
    let mut out = String::new();
    let mut i: usize = 0;
    assert(ls.skip(0) == ls);
    while i < lines.len()
        invariant
            ls == read_lines_view(lines@),
            0 <= i <= lines@.len(),
            readable_of(ls) == out@ + readable_of(ls.skip(i as int)),
            forall|j: int| 0 <= j < i ==> !(#[trigger] ls[j] matches Err(t) && crate::scan::todo_like(t)),
        decreases lines.len() - i,
    {
        let ghost rest = ls.skip(i as int);
        assert(rest.drop_first() == ls.skip(i + 1));
        assert(rest[0] == read_line_view(lines@[i as int]));
        match &lines[i] {
            Ok(t) => {
                crate::text::push_str_chars(&mut out, t.as_str());
            },
            Err(t) => {
                let chars = chars_of(t.as_str());
                if crate::scan::is_todo_like(&chars) {
                    assert(ls[i as int] matches Err(x) && crate::scan::todo_like(x));
                    assert(out@ + Seq::<char>::empty() =~= out@);
                    return (out, true);
                }
                crate::text::push_str_chars(&mut out, t.as_str());
            },
        }
        assert(readable_of(ls) =~= out@ + readable_of(ls.skip(i + 1)));
        i = i + 1;
    }
    assert(ls.skip(lines@.len() as int) =~= Seq::<Result<Seq<char>, Seq<char>>>::empty());
    assert(out@ + Seq::<char>::empty() =~= out@);
    (out, false)
}

/// The references and the lint violations collected so far.
pub type ExtractionView = (Seq<ReferenceView>, Seq<ViolationView>);

/// What has been collected after one more line, line `n` of `file`.
pub open spec fn after_line(st: ExtractionView, line: Seq<char>, file: Seq<char>, n: u64) -> ExtractionView {
    (
        with_references(st.0, line_references(line, file, n)),
        match line_violation(line, file, n) {
            Some(v) => st.1.push(v),
            None => st.1,
        },
    )
}

/// What has been collected after `lines`, taken in as lines 1, 2, ... of
/// `file`.
pub open spec fn after_lines(st: ExtractionView, lines: Seq<Seq<char>>, file: Seq<char>) -> ExtractionView
    decreases lines.len(),
{
    if lines.len() == 0 {
        st
    } else {
        after_line(after_lines(st, lines.drop_last(), file), lines.last(), file, lines.len() as u64)
    }
}

proof fn lemma_with_references_contains(s: Seq<ReferenceView>, rs: Seq<ReferenceView>)
    ensures
        forall|x: ReferenceView| #[trigger]
            with_references(s, rs).contains(x) <==> (s.contains(x) || rs.contains(x)),
    decreases rs.len(),
{
    if rs.len() > 0 {
        let prev = with_references(s, rs.drop_last());
        lemma_with_references_contains(s, rs.drop_last());
        let r = rs.last();
        assert forall|x: ReferenceView| #[trigger]
            with_references(s, rs).contains(x) <==> (s.contains(x) || rs.contains(x)) by {
            if rs.drop_last().contains(x) {
                let k = choose|k: int| 0 <= k < rs.drop_last().len() && rs.drop_last()[k] == x;
                assert(rs[k] == x);
            }
            if rs.contains(x) && x != r {
                let k = choose|k: int| 0 <= k < rs.len() && rs[k] == x;
                assert(rs.drop_last()[k] == x);
            }
            if x == r {
                assert(rs[rs.len() - 1] == x);
            }
            if !prev.contains(r) {
                if prev.push(r).contains(x) && x != r {
                    let k = choose|k: int| 0 <= k < prev.push(r).len() && prev.push(r)[k] == x;
                    assert(prev[k] == x);
                }
                if prev.contains(x) {
                    let k = choose|k: int| 0 <= k < prev.len() && prev[k] == x;
                    assert(prev.push(r)[k] == x);
                }
                assert(prev.push(r)[prev.len() as int] == r);
            }
        }
    }
}

/// Line `i` (from 0) of `lines` raises the violation `v` as line `i + 1` of `file`.
pub open spec fn line_gives_violation(
    lines: Seq<Seq<char>>,
    file: Seq<char>,
    v: ViolationView,
    i: int,
) -> bool {
    0 <= i < lines.len() && line_violation(lines[i], file, (i + 1) as u64) == Some(v)
}

/// Line `i` (from 0) of `lines` carries the reference `r` as line `i + 1` of `file`.
pub open spec fn line_gives_reference(
    lines: Seq<Seq<char>>,
    file: Seq<char>,
    r: ReferenceView,
    i: int,
) -> bool {
    0 <= i < lines.len() && line_references(lines[i], file, (i + 1) as u64).contains(r)
}

/// After taking in `lines`, the collected violations are those collected
/// before and those the lines raise; likewise for references.
pub proof fn lemma_after_lines_contents(st: ExtractionView, lines: Seq<Seq<char>>, file: Seq<char>)
    ensures
        forall|v: ViolationView| #[trigger]
            after_lines(st, lines, file).1.contains(v) <==> (st.1.contains(v) || exists|i: int|
                #[trigger] line_gives_violation(lines, file, v, i)),
        forall|r: ReferenceView| #[trigger]
            after_lines(st, lines, file).0.contains(r) <==> (st.0.contains(r) || exists|i: int|
                #[trigger] line_gives_reference(lines, file, r, i)),
    decreases lines.len(),
{
    if lines.len() > 0 {
        let p = lines.drop_last();
        let n = lines.len() as int;
        let last = lines.last();
        let prev = after_lines(st, p, file);
        lemma_after_lines_contents(st, p, file);
        lemma_with_references_contains(prev.0, line_references(last, file, n as u64));
        assert(((n - 1) + 1) as u64 == n as u64);
        assert forall|v: ViolationView| #[trigger]
            after_lines(st, lines, file).1.contains(v) <==> (st.1.contains(v) || exists|i: int|
                #[trigger] line_gives_violation(lines, file, v, i)) by {
            assert forall|i: int| 0 <= i < n - 1 implies (#[trigger] line_gives_violation(
                lines,
                file,
                v,
                i,
            ) <==> line_gives_violation(p, file, v, i)) by {
                assert(p[i] == lines[i]);
            }
            match line_violation(last, file, n as u64) {
                Some(v0) => {
                    if prev.1.push(v0).contains(v) && v != v0 {
                        let k = choose|k: int| 0 <= k < prev.1.push(v0).len() && prev.1.push(v0)[k] == v;
                        assert(prev.1[k] == v);
                    }
                    if prev.1.contains(v) {
                        let k = choose|k: int| 0 <= k < prev.1.len() && prev.1[k] == v;
                        assert(prev.1.push(v0)[k] == v);
                    }
                    assert(prev.1.push(v0)[prev.1.len() as int] == v0);
                    if v == v0 {
                        assert(line_gives_violation(lines, file, v, n - 1));
                    }
                    if exists|i: int| #[trigger] line_gives_violation(lines, file, v, i) {
                        let i = choose|i: int| #[trigger] line_gives_violation(lines, file, v, i);
                        if i < n - 1 {
                            assert(line_gives_violation(p, file, v, i));
                        }
                    }
                    if exists|i: int| #[trigger] line_gives_violation(p, file, v, i) {
                        let i = choose|i: int| #[trigger] line_gives_violation(p, file, v, i);
                        assert(line_gives_violation(lines, file, v, i));
                    }
                },
                None => {
                    if exists|i: int| #[trigger] line_gives_violation(lines, file, v, i) {
                        let i = choose|i: int| #[trigger] line_gives_violation(lines, file, v, i);
                        if i < n - 1 {
                            assert(line_gives_violation(p, file, v, i));
                        }
                    }
                    if exists|i: int| #[trigger] line_gives_violation(p, file, v, i) {
                        let i = choose|i: int| #[trigger] line_gives_violation(p, file, v, i);
                        assert(line_gives_violation(lines, file, v, i));
                    }
                },
            }
        }
        assert forall|r: ReferenceView| #[trigger]
            after_lines(st, lines, file).0.contains(r) <==> (st.0.contains(r) || exists|i: int|
                #[trigger] line_gives_reference(lines, file, r, i)) by {
            if line_references(last, file, n as u64).contains(r) {
                assert(line_gives_reference(lines, file, r, n - 1));
            }
            if exists|i: int| #[trigger] line_gives_reference(lines, file, r, i) {
                let i = choose|i: int| #[trigger] line_gives_reference(lines, file, r, i);
                if i < n - 1 {
                    assert(p[i] == lines[i]);
                    assert(line_gives_reference(p, file, r, i));
                }
            }
            if exists|i: int| #[trigger] line_gives_reference(p, file, r, i) {
                let i = choose|i: int| #[trigger] line_gives_reference(p, file, r, i);
                assert(p[i] == lines[i]);
                assert(line_gives_reference(lines, file, r, i));
            }
        }
    }
}

/// Every reference a line carries keeps the trimmed line, the file and the
/// line number.
pub proof fn lemma_line_reference_position(s: Seq<char>, file: Seq<char>, lnum: u64, r: ReferenceView)
    requires
        line_references(s, file, lnum).contains(r),
    ensures
        r.source_line == trim(s),
        r.file_path == file,
        r.line_number == lnum,
{
    lemma_token_refs_position(crate::scan::line_tokens(s), s, file, lnum, r);
}

proof fn lemma_token_refs_position(
    tokens: Seq<Seq<char>>,
    s: Seq<char>,
    file: Seq<char>,
    lnum: u64,
    r: ReferenceView,
)
    requires
        crate::scan::token_refs(tokens, s, file, lnum).contains(r),
    ensures
        r.source_line == trim(s),
        r.file_path == file,
        r.line_number == lnum,
    decreases tokens.len(),
{
    if tokens.len() > 0 {
        let rest = crate::scan::token_refs(tokens.drop_last(), s, file, lnum);
        let all = crate::scan::token_refs(tokens, s, file, lnum);
        let k = choose|k: int| 0 <= k < all.len() && all[k] == r;
        if k < rest.len() {
            assert(all[k] == rest[k]);
            assert(rest.contains(r));
            lemma_token_refs_position(tokens.drop_last(), s, file, lnum, r);
        }
    }
}

/// Result of TODO extraction, including parsed references and syntax violations.
#[derive(Debug)]
pub struct ExtractionResult {
    pub references: Vec<TodoReference>,
    pub lint_violations: LintViolations,
}

/// Collects what the lines of the scanned files yield.
pub struct Extraction {
    references: Vec<TodoReference>,
    lint_violations: Vec<LintViolation>,
}

impl Extraction {
    /// The references collected so far, each once.
    pub closed spec fn references_view(&self) -> Seq<ReferenceView> {
        ref_views(self.references@)
    }

    /// The lint violations collected so far, in the order found.
    pub closed spec fn violations_view(&self) -> Seq<ViolationView> {
        violation_views(self.lint_violations@)
    }

    pub fn new() -> (r: Self)
        ensures
            r.references_view() == Seq::<ReferenceView>::empty(),
            no_duplicates(r.references_view()),
            r.violations_view() == Seq::<ViolationView>::empty(),
    {
        let r = Extraction { references: Vec::new(), lint_violations: Vec::new() };
        assert(ref_views(r.references@) =~= Seq::<ReferenceView>::empty());
        assert(violation_views(r.lint_violations@) =~= Seq::<ViolationView>::empty());
        r
    }

    fn add_reference(&mut self, r: TodoReference)
        ensures
            final(self).references_view() == with_reference(old(self).references_view(), r@),
            final(self).violations_view() == old(self).violations_view(),
    {
        let ghost s = ref_views(self.references@);
        let mut i: usize = 0;
        while i < self.references.len()
            invariant
                s == ref_views(self.references@),
                0 <= i <= self.references@.len(),
                forall|j: int| 0 <= j < i ==> s[j] != r@,
            decreases self.references.len() - i,
        {
            if self.references[i].same_as(&r) {
                assert(s[i as int] == r@);
                return;
            }
            i = i + 1;
        }
        let ghost prev = self.references@;
        self.references.push(r);
        assert(ref_views(self.references@) =~= s.push(r@));
    }

    /// Takes in one line of a scanned file (line terminator included).
    pub fn add_line(&mut self, line: &str, file_path: &str, line_number: u64)
        ensures
            final(self).references_view() == with_references(
                old(self).references_view(),
                line_references(line@, file_path@, line_number),
            ),
            final(self).violations_view() == match line_violation(
                line@,
                file_path@,
                line_number,
            ) {
                Some(v) => old(self).violations_view().push(v),
                None => old(self).violations_view(),
            },
            no_duplicates(old(self).references_view()) ==> no_duplicates(
                final(self).references_view(),
            ),
    {
        let scan = scan_line(line, file_path, line_number);
        let ghost rs = ref_views(scan.references@);
        let ghost start = self.references_view();
        let ghost start_v = self.violations_view();
        let mut i: usize = 0;
        while i < scan.references.len()
            invariant
                rs == ref_views(scan.references@),
                0 <= i <= scan.references@.len(),
                self.references_view() == with_references(start, rs.take(i as int)),
                self.violations_view() == start_v,
            decreases scan.references.len() - i,
        {
            assert(rs.take(i + 1).drop_last() == rs.take(i as int));
            let r = scan.references[i].clone();
            self.add_reference(r);
            i = i + 1;
        }
        assert(rs.take(rs.len() as int) == rs);
        proof {
            if no_duplicates(start) {
                law_references_kept_once(start, rs);
            }
        }
        match scan.violation {
            Some(v) => {
                let ghost prev = self.lint_violations@;
                self.lint_violations.push(v);
                assert(violation_views(self.lint_violations@) =~= violation_views(prev).push(v@));
            },
            None => {},
        }
    }

    /// Takes in the text of a scanned file, line by line, numbering its
    /// lines from 1.
    pub fn add_text(&mut self, text: &str, file_path: &str)
        ensures
            (final(self).references_view(), final(self).violations_view()) == after_lines(
                (old(self).references_view(), old(self).violations_view()),
                text_lines(text@),
                file_path@,
            ),
            no_duplicates(old(self).references_view()) ==> no_duplicates(
                final(self).references_view(),
            ),
    {
        let v = chars_of(text);
        let ghost st0 = (self.references_view(), self.violations_view());
        let ghost mut done: Seq<Seq<char>> = seq![];
        let mut start: usize = 0;
        let mut n: u64 = 0;
        assert(v@.skip(0) == v@);
        while start < v.len()
            invariant
                0 <= n <= start <= v@.len(),
                n == done.len(),
                text_lines(v@) == done + text_lines(v@.skip(start as int)),
                (self.references_view(), self.violations_view()) == after_lines(
                    st0,
                    done,
                    file_path@,
                ),
                no_duplicates(st0.0) ==> no_duplicates(self.references_view()),
            decreases v.len() - start,
        {
            let ghost rest = v@.skip(start as int);
            let tail = slice_chars(&v, start, v.len());
            assert(tail@ == rest);
            let end = match first_index_of(&tail, '\n') {
                Some(i) => start + i + 1,
                None => v.len(),
            };
            let line = crate::text::string_of(&v, start, end);
            let ghost l = line@;
            proof {
                if first_index(rest, '\n') >= 0 {
                    assert(l =~= rest.take(end - start));
                    assert(rest.skip(end - start) =~= v@.skip(end as int));
                    assert(text_lines(rest) == seq![l] + text_lines(v@.skip(end as int)));
                } else {
                    assert(l =~= rest);
                    assert(v@.skip(end as int) =~= Seq::<char>::empty());
                    assert(text_lines(v@.skip(end as int)) == Seq::<Seq<char>>::empty());
                    assert(text_lines(rest) == seq![l]);
                    assert(seq![l] + text_lines(v@.skip(end as int)) =~= seq![l]);
                }
                assert(done + (seq![l] + text_lines(v@.skip(end as int))) =~= done.push(l)
                    + text_lines(v@.skip(end as int)));
                assert(done.push(l).drop_last() == done);
            }
            n = n + 1;
            self.add_line(line.as_str(), file_path, n);
            proof {
                done = done.push(l);
            }
            start = end;
        }
        assert(v@.skip(v@.len() as int) =~= Seq::<char>::empty());
        assert(done + Seq::<Seq<char>>::empty() =~= done);
    }

    /// The extraction result: the references, and the lint violations each
    /// once in report order.
    pub fn finish(self) -> (r: ExtractionResult)
        ensures
            ref_views(r.references@) == self.references_view(),
            violations_in_report_order(self.violations_view(), violation_views(r.lint_violations@)),
    {
        let ghost input = self.lint_violations@;
        let out = sort_unique_by_key(self.lint_violations);
        proof {
            let vi = violation_views(input);
            let vo = violation_views(out@);
            assert forall|x: ViolationView| vo.contains(x) <==> vi.contains(x) by {
                if vo.contains(x) {
                    let k = choose|k: int| 0 <= k < vo.len() && vo[k] == x;
                    assert(first_of_key(input, 0, out@[k]));
                    let j = choose|j: int|
                        0 <= j < input.len() && #[trigger] input[j] == out@[k] && forall|i: int|
                            0 <= i < j ==> (#[trigger] input[i]).key() != out@[k].key();
                    assert(vi[j] == x);
                }
                if vi.contains(x) {
                    let j = choose|j: int| 0 <= j < vi.len() && vi[j] == x;
                    assert(has_key(out@, input[j].key()));
                    let k = choose|k: int| 0 <= k < out@.len() && (#[trigger] out@[k]).key() == input[j].key();
                    assert(vo[k] == x);
                }
            }
            assert forall|k: int, l: int|
                0 <= k < l < vo.len() implies key_lt(violation_key(vo[k]), violation_key(vo[l])) by {
                assert(key_lt(out@[k].key(), out@[l].key()));
            }
        }
        ExtractionResult { references: self.references, lint_violations: out }
    }
}

/// Why a `TodoExtractor` could not be built.
#[derive(Debug)]
pub enum ExtractorError {
    /// The exclude-file pattern is not a valid regular expression.
    InvalidExcludeRegex { pattern: String, message: String },
}

/// The outcome of compiling `pattern` with `regex::Regex::new` and testing the
/// compiled expression against `haystack` with `Regex::is_match`: whether it
/// matches somewhere in `haystack`, or the message of the compile error.
pub uninterp spec fn regex_search(pattern: Seq<char>, haystack: Seq<char>) -> Result<bool, Seq<char>>;

/// `regex::Regex::new(pattern)` followed by `is_match(haystack)`; its contract
/// claims only that the outcome is `regex_search` of the two strings.
#[verifier::external_body]
pub(crate) fn regex_search_exec(pattern: &str, haystack: &str) -> (r: Result<bool, String>)
    ensures
        match r {
            Ok(b) => regex_search(pattern@, haystack@) == Ok::<bool, Seq<char>>(b),
            Err(m) => regex_search(pattern@, haystack@) == Err::<bool, Seq<char>>(m@),
        },
{
    match regex::Regex::new(pattern) {
        Ok(re) => Ok(re.is_match(haystack)),
        Err(e) => Err(e.to_string()),
    }
}

/// Reads TODO comments; files whose path relative to the scanned directory
/// matches the exclude pattern are skipped.
pub struct TodoExtractor {
    exclude_file_regex: Option<String>,
}

impl TodoExtractor {
    /// The exclude pattern, if any.
    pub closed spec fn exclude_pattern(&self) -> Option<Seq<char>> {
        opt_view(self.exclude_file_regex)
    }

    /// An extractor that excludes no file.
    pub fn new() -> (r: Self)
        ensures
            r.exclude_pattern() is None,
    {
        TodoExtractor { exclude_file_regex: None }
    }

    /// An extractor that skips files matching `exclude_file_regex`; a blank
    /// pattern excludes nothing.
    pub fn with_exclude_file_regex(exclude_file_regex: &str) -> (r: Result<Self, ExtractorError>)
        ensures
            trim(exclude_file_regex@).len() == 0 ==> (r matches Ok(e) && e.exclude_pattern() is None),
            trim(exclude_file_regex@).len() > 0 ==> match r {
                Ok(e) => regex_search(exclude_file_regex@, Seq::<char>::empty()) is Ok
                    && e.exclude_pattern() == Some(exclude_file_regex@),
                Err(ExtractorError::InvalidExcludeRegex { pattern, message }) => pattern@
                    == exclude_file_regex@ && regex_search(
                    exclude_file_regex@,
                    Seq::<char>::empty(),
                ) == Err::<bool, Seq<char>>(message@),
            },
    {
        let v = chars_of(exclude_file_regex);
        let (a, b) = trim_bounds(&v, 0, v.len());
        assert(v@.subrange(0, v@.len() as int) == v@);
        if a == b {
            return Ok(TodoExtractor { exclude_file_regex: None });
        }
        let empty = String::new();
        match regex_search_exec(exclude_file_regex, empty.as_str()) {
            Ok(_) => Ok(TodoExtractor { exclude_file_regex: Some(string_from(exclude_file_regex)) }),
            Err(message) => Err(
                ExtractorError::InvalidExcludeRegex {
                    pattern: string_from(exclude_file_regex),
                    message,
                },
            ),
        }
    }

    /// Whether the file at `relative_path` is skipped.
    pub fn is_excluded(&self, relative_path: &str) -> (r: bool)
        ensures
            r == match self.exclude_pattern() {
                None => false,
                Some(p) => regex_search(p, relative_path@) == Ok::<bool, Seq<char>>(true),
            },
    {
        match &self.exclude_file_regex {
            None => false,
            Some(p) => match regex_search_exec(p.as_str(), relative_path) {
                Ok(b) => b,
                Err(_) => false,
            },
        }
    }

    /// The reference `token` denotes on `line`, if any.
    pub fn extract_token_reference(
        &self,
        token: &str,
        line: &str,
        file_path: &str,
        line_number: u64,
    ) -> (r: Option<TodoReference>)
        ensures
            match r {
                Some(x) => parse_token(trim(token@)) matches Some((kind, rec)) && x@ == (ReferenceView {
                    kind,
                    source_line: trim(line@),
                    file_path: file_path@,
                    line_number,
                    original_reference: trim(token@),
                    recommended_format: rec,
                }),
                None => parse_token(trim(token@)) is None,
            },
    {
        let v = chars_of(token);
        let (a, b) = trim_bounds(&v, 0, v.len());
        assert(v@.subrange(0, v@.len() as int) == v@);
        let t = slice_chars(&v, a, b);
        match parse_token_exec(&t) {
            Some((kind, rec)) => {
                let original = string_of(&v, a, b);
                Some(TodoReference::new(kind, line, file_path, line_number, original.as_str(), rec))
            },
            None => None,
        }
    }
}

impl Default for TodoExtractor {
    /// An extractor that excludes no file.
    fn default() -> (r: Self)
        ensures
            r.exclude_pattern() is None,
    {
        TodoExtractor::new()
    }
}

impl ExtractorError {
    /// The message shown for the error.
    pub fn message(&self) -> (s: String)
        ensures
            match self {
                ExtractorError::InvalidExcludeRegex { pattern, message } => s@
                    == "Invalid --exclude-file-regex value '"@ + pattern@ + "': "@ + message@,
            },
    {
        match self {
            ExtractorError::InvalidExcludeRegex { pattern, message } => {
                let mut s = string_from("Invalid --exclude-file-regex value '");
                crate::text::push_str_chars(&mut s, pattern.as_str());
                crate::text::push_str_chars(&mut s, "': ");
                crate::text::push_str_chars(&mut s, message.as_str());
                s
            },
        }
    }
}

} // verus!
