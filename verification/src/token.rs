//! The grammar of a single reference token, such as `#12`,
//! `group/project!3` or `https://github.com/owner/repo/issues/7`.
use vstd::prelude::*;

use crate::text::{chars_of, decimal, push_decimal, push_range, push_str_chars, string_of};
use crate::todo::{KindView, TodoReferenceKind};

verus! {

pub open spec fn is_ascii_digit(c: char) -> bool {
    48 <= (c as u32) <= 57
}

pub open spec fn all_ascii_digits(s: Seq<char>) -> bool {
    forall|i: int| 0 <= i < s.len() ==> is_ascii_digit(#[trigger] s[i])
}

/// The value of a run of ASCII digits, read in base ten.
pub open spec fn digits_value(s: Seq<char>) -> nat
    decreases s.len(),
{
    if s.len() == 0 {
        0
    } else {
        digits_value(s.drop_last()) * 10 + ((s.last() as u32) - 48) as nat
    }
}

/// What `str::parse::<u32>` gives for a token of the number position:
/// a non-empty run of ASCII digits whose value fits in a `u32`.
pub open spec fn number_of(s: Seq<char>) -> Option<u32> {
    if s.len() > 0 && all_ascii_digits(s) && digits_value(s) <= u32::MAX {
        Some(digits_value(s) as u32)
    } else {
        None
    }
}

pub open spec fn has_prefix(s: Seq<char>, p: Seq<char>) -> bool {
    p.len() <= s.len() && s.take(p.len() as int) == p
}

pub open spec fn has_suffix(s: Seq<char>, p: Seq<char>) -> bool {
    p.len() <= s.len() && s.skip(s.len() - p.len()) == p
}

/// The index of the last `c` in `s`, or -1.
pub open spec fn last_index(s: Seq<char>, c: char) -> int
    decreases s.len(),
{
    if s.len() == 0 {
        -1
    } else if s.last() == c {
        s.len() - 1
    } else {
        last_index(s.drop_last(), c)
    }
}

/// One or more non-empty segments joined by `/`, as `[^/]+(?:/[^/]+)*` matches.
pub open spec fn segment_path(p: Seq<char>) -> bool {
    &&& p.len() > 0
    &&& p[0] != '/'
    &&& p.last() != '/'
    &&& forall|i: int| 0 <= i < p.len() - 1 ==> !(#[trigger] p[i] == '/' && p[i + 1] == '/')
}

pub open spec fn rendered_char(c: char) -> bool {
    let u = c as u32;
    ||| 48 <= u <= 57
    ||| 65 <= u <= 90
    ||| 97 <= u <= 122
    ||| c == '_'
    ||| c == '-'
    ||| c == '/'
}

/// Two or more segments of `[a-zA-Z0-9_-]` joined by `/`, as
/// `[a-zA-Z0-9_-]+(?:/[a-zA-Z0-9_-]+)+` matches.
pub open spec fn rendered_path(p: Seq<char>) -> bool {
    &&& segment_path(p)
    &&& last_index(p, '/') >= 0
    &&& forall|i: int| 0 <= i < p.len() ==> rendered_char(#[trigger] p[i])
}

/// Exactly two non-empty segments joined by `/`, as `[^/]+/[^/]+` matches.
pub open spec fn repo_path(p: Seq<char>) -> bool {
    let i = last_index(p, '/');
    &&& 0 < i < p.len() - 1
    &&& last_index(p.take(i), '/') < 0
}

/// The token without a leading `https://` or `http://`.
pub open spec fn strip_schema(t: Seq<char>) -> Seq<char> {
    if has_prefix(t, "https://"@) {
        t.skip("https://"@.len() as int)
    } else if has_prefix(t, "http://"@) {
        t.skip("http://"@.len() as int)
    } else {
        t
    }
}

/// `body` read as `head` + `/` + number, where `head` ends with `marker`;
/// gives the part of `head` before `marker`, and the number.
pub open spec fn split_number_tail(body: Seq<char>, marker: Seq<char>) -> Option<(Seq<char>, u32)> {
    let i = last_index(body, '/');
    let head = body.take(i);
    if i >= 0 && has_suffix(head, marker) && number_of(body.skip(i + 1)) is Some {
        Some((head.take(head.len() - marker.len()), number_of(body.skip(i + 1))->0))
    } else {
        None
    }
}

/// `body` read as path + `sep` + number, split at the last `sep`.
pub open spec fn split_at_sigil(body: Seq<char>, sep: char) -> Option<(Seq<char>, u32)> {
    let h = last_index(body, sep);
    if h >= 0 && number_of(body.skip(h + 1)) is Some {
        Some((body.take(h), number_of(body.skip(h + 1))->0))
    } else {
        None
    }
}

/// A sigil followed by a number: `#12`, `!12`, `&12`.
pub open spec fn local_number(t: Seq<char>, sigil: char) -> Option<u32> {
    if t.len() > 0 && t[0] == sigil {
        number_of(t.skip(1))
    } else {
        None
    }
}

/// `[schema]gitlab.com/` + `prefix` + path + `marker` + `/` + number, with a path of
/// non-empty segments.
pub open spec fn gitlab_url(t: Seq<char>, prefix: Seq<char>, marker: Seq<char>) -> Option<(Seq<char>, u32)> {
    let b = strip_schema(t);
    let lead = "gitlab.com/"@ + prefix;
    if has_prefix(b, lead) {
        match split_number_tail(b.skip(lead.len() as int), marker) {
            Some((path, n)) => if segment_path(path) {
                Some((path, n))
            } else {
                None
            },
            None => None,
        }
    } else {
        None
    }
}

/// `[schema]github.com/owner/repo` + `marker` + `/` + number.
pub open spec fn github_url(t: Seq<char>, marker: Seq<char>) -> Option<(Seq<char>, u32)> {
    let b = strip_schema(t);
    if has_prefix(b, "github.com/"@) {
        match split_number_tail(b.skip("github.com/"@.len() as int), marker) {
            Some((repo, n)) => if repo_path(repo) {
                Some((repo, n))
            } else {
                None
            },
            None => None,
        }
    } else {
        None
    }
}

/// `group/.../project` + `sigil` + number, with `[a-zA-Z0-9_-]` segments.
pub open spec fn rendered(t: Seq<char>, sigil: char) -> Option<(Seq<char>, u32)> {
    match split_at_sigil(t, sigil) {
        Some((path, n)) => if rendered_path(path) {
            Some((path, n))
        } else {
            None
        },
        None => None,
    }
}

/// `github.com/owner/repo#number`.
pub open spec fn github_shorthand(t: Seq<char>) -> Option<(Seq<char>, u32)> {
    if has_prefix(t, "github.com/"@) {
        match split_at_sigil(t.skip("github.com/"@.len() as int), '#') {
            Some((repo, n)) => if repo_path(repo) {
                Some((repo, n))
            } else {
                None
            },
            None => None,
        }
    } else {
        None
    }
}

pub open spec fn with_number(path: Seq<char>, sigil: char, n: u32) -> Seq<char> {
    path.push(sigil) + decimal(n as nat)
}

/// The reference a token denotes, with the shorter form suggested for
/// URL-form tokens. The forms are tried in a fixed order and the first
/// that accepts the token wins.
pub open spec fn parse_token(t: Seq<char>) -> Option<(KindView, Option<Seq<char>>)> {
    if let Some(n) = local_number(t, '#') {
        Some((KindView::GitLabIssue { project: None, number: n }, None))
    } else if let Some((p, n)) = gitlab_url(t, seq![], "/-/issues"@) {
        Some((KindView::GitLabIssue { project: Some(p), number: n }, Some(with_number(p, '#', n))))
    } else if let Some((p, n)) = gitlab_url(t, seq![], "/-/work_items"@) {
        Some((KindView::GitLabIssue { project: Some(p), number: n }, Some(with_number(p, '#', n))))
    } else if let Some((r, n)) = github_url(t, "/issues"@) {
        Some(
            (
                KindView::GitHubIssueOrPr { repo: Some(r), number: n },
                Some(with_number("github.com/"@ + r, '#', n)),
            ),
        )
    } else if let Some((r, n)) = github_shorthand(t) {
        Some((KindView::GitHubIssueOrPr { repo: Some(r), number: n }, None))
    } else if let Some((p, n)) = rendered(t, '#') {
        Some((KindView::GitLabIssue { project: Some(p), number: n }, None))
    } else if let Some(n) = local_number(t, '!') {
        Some((KindView::GitLabMr { project: None, number: n }, None))
    } else if let Some((p, n)) = gitlab_url(t, seq![], "/-/merge_requests"@) {
        Some((KindView::GitLabMr { project: Some(p), number: n }, Some(with_number(p, '!', n))))
    } else if let Some((p, n)) = rendered(t, '!') {
        Some((KindView::GitLabMr { project: Some(p), number: n }, None))
    } else if let Some((r, n)) = github_url(t, "/pull"@) {
        Some(
            (
                KindView::GitHubPr { repo: r, number: n },
                Some(with_number("github.com/"@ + r, '#', n)),
            ),
        )
    } else if let Some(n) = local_number(t, '&') {
        Some((KindView::GitLabEpic { group: None, number: n }, None))
    } else if let Some((g, n)) = gitlab_url(t, "groups/"@, "/-/epics"@) {
        Some((KindView::GitLabEpic { group: Some(g), number: n }, Some(with_number(g, '&', n))))
    } else if let Some((g, n)) = rendered(t, '&') {
        Some((KindView::GitLabEpic { group: Some(g), number: n }, None))
    } else {
        None
    }
}

} // verus!

verus! {

pub proof fn lemma_last_index_bounds(s: Seq<char>, c: char)
    ensures
        -1 <= last_index(s, c) < s.len(),
        last_index(s, c) >= 0 ==> s[last_index(s, c)] == c,
        forall|j: int| last_index(s, c) < j < s.len() ==> s[j] != c,
    decreases s.len(),
{
    if s.len() > 0 && s.last() != c {
        lemma_last_index_bounds(s.drop_last(), c);
        assert forall|j: int| last_index(s, c) < j < s.len() implies s[j] != c by {
            if j < s.len() - 1 {
                assert(s.drop_last()[j] == s[j]);
            }
        }
    }
}

pub proof fn lemma_last_index_is(s: Seq<char>, c: char, k: int)
    requires
        -1 <= k < s.len(),
        k >= 0 ==> s[k] == c,
        forall|j: int| k < j < s.len() ==> s[j] != c,
    ensures
        last_index(s, c) == k,
    decreases s.len(),
{
    if s.len() > 0 && s.last() != c {
        lemma_last_index_is(s.drop_last(), c, k);
    }
}

/// `v[lo..hi]` as a vector of its own.
pub fn slice_chars(v: &Vec<char>, lo: usize, hi: usize) -> (r: Vec<char>)
    requires
        lo <= hi <= v@.len(),
    ensures
        r@ == v@.subrange(lo as int, hi as int),
{
    let mut r: Vec<char> = Vec::new();
    let mut i: usize = lo;
    while i < hi
        invariant
            lo <= i <= hi <= v@.len(),
            r@ == v@.subrange(lo as int, i as int),
        decreases hi - i,
    {
        r.push(v[i]);
        assert(v@.subrange(lo as int, i + 1) == v@.subrange(lo as int, i as int).push(v@[i as int]));
        i = i + 1;
    }
    r
}

/// Whether `p` occurs in `v` at `at`.
pub fn occurs_at(v: &Vec<char>, at: usize, p: &Vec<char>) -> (r: bool)
    requires
        at <= v@.len(),
    ensures
        r == has_prefix(v@.skip(at as int), p@),
{
    if p.len() > v.len() - at {
        return false;
    }
    let mut i: usize = 0;
    while i < p.len()
        invariant
            at + p@.len() <= v@.len(),
            v@.len() == v.len(),
            p@.len() == p.len(),
            0 <= i <= p@.len(),
            forall|j: int| 0 <= j < i ==> v@[at + j] == p@[j],
        decreases p.len() - i,
    {
        if v[at + i] != p[i] {
            assert(v@.skip(at as int).take(p@.len() as int)[i as int] != p@[i as int]);
            return false;
        }
        i = i + 1;
    }
    assert(v@.skip(at as int).take(p@.len() as int) =~= p@);
    true
}

pub fn starts_with(v: &Vec<char>, p: &Vec<char>) -> (r: bool)
    ensures
        r == has_prefix(v@, p@),
{
    let r = occurs_at(v, 0, p);
    assert(v@.skip(0) == v@);
    r
}

pub fn ends_with(v: &Vec<char>, p: &Vec<char>) -> (r: bool)
    ensures
        r == has_suffix(v@, p@),
{
    if p.len() > v.len() {
        return false;
    }
    let r = occurs_at(v, v.len() - p.len(), p);
    assert(v@.skip(v@.len() - p@.len()).take(p@.len() as int) == v@.skip(v@.len() - p@.len()));
    r
}

/// The position of the last `c` in `v`.
pub fn last_index_of(v: &Vec<char>, c: char) -> (r: Option<usize>)
    ensures
        match r {
            Some(i) => i as int == last_index(v@, c) && i < v.len(),
            None => last_index(v@, c) == -1,
        },
{
    let mut i: usize = v.len();
    while i > 0 && v[i - 1] != c
        invariant
            i <= v@.len(),
            forall|j: int| i <= j < v@.len() ==> v@[j] != c,
        decreases i,
    {
        i = i - 1;
    }
    if i == 0 {
        proof {
            lemma_last_index_is(v@, c, -1);
        }
        None
    } else {
        proof {
            lemma_last_index_is(v@, c, i - 1);
        }
        Some(i - 1)
    }
}

proof fn lemma_digits_value_grows(s: Seq<char>, k: int)
    requires
        0 <= k <= s.len(),
        all_ascii_digits(s),
    ensures
        digits_value(s) >= digits_value(s.take(k)),
    decreases s.len() - k,
{
    if k < s.len() {
        assert(s.take(k + 1).drop_last() == s.take(k));
        lemma_digits_value_grows(s, k + 1);
    } else {
        assert(s.take(k) == s);
    }
}

/// Reads a token of the number position, as `str::parse::<u32>` does for
/// ASCII digits.
pub fn number_from(v: &Vec<char>) -> (r: Option<u32>)
    ensures
        r == number_of(v@),
{
    if v.len() == 0 {
        return None;
    }
    let mut acc: u64 = 0;
    let mut i: usize = 0;
    while i < v.len()
        invariant
            0 <= i <= v@.len(),
            all_ascii_digits(v@.take(i as int)),
            acc as nat == digits_value(v@.take(i as int)),
            acc <= u32::MAX,
        decreases v.len() - i,
    {
        let u = v[i] as u32;
        if u < 48 || u > 57 {
            assert(!is_ascii_digit(v@[i as int]));
            return None;
        }
        assert(v@.take(i + 1).drop_last() == v@.take(i as int));
        assert(all_ascii_digits(v@.take(i + 1))) by {
            assert forall|j: int| 0 <= j < i + 1 implies is_ascii_digit(#[trigger] v@.take(i + 1)[j]) by {
                if j < i {
                    assert(v@.take(i + 1)[j] == v@.take(i as int)[j]);
                }
            }
        }
        acc = acc * 10 + (u - 48) as u64;
        i = i + 1;
        if acc > 0xFFFF_FFFF {
            proof {
                assert(v@.take(v@.len() as int) == v@);
                if all_ascii_digits(v@) {
                    lemma_digits_value_grows(v@, i as int);
                }
            }
            return None;
        }
    }
    assert(v@.take(v@.len() as int) == v@);
    Some(acc as u32)
}

pub fn is_segment_path(p: &Vec<char>) -> (r: bool)
    ensures
        r == segment_path(p@),
{
    if p.len() == 0 || p[0] == '/' || p[p.len() - 1] == '/' {
        return false;
    }
    let mut i: usize = 0;
    while i + 1 < p.len()
        invariant
            p@.len() > 0,
            0 <= i <= p@.len() - 1,
            forall|j: int| 0 <= j < i ==> !(#[trigger] p@[j] == '/' && p@[j + 1] == '/'),
        decreases p.len() - i,
    {
        if p[i] == '/' && p[i + 1] == '/' {
            return false;
        }
        i = i + 1;
    }
    true
}

fn is_rendered_char(c: char) -> (r: bool)
    ensures
        r == rendered_char(c),
{
    let u = c as u32;
    (48 <= u && u <= 57) || (65 <= u && u <= 90) || (97 <= u && u <= 122) || c == '_' || c == '-'
        || c == '/'
}

pub fn is_rendered_path(p: &Vec<char>) -> (r: bool)
    ensures
        r == rendered_path(p@),
{
    if !is_segment_path(p) {
        return false;
    }
    if last_index_of(p, '/').is_none() {
        return false;
    }
    let mut i: usize = 0;
    while i < p.len()
        invariant
            0 <= i <= p@.len(),
            forall|j: int| 0 <= j < i ==> rendered_char(#[trigger] p@[j]),
        decreases p.len() - i,
    {
        if !is_rendered_char(p[i]) {
            return false;
        }
        i = i + 1;
    }
    true
}

pub fn is_repo_path(p: &Vec<char>) -> (r: bool)
    ensures
        r == repo_path(p@),
{
    match last_index_of(p, '/') {
        None => false,
        Some(i) => {
            if i == 0 || i >= p.len() - 1 {
                return false;
            }
            let head = slice_chars(p, 0, i);
            assert(head@ == p@.take(i as int));
            last_index_of(&head, '/').is_none()
        },
    }
}

} // verus!

verus! {

pub open spec fn pair_view(r: Option<(Vec<char>, u32)>) -> Option<(Seq<char>, u32)> {
    match r {
        Some((p, n)) => Some((p@, n)),
        None => None,
    }
}

fn strip_schema_exec(t: &Vec<char>) -> (r: Vec<char>)
    ensures
        r@ == strip_schema(t@),
{
    let https = chars_of("https://");
    let http = chars_of("http://");
    if starts_with(t, &https) {
        let r = slice_chars(t, https.len(), t.len());
        assert(r@ == t@.skip(https@.len() as int));
        r
    } else if starts_with(t, &http) {
        let r = slice_chars(t, http.len(), t.len());
        assert(r@ == t@.skip(http@.len() as int));
        r
    } else {
        slice_chars(t, 0, t.len())
    }
}

fn split_number_tail_exec(body: &Vec<char>, marker: &Vec<char>) -> (r: Option<(Vec<char>, u32)>)
    ensures
        pair_view(r) == split_number_tail(body@, marker@),
{
    match last_index_of(body, '/') {
        None => None,
        Some(i) => {
            let head = slice_chars(body, 0, i);
            assert(head@ == body@.take(i as int));
            if !ends_with(&head, marker) {
                return None;
            }
            let tail = slice_chars(body, i + 1, body.len());
            assert(tail@ == body@.skip(i + 1));
            match number_from(&tail) {
                None => None,
                Some(n) => {
                    let path = slice_chars(&head, 0, head.len() - marker.len());
                    assert(path@ == head@.take(head@.len() - marker@.len()));
                    Some((path, n))
                },
            }
        },
    }
}

fn split_at_sigil_exec(body: &Vec<char>, sep: char) -> (r: Option<(Vec<char>, u32)>)
    ensures
        pair_view(r) == split_at_sigil(body@, sep),
{
    match last_index_of(body, sep) {
        None => None,
        Some(h) => {
            let tail = slice_chars(body, h + 1, body.len());
            assert(tail@ == body@.skip(h + 1));
            match number_from(&tail) {
                None => None,
                Some(n) => {
                    let path = slice_chars(body, 0, h);
                    assert(path@ == body@.take(h as int));
                    Some((path, n))
                },
            }
        },
    }
}

fn local_number_exec(t: &Vec<char>, sigil: char) -> (r: Option<u32>)
    ensures
        r == local_number(t@, sigil),
{
    if t.len() > 0 && t[0] == sigil {
        let rest = slice_chars(t, 1, t.len());
        assert(rest@ == t@.skip(1));
        number_from(&rest)
    } else {
        None
    }
}

fn concat_chars(a: &Vec<char>, b: &Vec<char>) -> (r: Vec<char>)
    ensures
        r@ == a@ + b@,
{
    let mut r = slice_chars(a, 0, a.len());
    assert(r@ == a@);
    let mut i: usize = 0;
    while i < b.len()
        invariant
            0 <= i <= b@.len(),
            r@ == a@ + b@.take(i as int),
        decreases b.len() - i,
    {
        r.push(b[i]);
        assert(b@.take(i + 1) == b@.take(i as int).push(b@[i as int]));
        i = i + 1;
    }
    assert(b@.take(b@.len() as int) == b@);
    r
}

fn gitlab_url_exec(t: &Vec<char>, prefix: &Vec<char>, marker: &Vec<char>) -> (r: Option<(Vec<char>, u32)>)
    ensures
        pair_view(r) == gitlab_url(t@, prefix@, marker@),
{
    let b = strip_schema_exec(t);
    let host = chars_of("gitlab.com/");
    let lead = concat_chars(&host, prefix);
    if !starts_with(&b, &lead) {
        return None;
    }
    let body = slice_chars(&b, lead.len(), b.len());
    assert(body@ == b@.skip(lead@.len() as int));
    match split_number_tail_exec(&body, marker) {
        Some((path, n)) => {
            if is_segment_path(&path) {
                Some((path, n))
            } else {
                None
            }
        },
        None => None,
    }
}

fn github_url_exec(t: &Vec<char>, marker: &Vec<char>) -> (r: Option<(Vec<char>, u32)>)
    ensures
        pair_view(r) == github_url(t@, marker@),
{
    let b = strip_schema_exec(t);
    let host = chars_of("github.com/");
    if !starts_with(&b, &host) {
        return None;
    }
    let body = slice_chars(&b, host.len(), b.len());
    assert(body@ == b@.skip(host@.len() as int));
    match split_number_tail_exec(&body, marker) {
        Some((repo, n)) => {
            if is_repo_path(&repo) {
                Some((repo, n))
            } else {
                None
            }
        },
        None => None,
    }
}

fn rendered_exec(t: &Vec<char>, sigil: char) -> (r: Option<(Vec<char>, u32)>)
    ensures
        pair_view(r) == rendered(t@, sigil),
{
    match split_at_sigil_exec(t, sigil) {
        Some((path, n)) => {
            if is_rendered_path(&path) {
                Some((path, n))
            } else {
                None
            }
        },
        None => None,
    }
}

fn github_shorthand_exec(t: &Vec<char>) -> (r: Option<(Vec<char>, u32)>)
    ensures
        pair_view(r) == github_shorthand(t@),
{
    let host = chars_of("github.com/");
    if !starts_with(t, &host) {
        return None;
    }
    let body = slice_chars(t, host.len(), t.len());
    assert(body@ == t@.skip(host@.len() as int));
    match split_at_sigil_exec(&body, '#') {
        Some((repo, n)) => {
            if is_repo_path(&repo) {
                Some((repo, n))
            } else {
                None
            }
        },
        None => None,
    }
}

fn path_string(p: &Vec<char>) -> (s: String)
    ensures
        s@ == p@,
{
    let s = string_of(p, 0, p.len());
    assert(p@.subrange(0, p@.len() as int) == p@);
    s
}

/// `path` followed by `sigil` and the number.
fn numbered(path: &Vec<char>, sigil: char, n: u32) -> (s: String)
    ensures
        s@ == with_number(path@, sigil, n),
{
    let mut s = path_string(path);
    s.push(sigil);
    push_decimal(&mut s, n as u64);
    s
}

/// The reference a trimmed token denotes, and the shorter form suggested
/// for it when it is written as a URL.
pub fn parse_token_exec(t: &Vec<char>) -> (r: Option<(TodoReferenceKind, Option<String>)>)
    ensures
        match r {
            Some((k, rec)) => parse_token(t@) == Some((k@, crate::todo::opt_view(rec))),
            None => parse_token(t@) is None,
        },
{
    let empty: Vec<char> = Vec::new();
    assert(empty@ == Seq::<char>::empty());
    if let Some(n) = local_number_exec(t, '#') {
        return Some((TodoReferenceKind::GitLabIssue { project: None, number: n }, None));
    }
    let issues = chars_of("/-/issues");
    if let Some((p, n)) = gitlab_url_exec(t, &empty, &issues) {
        let rec = numbered(&p, '#', n);
        return Some(
            (TodoReferenceKind::GitLabIssue { project: Some(path_string(&p)), number: n }, Some(rec)),
        );
    }
    let work_items = chars_of("/-/work_items");
    if let Some((p, n)) = gitlab_url_exec(t, &empty, &work_items) {
        let rec = numbered(&p, '#', n);
        return Some(
            (TodoReferenceKind::GitLabIssue { project: Some(path_string(&p)), number: n }, Some(rec)),
        );
    }
    let gh_issues = chars_of("/issues");
    if let Some((r, n)) = github_url_exec(t, &gh_issues) {
        let host = chars_of("github.com/");
        let full = concat_chars(&host, &r);
        let rec = numbered(&full, '#', n);
        return Some(
            (TodoReferenceKind::GitHubIssueOrPr { repo: Some(path_string(&r)), number: n }, Some(rec)),
        );
    }
    if let Some((r, n)) = github_shorthand_exec(t) {
        return Some(
            (TodoReferenceKind::GitHubIssueOrPr { repo: Some(path_string(&r)), number: n }, None),
        );
    }
    if let Some((p, n)) = rendered_exec(t, '#') {
        return Some(
            (TodoReferenceKind::GitLabIssue { project: Some(path_string(&p)), number: n }, None),
        );
    }
    if let Some(n) = local_number_exec(t, '!') {
        return Some((TodoReferenceKind::GitLabMr { project: None, number: n }, None));
    }
    let mrs = chars_of("/-/merge_requests");
    if let Some((p, n)) = gitlab_url_exec(t, &empty, &mrs) {
        let rec = numbered(&p, '!', n);
        return Some(
            (TodoReferenceKind::GitLabMr { project: Some(path_string(&p)), number: n }, Some(rec)),
        );
    }
    if let Some((p, n)) = rendered_exec(t, '!') {
        return Some((TodoReferenceKind::GitLabMr { project: Some(path_string(&p)), number: n }, None));
    }
    let pull = chars_of("/pull");
    if let Some((r, n)) = github_url_exec(t, &pull) {
        let host = chars_of("github.com/");
        let full = concat_chars(&host, &r);
        let rec = numbered(&full, '#', n);
        return Some((TodoReferenceKind::GitHubPr { repo: path_string(&r), number: n }, Some(rec)));
    }
    if let Some(n) = local_number_exec(t, '&') {
        return Some((TodoReferenceKind::GitLabEpic { group: None, number: n }, None));
    }
    let groups = chars_of("groups/");
    let epics = chars_of("/-/epics");
    if let Some((g, n)) = gitlab_url_exec(t, &groups, &epics) {
        let rec = numbered(&g, '&', n);
        return Some(
            (TodoReferenceKind::GitLabEpic { group: Some(path_string(&g)), number: n }, Some(rec)),
        );
    }
    if let Some((g, n)) = rendered_exec(t, '&') {
        return Some((TodoReferenceKind::GitLabEpic { group: Some(path_string(&g)), number: n }, None));
    }
    None
}

} // verus!
