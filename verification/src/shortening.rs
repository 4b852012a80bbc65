//! Why the shorter forms suggested for URL-form references are good ones:
//! each is itself an accepted reference, in short form, to the same issue,
//! merge request or epic.
use vstd::prelude::*;

use crate::text::{decimal, digit_char};
use crate::checker::{is_gitlab_project, is_in_gitlab_group, parent_path, ProjectView};
use crate::todo::{display_of, suggestion_of, KindView, ReferenceView};
use crate::token::{
    all_ascii_digits, digits_value, github_shorthand, github_url, gitlab_url, has_prefix,
    has_suffix, is_ascii_digit, last_index, lemma_last_index_bounds, lemma_last_index_is,
    local_number, number_of, parse_token, rendered, rendered_char, rendered_path, repo_path,
    split_at_sigil, split_number_tail, strip_schema, with_number,
};

verus! {

/// The decimal spelling of a number is a non-empty run of ASCII digits that
/// reads back as the number.
pub proof fn lemma_decimal_reads_back(n: nat)
    ensures
        decimal(n).len() > 0,
        all_ascii_digits(decimal(n)),
        digits_value(decimal(n)) == n,
    decreases n,
{
    if n >= 10 {
        lemma_decimal_reads_back(n / 10);
        let s = decimal(n / 10);
        assert(decimal(n).drop_last() == s);
        assert(is_ascii_digit(digit_char(n % 10)));
        assert((digit_char(n % 10) as u32) == n % 10 + 48);
        assert(decimal(n).last() == digit_char(n % 10));
        assert(digits_value(decimal(n)) == digits_value(s) * 10 + (n % 10));
        assert(n == (n / 10) * 10 + n % 10) by (nonlinear_arith);
        assert forall|i: int| 0 <= i < decimal(n).len() implies is_ascii_digit(
            #[trigger] decimal(n)[i],
        ) by {
            if i < s.len() {
                assert(decimal(n)[i] == s[i]);
            }
        }
    } else {
        assert(is_ascii_digit(digit_char(n)));
        assert((digit_char(n) as u32) == n + 48);
        assert(decimal(n).drop_last() == Seq::<char>::empty());
        assert(digits_value(Seq::<char>::empty()) == 0);
        assert(digits_value(decimal(n)) == n);
    }
}

/// Reading the decimal spelling of a `u32` gives it back.
pub proof fn lemma_number_of_decimal(n: u32)
    ensures
        number_of(decimal(n as nat)) == Some(n),
{
    lemma_decimal_reads_back(n as nat);
}

/// A character of a rendered path, a sigil, or a digit.
pub open spec fn plain_char(c: char) -> bool {
    rendered_char(c) || c == '#' || c == '!' || c == '&'
}

pub open spec fn all_plain(t: Seq<char>) -> bool {
    forall|i: int| 0 <= i < t.len() ==> plain_char(#[trigger] t[i])
}

/// A text of plain characters is no URL: it has no schema and starts with
/// neither host.
proof fn lemma_no_url_prefix(t: Seq<char>, x: Seq<char>)
    requires
        all_plain(t),
    ensures
        strip_schema(t) == t,
        !has_prefix(t, "gitlab.com/"@ + x),
        !has_prefix(t, "github.com/"@),
{
    reveal_strlit("https://");
    reveal_strlit("http://");
    reveal_strlit("gitlab.com/");
    reveal_strlit("github.com/");
    if has_prefix(t, "https://"@) {
        assert(t[5] == t.take(8)[5]);
        assert(!plain_char(t[5]));
    }
    if has_prefix(t, "http://"@) {
        assert(t[4] == t.take(7)[4]);
        assert(!plain_char(t[4]));
    }
    if has_prefix(t, "gitlab.com/"@ + x) {
        let lead = "gitlab.com/"@ + x;
        assert(lead[6] == '.');
        assert(t[6] == t.take(lead.len() as int)[6]);
        assert(!plain_char(t[6]));
    }
    if has_prefix(t, "github.com/"@) {
        assert(t[6] == t.take(11)[6]);
        assert(!plain_char(t[6]));
    }
}

/// The kind that a sigil gives a reference: `#` an issue, `!` a merge
/// request, `&` an epic.
pub open spec fn sigil_kind(s: char, path: Option<Seq<char>>, n: u32) -> KindView {
    if s == '#' {
        KindView::GitLabIssue { project: path, number: n }
    } else if s == '!' {
        KindView::GitLabMr { project: path, number: n }
    } else {
        KindView::GitLabEpic { group: path, number: n }
    }
}

pub open spec fn is_sigil(s: char) -> bool {
    s == '#' || s == '!' || s == '&'
}

/// The shape of `path` + sigil + number, for a path of rendered characters.
proof fn lemma_numbered_shape(p: Seq<char>, s: char, n: u32)
    requires
        forall|i: int| 0 <= i < p.len() ==> rendered_char(#[trigger] p[i]),
        is_sigil(s),
    ensures
        all_plain(with_number(p, s, n)),
        with_number(p, s, n)[0] == (if p.len() > 0 {
            p[0]
        } else {
            s
        }),
        split_at_sigil(with_number(p, s, n), s) == Some((p, n)),
        s != '#' ==> split_at_sigil(with_number(p, s, n), '#') is None,
        s != '!' ==> split_at_sigil(with_number(p, s, n), '!') is None,
        s != '&' ==> split_at_sigil(with_number(p, s, n), '&') is None,
        with_number(p, s, n).skip(p.len() as int + 1) == decimal(n as nat),
{
    let t = with_number(p, s, n);
    let d = decimal(n as nat);
    lemma_decimal_reads_back(n as nat);
    lemma_number_of_decimal(n);
    assert(t.len() == p.len() + 1 + d.len());
    assert forall|i: int| 0 <= i < t.len() implies plain_char(#[trigger] t[i]) by {
        if i < p.len() {
            assert(t[i] == p[i]);
        } else if i == p.len() {
            assert(t[i] == s);
        } else {
            assert(t[i] == d[i - p.len() - 1]);
            assert(is_ascii_digit(d[i - p.len() - 1]));
        }
    }
    if p.len() > 0 {
        assert(t[0] == p[0]);
    } else {
        assert(t[0] == s);
    }
    assert(t.skip(p.len() as int + 1) =~= d);
    assert(t.take(p.len() as int) =~= p);
    assert forall|j: int| p.len() < j < t.len() implies t[j] != s by {
        assert(t[j] == d[j - p.len() - 1]);
        assert(is_ascii_digit(d[j - p.len() - 1]));
    }
    assert(t[p.len() as int] == s);
    lemma_last_index_is(t, s, p.len() as int);
    assert forall|x: char| is_sigil(x) && x != s implies last_index(t, x) == -1 by {
        assert forall|j: int| -1 < j < t.len() implies t[j] != x by {
            if j < p.len() {
                assert(t[j] == p[j]);
                assert(rendered_char(p[j]));
            } else if j > p.len() {
                assert(t[j] == d[j - p.len() - 1]);
                assert(is_ascii_digit(d[j - p.len() - 1]));
            }
        }
        lemma_last_index_is(t, x, -1);
    }
    assert(is_sigil('#') && is_sigil('!') && is_sigil('&'));
}

/// `path` + sigil + number, for a path of two or more `[a-zA-Z0-9_-]`
/// segments, is read back as a reference to that path and number, with
/// nothing shorter to suggest.
pub proof fn lemma_rendered_reference_reads_back(p: Seq<char>, s: char, n: u32)
    requires
        rendered_path(p),
        is_sigil(s),
    ensures
        parse_token(with_number(p, s, n)) == Some((sigil_kind(s, Some(p), n), None::<Seq<char>>)),
{
    let t = with_number(p, s, n);
    lemma_numbered_shape(p, s, n);
    lemma_no_url_prefix(t, seq![]);
    lemma_no_url_prefix(t, "groups/"@);
    assert(t[0] == p[0]);
    assert(rendered_char(p[0]));
    assert(local_number(t, '#') is None);
    assert(local_number(t, '!') is None);
    assert(local_number(t, '&') is None);
    assert(gitlab_url(t, seq![], "/-/issues"@) is None);
    assert(gitlab_url(t, seq![], "/-/work_items"@) is None);
    assert(gitlab_url(t, seq![], "/-/merge_requests"@) is None);
    assert(gitlab_url(t, "groups/"@, "/-/epics"@) is None);
    assert(github_url(t, "/issues"@) is None);
    assert(github_url(t, "/pull"@) is None);
    assert(github_shorthand(t) is None);
    assert(rendered(t, s) == Some((p, n)));
}

/// A sigil followed by a number is read back as a local reference to that
/// number.
pub proof fn lemma_local_reference_reads_back(s: char, n: u32)
    requires
        is_sigil(s),
    ensures
        parse_token(with_number(seq![], s, n)) == Some(
            (sigil_kind(s, None, n), None::<Seq<char>>),
        ),
{
    let t = with_number(seq![], s, n);
    lemma_numbered_shape(seq![], s, n);
    lemma_no_url_prefix(t, seq![]);
    lemma_no_url_prefix(t, "groups/"@);
    lemma_number_of_decimal(n);
    assert(t.skip(1) == decimal(n as nat));
    assert(local_number(t, s) == Some(n));
    assert(gitlab_url(t, seq![], "/-/issues"@) is None);
    assert(gitlab_url(t, seq![], "/-/work_items"@) is None);
    assert(gitlab_url(t, seq![], "/-/merge_requests"@) is None);
    assert(gitlab_url(t, "groups/"@, "/-/epics"@) is None);
    assert(github_url(t, "/issues"@) is None);
    assert(github_url(t, "/pull"@) is None);
    assert(github_shorthand(t) is None);
    assert(s != '#' ==> rendered(t, '#') is None);
    assert(s != '!' ==> rendered(t, '!') is None);
}

/// `github.com/owner/repo#number` is read back as a reference to that
/// repository's issue or pull request, with nothing shorter to suggest.
pub proof fn lemma_github_reference_reads_back(r: Seq<char>, n: u32)
    requires
        repo_path(r),
    ensures
        parse_token(with_number("github.com/"@ + r, '#', n)) == Some(
            (KindView::GitHubIssueOrPr { repo: Some(r), number: n }, None::<Seq<char>>),
        ),
{
    reveal_strlit("github.com/");
    reveal_strlit("https://");
    reveal_strlit("http://");
    reveal_strlit("gitlab.com/");
    reveal_strlit("/issues");
    let g = "github.com/"@;
    let t = with_number(g + r, '#', n);
    let d = decimal(n as nat);
    lemma_decimal_reads_back(n as nat);
    lemma_number_of_decimal(n);
    assert(t =~= g + (r.push('#') + d));
    let body = r.push('#') + d;
    assert(t.take(11) =~= g);
    assert(t.skip(11) =~= body);
    assert(t[0] == 'g');
    assert(t[1] == 'i');
    assert(t[3] == 'h');
    assert(!has_prefix(t, "https://"@)) by {
        if has_prefix(t, "https://"@) {
            assert(t[1] == t.take(8)[1]);
        }
    }
    assert(!has_prefix(t, "http://"@)) by {
        if has_prefix(t, "http://"@) {
            assert(t[1] == t.take(7)[1]);
        }
    }
    assert(strip_schema(t) == t);
    assert forall|x: Seq<char>| !has_prefix(t, #[trigger] ("gitlab.com/"@ + x)) by {
        if has_prefix(t, "gitlab.com/"@ + x) {
            let lead = "gitlab.com/"@ + x;
            assert(lead[3] == 'l');
            assert(t[3] == t.take(lead.len() as int)[3]);
        }
    }
    assert(!has_prefix(t, "gitlab.com/"@ + seq![]));
    assert(!has_prefix(t, "gitlab.com/"@ + "groups/"@));
    assert(local_number(t, '#') is None);
    assert(local_number(t, '!') is None);
    assert(local_number(t, '&') is None);
    assert(gitlab_url(t, seq![], "/-/issues"@) is None);
    assert(gitlab_url(t, seq![], "/-/work_items"@) is None);
    // the URL form needs `/issues` before the number
    let k = last_index(r, '/');
    lemma_last_index_bounds(r, '/');
    assert forall|j: int| k < j < body.len() implies body[j] != '/' by {
        if j < r.len() {
            assert(body[j] == r[j]);
        } else if j == r.len() {
            assert(body[j] == '#');
        } else {
            assert(body[j] == d[j - r.len() - 1]);
            assert(is_ascii_digit(d[j - r.len() - 1]));
        }
    }
    assert(body[k] == r[k]);
    lemma_last_index_is(body, '/', k);
    let head = body.take(k);
    assert(head =~= r.take(k));
    assert(!has_suffix(head, "/issues"@)) by {
        if has_suffix(head, "/issues"@) {
            assert(head[head.len() - 7] == head.skip(head.len() - 7)[0]);
            lemma_last_index_bounds(r.take(k), '/');
            assert(r.take(k)[head.len() - 7] == '/');
        }
    }
    assert(split_number_tail(body, "/issues"@) is None);
    assert(github_url(t, "/issues"@) is None);
    // the shorthand form
    assert forall|j: int| r.len() < j < body.len() implies body[j] != '#' by {
        assert(body[j] == d[j - r.len() - 1]);
        assert(is_ascii_digit(d[j - r.len() - 1]));
    }
    assert(body[r.len() as int] == '#');
    lemma_last_index_is(body, '#', r.len() as int);
    assert(body.take(r.len() as int) =~= r);
    assert(body.skip(r.len() as int + 1) =~= d);
    assert(split_at_sigil(body, '#') == Some((r, n)));
    assert(github_shorthand(t) == Some((r, n)));
}

/// The item a kind denotes, with its missing repository, project or epic
/// group filled in from the detected project, the way the reference is
/// looked up when it is checked: a local issue or merge request is in the
/// detected project, a local epic in that project's group. GitHub numbers
/// issues and pull requests in one sequence per repository, so a pull
/// request is the issue-or-pull-request of its number.
pub open spec fn resolved_kind(k: KindView, d: ProjectView) -> KindView {
    match k {
        KindView::GitLabIssue { project: None, number } => match d {
            ProjectView::GitLab(p) => KindView::GitLabIssue { project: Some(p), number },
            _ => k,
        },
        KindView::GitLabMr { project: None, number } => match d {
            ProjectView::GitLab(p) => KindView::GitLabMr { project: Some(p), number },
            _ => k,
        },
        KindView::GitHubIssueOrPr { repo: None, number } => match d {
            ProjectView::GitHub(r) => KindView::GitHubIssueOrPr { repo: Some(r), number },
            _ => k,
        },
        KindView::GitHubPr { repo, number } => KindView::GitHubIssueOrPr {
            repo: Some(repo),
            number,
        },
        KindView::GitLabEpic { group: None, number } => match d {
            ProjectView::GitLab(p) => match parent_path(p) {
                Some(g) => KindView::GitLabEpic { group: Some(g), number },
                None => k,
            },
            _ => k,
        },
        _ => k,
    }
}

/// Whether the suggestion for a reference of this kind is the bare local
/// form, because it points into the detected project (for an epic: into
/// its group).
pub open spec fn suggests_local_form(k: KindView, d: ProjectView) -> bool {
    match k {
        KindView::GitLabIssue { project: Some(p), .. } => is_gitlab_project(d, p),
        KindView::GitLabMr { project: Some(p), .. } => is_gitlab_project(d, p),
        KindView::GitLabEpic { group: Some(g), .. } => is_in_gitlab_group(d, g),
        _ => false,
    }
}

/// Whether the GitLab path a reference of this kind carries can be written
/// in the short `path#N` form: two or more `[a-zA-Z0-9_-]` segments.
pub open spec fn shortenable_path(k: KindView) -> bool {
    match k {
        KindView::GitLabIssue { project: Some(p), .. } => rendered_path(p),
        KindView::GitLabMr { project: Some(p), .. } => rendered_path(p),
        KindView::GitLabEpic { group: Some(g), .. } => rendered_path(g),
        _ => true,
    }
}

/// The shorter form suggested for a URL-form reference is itself an
/// accepted reference, already in short form, to the same issue, merge
/// request or epic, once local forms are read against the detected
/// project. This holds wherever the suggestion is a local form, and
/// wherever the GitLab path it keeps is made of two or more
/// `[a-zA-Z0-9_-]` segments.
pub proof fn law_suggestion_denotes_same_reference(r: ReferenceView, d: ProjectView)
    requires
        parse_token(r.original_reference) == Some((r.kind, r.recommended_format)),
        r.recommended_format is Some,
        suggests_local_form(r.kind, d) || shortenable_path(r.kind),
    ensures
        suggestion_of(r, d) matches Some(w) && parse_token(w.suggestion) matches Some((k, rec))
            && rec is None && resolved_kind(k, d) == resolved_kind(r.kind, d),
{
    let t = r.original_reference;
    match r.kind {
        KindView::GitLabIssue { project, number } => {
            let p = project->0;
            assert(r.recommended_format == Some(with_number(p, '#', number)));
            if is_gitlab_project(d, p) {
                lemma_local_reference_reads_back('#', number);
            } else {
                lemma_rendered_reference_reads_back(p, '#', number);
            }
        },
        KindView::GitHubIssueOrPr { repo, number } => {
            let g = github_url(t, "/issues"@);
            assert(g is Some);
            let (owner_repo, _) = g->0;
            assert(repo_path(owner_repo));
            lemma_github_reference_reads_back(owner_repo, number);
        },
        KindView::GitLabMr { project, number } => {
            let p = project->0;
            assert(r.recommended_format == Some(with_number(p, '!', number)));
            if is_gitlab_project(d, p) {
                lemma_local_reference_reads_back('!', number);
            } else {
                lemma_rendered_reference_reads_back(p, '!', number);
            }
        },
        KindView::GitHubPr { repo, number } => {
            let g = github_url(t, "/pull"@);
            assert(g is Some);
            let (owner_repo, _) = g->0;
            assert(repo_path(owner_repo));
            lemma_github_reference_reads_back(owner_repo, number);
        },
        KindView::GitLabEpic { group, number } => {
            let g = group->0;
            assert(r.recommended_format == Some(with_number(g, '&', number)));
            if is_in_gitlab_group(d, g) {
                lemma_local_reference_reads_back('&', number);
            } else {
                lemma_rendered_reference_reads_back(g, '&', number);
            }
        },
    }
}

/// No sigil can split a text whose fixed prefix holds a character outside
/// `[a-zA-Z0-9_-/]` and no sigil: the path before it would hold that
/// character.
proof fn lemma_not_rendered_after_prefix(x: Seq<char>, pre: Seq<char>, j: int)
    requires
        has_prefix(x, pre),
        0 <= j < pre.len(),
        !rendered_char(pre[j]),
        forall|i: int| 0 <= i < pre.len() ==> !is_sigil(#[trigger] pre[i]),
    ensures
        rendered(x, '#') is None,
        rendered(x, '!') is None,
        rendered(x, '&') is None,
{
    assert forall|s: char| is_sigil(s) implies rendered(x, s) is None by {
        let h = last_index(x, s);
        lemma_last_index_bounds(x, s);
        if h >= 0 {
            if h < pre.len() {
                assert(x[h] == x.take(pre.len() as int)[h]);
                assert(!is_sigil(pre[h]));
            }
            assert(x.take(h)[j] == x.take(pre.len() as int)[j]);
            assert(!rendered_char(x.take(h)[j]));
        }
    }
    assert(is_sigil('#') && is_sigil('!') && is_sigil('&'));
}

/// The schema of a full URL is optional: `https://` or `http://` in front
/// of a `gitlab.com/...` or `github.com/...` reference changes nothing of
/// what it denotes or of the form suggested for it. The
/// `github.com/owner/repo#N` shorthand is the exception: it is accepted
/// only without a schema.
pub proof fn law_schema_is_optional(u: Seq<char>)
    requires
        has_prefix(u, "gitlab.com/"@) || has_prefix(u, "github.com/"@),
        github_shorthand(u) is None,
    ensures
        parse_token("https://"@ + u) == parse_token(u),
        parse_token("http://"@ + u) == parse_token(u),
{
    reveal_strlit("https://");
    reveal_strlit("http://");
    reveal_strlit("gitlab.com/");
    reveal_strlit("github.com/");
    let host = if has_prefix(u, "gitlab.com/"@) {
        "gitlab.com/"@
    } else {
        "github.com/"@
    };
    assert(u[0] == u.take(11)[0]);
    assert(u[0] == 'g');
    assert(!has_prefix(u, "https://"@));
    assert(!has_prefix(u, "http://"@));
    assert(strip_schema(u) == u);
    assert(forall|i: int| 0 <= i < host.len() ==> !is_sigil(#[trigger] host[i]));
    lemma_not_rendered_after_prefix(u, host, 6);
    let a = "https://"@ + u;
    let b = "http://"@ + u;
    assert(a.take(8) =~= "https://"@);
    assert(a.skip(8) =~= u);
    assert(strip_schema(a) == u);
    assert(b.take(7) =~= "http://"@);
    assert(b.skip(7) =~= u);
    assert(!has_prefix(b, "https://"@)) by {
        if has_prefix(b, "https://"@) {
            assert(b[4] == b.take(8)[4]);
        }
    }
    assert(strip_schema(b) == u);
    assert(forall|i: int| 0 <= i < "https://"@.len() ==> !is_sigil(#[trigger] "https://"@[i]));
    assert(forall|i: int| 0 <= i < "http://"@.len() ==> !is_sigil(#[trigger] "http://"@[i]));
    lemma_not_rendered_after_prefix(a, "https://"@, 5);
    lemma_not_rendered_after_prefix(b, "http://"@, 4);
    assert(a[0] == 'h');
    assert(b[0] == 'h');
    assert(!has_prefix(a, "github.com/"@)) by {
        if has_prefix(a, "github.com/"@) {
            assert(a[0] == a.take(11)[0]);
        }
    }
    assert(!has_prefix(b, "github.com/"@)) by {
        if has_prefix(b, "github.com/"@) {
            assert(b[0] == b.take(11)[0]);
        }
    }
    assert(github_shorthand(a) is None);
    assert(github_shorthand(b) is None);
}

/// The displayed form of a GitLab reference reads back as the same
/// reference, needing no shorter form: `#N`, `!N` and `&N` for local ones,
/// `path#N`, `path!N` and `path&N` for a path of two or more
/// `[a-zA-Z0-9_-]` segments. So an issue, a merge request and an epic are
/// each displayed with their own sigil.
pub proof fn law_display_reads_back(k: KindView)
    requires
        match k {
            KindView::GitLabIssue { project, .. } => project is None || rendered_path(project->0),
            KindView::GitLabMr { project, .. } => project is None || rendered_path(project->0),
            KindView::GitLabEpic { group, .. } => group is None || rendered_path(group->0),
            _ => false,
        },
    ensures
        parse_token(display_of(k)) == Some((k, None::<Seq<char>>)),
{
    match k {
        KindView::GitLabIssue { project, number } => match project {
            Some(p) => lemma_rendered_reference_reads_back(p, '#', number),
            None => lemma_local_reference_reads_back('#', number),
        },
        KindView::GitLabMr { project, number } => match project {
            Some(p) => lemma_rendered_reference_reads_back(p, '!', number),
            None => lemma_local_reference_reads_back('!', number),
        },
        KindView::GitLabEpic { group, number } => match group {
            Some(g) => lemma_rendered_reference_reads_back(g, '&', number),
            None => lemma_local_reference_reads_back('&', number),
        },
        _ => {},
    }
}

/// Where a URL's number tail matches `marker` after `lead`, the text
/// before the URL's last `/` ends with `marker`.
proof fn lemma_url_marker(b: Seq<char>, lead: Seq<char>, m: Seq<char>)
    requires
        has_prefix(b, lead),
        split_number_tail(b.skip(lead.len() as int), m) is Some,
    ensures
        last_index(b, '/') >= 0,
        has_suffix(b.take(last_index(b, '/')), m),
{
    let body = b.skip(lead.len() as int);
    let j = last_index(body, '/');
    let l = lead.len() as int;
    lemma_last_index_bounds(body, '/');
    assert(b[l + j] == body[j]);
    assert forall|x: int| l + j < x < b.len() implies b[x] != '/' by {
        assert(b[x] == body[x - l]);
    }
    lemma_last_index_is(b, '/', l + j);
    let head = body.take(j);
    assert(head.skip(head.len() - m.len()) =~= b.take(l + j).skip(b.take(l + j).len() - m.len()));
}

/// No text ends with two markers that differ at the `d`-th character
/// from their ends.
proof fn lemma_suffix_clash(x: Seq<char>, m1: Seq<char>, m2: Seq<char>, d: int)
    requires
        1 <= d <= m1.len(),
        d <= m2.len(),
        m1[m1.len() - d] != m2[m2.len() - d],
    ensures
        !(has_suffix(x, m1) && has_suffix(x, m2)),
{
    if has_suffix(x, m1) && has_suffix(x, m2) {
        assert(x[x.len() - d] == x.skip(x.len() - m1.len())[m1.len() - d]);
        assert(x[x.len() - d] == x.skip(x.len() - m2.len())[m2.len() - d]);
    }
}

/// A text after a URL host has no schema-less local or rendered reading and
/// no reading for the other host.
proof fn lemma_url_token_shape(t: Seq<char>, gitlab: bool)
    requires
        has_prefix(strip_schema(t), if gitlab {
            "gitlab.com/"@
        } else {
            "github.com/"@
        }),
    ensures
        local_number(t, '#') is None,
        local_number(t, '!') is None,
        local_number(t, '&') is None,
        rendered(t, '#') is None,
        rendered(t, '!') is None,
        rendered(t, '&') is None,
        gitlab ==> github_shorthand(t) is None,
        gitlab ==> forall|m: Seq<char>| #[trigger] github_url(t, m) is None,
        !gitlab ==> forall|x: Seq<char>, m: Seq<char>| #[trigger] gitlab_url(t, x, m) is None,
{
    reveal_strlit("https://");
    reveal_strlit("http://");
    reveal_strlit("gitlab.com/");
    reveal_strlit("github.com/");
    let host = if gitlab {
        "gitlab.com/"@
    } else {
        "github.com/"@
    };
    let b = strip_schema(t);
    assert(b[0] == b.take(11)[0]);
    assert(b[3] == b.take(11)[3]);
    assert(forall|i: int| 0 <= i < host.len() ==> !is_sigil(#[trigger] host[i]));
    assert(forall|i: int| 0 <= i < "https://"@.len() ==> !is_sigil(#[trigger] "https://"@[i]));
    assert(forall|i: int| 0 <= i < "http://"@.len() ==> !is_sigil(#[trigger] "http://"@[i]));
    if has_prefix(t, "https://"@) {
        assert(t[0] == t.take(8)[0]);
        lemma_not_rendered_after_prefix(t, "https://"@, 5);
    } else if has_prefix(t, "http://"@) {
        assert(t[0] == t.take(7)[0]);
        lemma_not_rendered_after_prefix(t, "http://"@, 4);
    } else {
        assert(b == t);
        lemma_not_rendered_after_prefix(t, host, 6);
    }
    if gitlab {
        if has_prefix(t, "github.com/"@) {
            assert(t[0] == t.take(11)[0]);
            assert(t[3] == t.take(11)[3]);
        }
        assert forall|m: Seq<char>| #[trigger] github_url(t, m) is None by {
            if has_prefix(b, "github.com/"@) {
                assert(b[3] == b.take(11)[3]);
            }
        }
    } else {
        assert forall|x: Seq<char>, m: Seq<char>| #[trigger] gitlab_url(t, x, m) is None by {
            let lead = "gitlab.com/"@ + x;
            if has_prefix(b, lead) {
                assert(b[3] == b.take(lead.len() as int)[3]);
                assert(lead[3] == 'l');
            }
        }
    }
}

/// A number tail after `/` leaves no `#N` shorthand reading of the same text.
proof fn lemma_no_shorthand_with_tail(body: Seq<char>, m: Seq<char>)
    requires
        split_number_tail(body, m) is Some,
    ensures
        split_at_sigil(body, '#') is None,
{
    let j = last_index(body, '/');
    let h = last_index(body, '#');
    lemma_last_index_bounds(body, '/');
    lemma_last_index_bounds(body, '#');
    if h >= 0 && number_of(body.skip(h + 1)) is Some {
        if h > j {
            assert(body.skip(j + 1)[h - j - 1] == body[h]);
            assert(!is_ascii_digit(body[h]));
        } else {
            assert(body.skip(h + 1)[j - h - 1] == body[j]);
            assert(!is_ascii_digit(body[j]));
        }
    }
}

/// Every full URL gets a shorter suggested form: a GitLab issue or work
/// item URL `path#N`, a merge request URL `path!N`, an epic URL
/// `group&N`, and a GitHub issue or pull request URL
/// `github.com/owner/repo#N`; and each is read as the reference its URL
/// names.
pub proof fn law_full_urls_get_short_forms(t: Seq<char>)
    ensures
        gitlab_url(t, seq![], "/-/issues"@) matches Some((p, n)) ==> parse_token(t) == Some(
            (KindView::GitLabIssue { project: Some(p), number: n }, Some(with_number(p, '#', n))),
        ),
        gitlab_url(t, seq![], "/-/work_items"@) matches Some((p, n)) ==> parse_token(t) == Some(
            (KindView::GitLabIssue { project: Some(p), number: n }, Some(with_number(p, '#', n))),
        ),
        gitlab_url(t, seq![], "/-/merge_requests"@) matches Some((p, n)) ==> parse_token(t) == Some(
            (KindView::GitLabMr { project: Some(p), number: n }, Some(with_number(p, '!', n))),
        ),
        gitlab_url(t, "groups/"@, "/-/epics"@) matches Some((g, n)) ==> parse_token(t) == Some(
            (KindView::GitLabEpic { group: Some(g), number: n }, Some(with_number(g, '&', n))),
        ),
        github_url(t, "/issues"@) matches Some((r, n)) ==> parse_token(t) == Some(
            (
                KindView::GitHubIssueOrPr { repo: Some(r), number: n },
                Some(with_number("github.com/"@ + r, '#', n)),
            ),
        ),
        github_url(t, "/pull"@) matches Some((r, n)) ==> parse_token(t) == Some(
            (
                KindView::GitHubPr { repo: r, number: n },
                Some(with_number("github.com/"@ + r, '#', n)),
            ),
        ),
{
    reveal_strlit("gitlab.com/");
    reveal_strlit("github.com/");
    reveal_strlit("groups/");
    reveal_strlit("/-/issues");
    reveal_strlit("/-/work_items");
    reveal_strlit("/-/merge_requests");
    reveal_strlit("/-/epics");
    reveal_strlit("/issues");
    reveal_strlit("/pull");
    let b = strip_schema(t);
    let lab = "gitlab.com/"@;
    let hub = "github.com/"@;
    let grp = lab + "groups/"@;
    assert(lab + seq![] =~= lab);
    let x = b.take(last_index(b, '/'));
    let issues = gitlab_url(t, seq![], "/-/issues"@) is Some;
    let items = gitlab_url(t, seq![], "/-/work_items"@) is Some;
    let mrs = gitlab_url(t, seq![], "/-/merge_requests"@) is Some;
    let epics = gitlab_url(t, "groups/"@, "/-/epics"@) is Some;
    let gh_issues = github_url(t, "/issues"@) is Some;
    let gh_pulls = github_url(t, "/pull"@) is Some;
    if issues {
        lemma_url_marker(b, lab, "/-/issues"@);
    }
    if items {
        lemma_url_marker(b, lab, "/-/work_items"@);
    }
    if mrs {
        lemma_url_marker(b, lab, "/-/merge_requests"@);
    }
    if epics {
        lemma_url_marker(b, grp, "/-/epics"@);
    }
    if gh_issues {
        lemma_url_marker(b, hub, "/issues"@);
    }
    if gh_pulls {
        lemma_url_marker(b, hub, "/pull"@);
    }
    if issues && items {
        lemma_suffix_clash(x, "/-/issues"@, "/-/work_items"@, 3);
    }
    if issues && mrs {
        lemma_suffix_clash(x, "/-/issues"@, "/-/merge_requests"@, 2);
    }
    if items && mrs {
        lemma_suffix_clash(x, "/-/work_items"@, "/-/merge_requests"@, 2);
    }
    if epics && issues {
        lemma_suffix_clash(x, "/-/epics"@, "/-/issues"@, 3);
    }
    if epics && items {
        lemma_suffix_clash(x, "/-/epics"@, "/-/work_items"@, 2);
    }
    if epics && mrs {
        lemma_suffix_clash(x, "/-/epics"@, "/-/merge_requests"@, 2);
    }
    if gh_issues && gh_pulls {
        lemma_suffix_clash(x, "/issues"@, "/pull"@, 1);
    }
    if issues || items || mrs {
        lemma_url_token_shape(t, true);
    }
    if epics {
        assert(grp.len() == 18);
        assert(has_prefix(b, grp));
        assert(b.take(11) =~= b.take(18).take(11));
        assert(grp.take(11) =~= lab);
        assert(has_prefix(b, lab));
        lemma_url_token_shape(t, true);
    }
    if gh_issues || gh_pulls {
        lemma_url_token_shape(t, false);
        assert(gitlab_url(t, seq![], "/-/issues"@) is None);
        assert(gitlab_url(t, seq![], "/-/work_items"@) is None);
        assert(gitlab_url(t, seq![], "/-/merge_requests"@) is None);
        assert(gitlab_url(t, "groups/"@, "/-/epics"@) is None);
    }
    if gh_pulls {
        if has_prefix(t, hub) {
            lemma_no_shorthand_with_tail(b.skip(11), "/pull"@);
            reveal_strlit("https://");
            reveal_strlit("http://");
            if has_prefix(t, "https://"@) {
                assert(t[0] == t.take(8)[0]);
                assert(t[0] == t.take(11)[0]);
            }
            if has_prefix(t, "http://"@) {
                assert(t[0] == t.take(7)[0]);
                assert(t[0] == t.take(11)[0]);
            }
            assert(b == t);
        }
        assert(github_shorthand(t) is None);
    }
    if issues || items || mrs || epics {
        assert(github_url(t, "/issues"@) is None);
        assert(github_url(t, "/pull"@) is None);
    }
}

} // verus!
