//! TODO comments that the current GitLab merge request will settle: the
//! issues its description closes, and the local references to them.
use vstd::prelude::*;

use crate::checker::{ProjectDetection, ProjectView};
use crate::scan::ref_views;
use crate::text::string_from;
use crate::todo::{opt_view, KindView, ReferenceView, TodoReference, TodoReferenceKind};
use crate::token::{has_prefix, number_from, number_of, starts_with};

verus! {

/// What compiling `pattern` with `regex::Regex::new` and walking
/// `Regex::captures_iter` over `haystack` gives: for each successive match,
/// the text of capture group `group` (`None` where the group took no part);
/// or the message of the compile error.
pub uninterp spec fn regex_captures(pattern: Seq<char>, haystack: Seq<char>, group: usize) -> Result<
    Seq<Option<Seq<char>>>,
    Seq<char>,
>;

pub open spec fn opt_strings_view(v: Seq<Option<String>>) -> Seq<Option<Seq<char>>> {
    v.map_values(|o: Option<String>| opt_view(o))
}

/// `regex::Regex::new(pattern)`, then `captures_iter(haystack)` with
/// `Captures::get(group)` of each match; the contract claims only that the
/// outcome is `regex_captures` of the arguments.
#[verifier::external_body]
fn regex_captures_exec(pattern: &str, haystack: &str, group: usize) -> (r: Result<
    Vec<Option<String>>,
    String,
>)
    ensures
        match r {
            Ok(v) => regex_captures(pattern@, haystack@, group) == Ok::<
                Seq<Option<Seq<char>>>,
                Seq<char>,
            >(opt_strings_view(v@)),
            Err(m) => regex_captures(pattern@, haystack@, group) == Err::<
                Seq<Option<Seq<char>>>,
                Seq<char>,
            >(m@),
        },
{
    match regex::Regex::new(pattern) {
        Ok(re) => Ok(
            re.captures_iter(haystack).map(|c| c.get(group).map(|m| m.as_str().to_string())).collect(),
        ),
        Err(e) => Err(e.to_string()),
    }
}

/// The words by which a merge request description closes an issue:
/// `close`, `closes`, `closed`, `fix`, `fixes`, `fixed`, `resolve`,
/// `resolves`, `resolved` in any case, then white space, `#` and the number.
pub open spec fn closing_pattern() -> Seq<char> {
    "(?i)(?:close[sd]?|fix(?:e[sd])?|resolve[sd]?)\\s+#(\\d+)"@
}

/// The numbers among the captured groups, in order; a group that took no
/// part, or whose number does not fit in a `u32`, is left out.
pub open spec fn captured_numbers(groups: Seq<Option<Seq<char>>>) -> Seq<u32>
    decreases groups.len(),
{
    if groups.len() == 0 {
        seq![]
    } else {
        let rest = captured_numbers(groups.drop_last());
        match groups.last() {
            Some(g) => match number_of(g) {
                Some(n) => rest.push(n),
                None => rest,
            },
            None => rest,
        }
    }
}

/// What the closing pattern finds in `description`: the numbers, or the
/// message of a compile error.
pub open spec fn closing_issues_of(description: Seq<char>) -> Result<Seq<u32>, Seq<char>> {
    match regex_captures(closing_pattern(), description, 1) {
        Ok(groups) => Ok(captured_numbers(groups)),
        Err(m) => Err(m),
    }
}

pub open spec fn numbers_view(r: Result<Vec<u32>, String>) -> Result<Seq<u32>, Seq<char>> {
    match r {
        Ok(v) => Ok(v@),
        Err(m) => Err(m@),
    }
}

/// The numbers of the issues that a merge request description closes, in
/// the order in which they are written.
pub fn closing_issue_numbers(description: &str) -> (r: Result<Vec<u32>, String>)
    ensures
        numbers_view(r) == closing_issues_of(description@),
{
    let pattern = "(?i)(?:close[sd]?|fix(?:e[sd])?|resolve[sd]?)\\s+#(\\d+)";
    match regex_captures_exec(pattern, description, 1) {
        Err(m) => Err(m),
        Ok(groups) => Ok(captured_issue_numbers(&groups)),
    }
}

/// The numbers among the groups that the closing pattern captured, in
/// order, leaving out a group that took no part or whose number does not
/// fit in a `u32`.
pub fn captured_issue_numbers(groups: &Vec<Option<String>>) -> (r: Vec<u32>)
    ensures
        r@ == captured_numbers(opt_strings_view(groups@)),
{
    let mut out: Vec<u32> = Vec::new();
    let mut i: usize = 0;
    while i < groups.len()
        invariant
            0 <= i <= groups@.len(),
            out@ == captured_numbers(opt_strings_view(groups@).take(i as int)),
        decreases groups.len() - i,
    {
        let ghost before = opt_strings_view(groups@).take(i as int);
        assert(opt_strings_view(groups@).take(i + 1).drop_last() == before);
        match &groups[i] {
            Some(g) => {
                let chars = crate::text::chars_of(g.as_str());
                match number_from(&chars) {
                    Some(n) => out.push(n),
                    None => {},
                }
            },
            None => {},
        }
        i = i + 1;
    }
    assert(opt_strings_view(groups@).take(groups@.len() as int) == opt_strings_view(groups@));
    out
}

/// The issues closed by the first of the open merge requests of the
/// current branch (given by their descriptions); none where there is no
/// such merge request. A missing description reads as empty.
pub open spec fn merge_request_issues_of(descriptions: Seq<Option<Seq<char>>>) -> Result<
    Seq<u32>,
    Seq<char>,
> {
    if descriptions.len() == 0 {
        Ok(seq![])
    } else {
        closing_issues_of(
            match descriptions[0] {
                Some(d) => d,
                None => Seq::<char>::empty(),
            },
        )
    }
}

/// The issues that the current merge request closes, from the descriptions
/// of the branch's open merge requests.
pub fn merge_request_issues(descriptions: &Vec<Option<String>>) -> (r: Result<Vec<u32>, String>)
    ensures
        numbers_view(r) == merge_request_issues_of(opt_strings_view(descriptions@)),
{
    if descriptions.len() == 0 {
        return Ok(Vec::new());
    }
    assert(opt_strings_view(descriptions@)[0] == opt_view(descriptions@[0]));
    match &descriptions[0] {
        Some(d) => closing_issue_numbers(d.as_str()),
        None => {
            proof {
                reveal_strlit("");
            }
            assert(""@ =~= Seq::<char>::empty());
            closing_issue_numbers("")
        },
    }
}

pub open spec fn branches_view(v: Seq<(String, bool)>) -> Seq<(Seq<char>, bool)> {
    v.map_values(|b: (String, bool)| (b.0@, b.1))
}

/// Of the local branches (name, points at HEAD), in order, the first that
/// points at HEAD and is not a `jj/keep` branch.
pub open spec fn head_branch_of(branches: Seq<(Seq<char>, bool)>) -> Option<Seq<char>>
    decreases branches.len(),
{
    if branches.len() == 0 {
        None
    } else if branches[0].1 && !has_prefix(branches[0].0, "jj/keep"@) {
        Some(branches[0].0)
    } else {
        head_branch_of(branches.drop_first())
    }
}

/// The branch that a detached HEAD stands for.
pub fn branch_at_head(branches: &Vec<(String, bool)>) -> (r: Option<String>)
    ensures
        opt_view(r) == head_branch_of(branches_view(branches@)),
{
    let keep = crate::text::chars_of("jj/keep");
    let mut i: usize = 0;
    assert(branches_view(branches@).skip(0) == branches_view(branches@));
    while i < branches.len()
        invariant
            0 <= i <= branches@.len(),
            keep@ == "jj/keep"@,
            head_branch_of(branches_view(branches@)) == head_branch_of(
                branches_view(branches@).skip(i as int),
            ),
        decreases branches.len() - i,
    {
        let ghost rest = branches_view(branches@).skip(i as int);
        assert(rest.drop_first() == branches_view(branches@).skip(i + 1));
        let (name, at_head) = &branches[i];
        if *at_head {
            let chars = crate::text::chars_of(name.as_str());
            if !starts_with(&chars, &keep) {
                return Some(name.clone());
            }
        }
        i = i + 1;
    }
    None
}

/// The GitLab project whose merge requests are looked at.
pub open spec fn merge_request_project_of(d: ProjectView) -> Result<Seq<char>, Seq<char>> {
    match d {
        ProjectView::GitLab(p) => Ok(p),
        ProjectView::GitHub(_) => Err("GitHub PR TODO checking not yet implemented"@),
        ProjectView::Undetected => Err(
            "Could not detect project. Set CI_PROJECT_PATH or GITLAB_PROJECT environment variable."@,
        ),
    }
}

/// The GitLab project whose merge requests are looked at, or why there is
/// none.
pub fn merge_request_project(d: &ProjectDetection) -> (r: Result<String, String>)
    ensures
        match r {
            Ok(p) => merge_request_project_of(d@) == Ok::<Seq<char>, Seq<char>>(p@),
            Err(m) => merge_request_project_of(d@) == Err::<Seq<char>, Seq<char>>(m@),
        },
{
    match d {
        ProjectDetection::GitLab(p) => Ok(p.clone()),
        ProjectDetection::GitHub(_) => Err(string_from("GitHub PR TODO checking not yet implemented")),
        ProjectDetection::Undetected => Err(
            string_from(
                "Could not detect project. Set CI_PROJECT_PATH or GITLAB_PROJECT environment variable.",
            ),
        ),
    }
}

/// An issue the merge request closes, with the TODO references to it.
#[derive(Debug)]
pub struct MrIssue {
    pub issue_number: u32,
    pub references: Vec<TodoReference>,
}

pub open spec fn mr_issue_views(v: Seq<MrIssue>) -> Seq<(u32, Seq<ReferenceView>)> {
    v.map_values(|m: MrIssue| (m.issue_number, ref_views(m.references@)))
}

/// Whether `r` is a local GitLab issue reference to issue `n`.
pub open spec fn refers_to_local_issue(r: ReferenceView, n: u32) -> bool {
    r.kind == KindView::GitLabIssue { project: None, number: n }
}

/// The references of `refs` to local issue `n`, in order.
pub open spec fn references_to(refs: Seq<ReferenceView>, n: u32) -> Seq<ReferenceView>
    decreases refs.len(),
{
    if refs.len() == 0 {
        seq![]
    } else if refs_last_matches(refs, n) {
        references_to(refs.drop_last(), n).push(refs.last())
    } else {
        references_to(refs.drop_last(), n)
    }
}

pub open spec fn refs_last_matches(refs: Seq<ReferenceView>, n: u32) -> bool {
    refers_to_local_issue(refs.last(), n)
}

/// For each closed issue in turn, the references to it, where there is at
/// least one.
pub open spec fn issues_with_references(refs: Seq<ReferenceView>, issues: Seq<u32>) -> Seq<
    (u32, Seq<ReferenceView>),
>
    decreases issues.len(),
{
    if issues.len() == 0 {
        seq![]
    } else {
        let rest = issues_with_references(refs, issues.drop_last());
        let found = references_to(refs, issues.last());
        if found.len() > 0 {
            rest.push((issues.last(), found))
        } else {
            rest
        }
    }
}

fn references_to_exec(references: &Vec<TodoReference>, n: u32) -> (r: Vec<TodoReference>)
    ensures
        ref_views(r@) == references_to(ref_views(references@), n),
{
    let mut out: Vec<TodoReference> = Vec::new();
    let mut i: usize = 0;
    while i < references.len()
        invariant
            0 <= i <= references@.len(),
            ref_views(out@) == references_to(ref_views(references@).take(i as int), n),
        decreases references.len() - i,
    {
        let ghost before = out@;
        let ghost pre = ref_views(references@).take(i as int);
        let ghost cur = ref_views(references@).take(i + 1);
        assert(cur.drop_last() == pre);
        assert(cur.last() == references@[i as int]@);
        let hit = match &references[i].kind {
            TodoReferenceKind::GitLabIssue { project: None, number } => *number == n,
            _ => false,
        };
        if hit {
            let c = references[i].clone();
            out.push(c);
            assert(ref_views(out@) =~= ref_views(before).push(c@));
        }
        i = i + 1;
    }
    assert(ref_views(references@).take(references@.len() as int) == ref_views(references@));
    out
}

/// The issues that the merge request closes and the local references to
/// each, leaving out issues that nothing refers to.
pub fn match_mr_issues(references: &Vec<TodoReference>, issues: &Vec<u32>) -> (r: Vec<MrIssue>)
    ensures
        mr_issue_views(r@) == issues_with_references(ref_views(references@), issues@),
{
    let mut out: Vec<MrIssue> = Vec::new();
    let mut i: usize = 0;
    while i < issues.len()
        invariant
            0 <= i <= issues@.len(),
            mr_issue_views(out@) == issues_with_references(
                ref_views(references@),
                issues@.take(i as int),
            ),
        decreases issues.len() - i,
    {
        let ghost before = out@;
        assert(issues@.take(i + 1).drop_last() == issues@.take(i as int));
        let n = issues[i];
        let found = references_to_exec(references, n);
        if found.len() > 0 {
            let m = MrIssue { issue_number: n, references: found };
            out.push(m);
            assert(mr_issue_views(out@) =~= mr_issue_views(before).push(
                (n, ref_views(m.references@)),
            ));
        }
        i = i + 1;
    }
    assert(issues@.take(issues@.len() as int) == issues@);
    out
}

proof fn lemma_references_to(refs: Seq<ReferenceView>, n: u32)
    ensures
        forall|j: int|
            0 <= j < references_to(refs, n).len() ==> (#[trigger] references_to(refs, n)[j]).kind
                == (KindView::GitLabIssue { project: None, number: n }) && refs.contains(
                references_to(refs, n)[j],
            ),
        forall|r: ReferenceView|
            #[trigger] refs.contains(r) && r.kind == (KindView::GitLabIssue {
                project: None,
                number: n,
            }) ==> references_to(refs, n).contains(r),
    decreases refs.len(),
{
    if refs.len() > 0 {
        let p = refs.drop_last();
        lemma_references_to(p, n);
        let out = references_to(refs, n);
        let prev = references_to(p, n);
        assert forall|j: int| 0 <= j < out.len() implies (#[trigger] out[j]).kind
            == (KindView::GitLabIssue { project: None, number: n }) && refs.contains(out[j]) by {
            if j < prev.len() {
                assert(out[j] == prev[j]);
                let k = choose|k: int| 0 <= k < p.len() && p[k] == prev[j];
                assert(refs[k] == p[k]);
            } else {
                assert(out[j] == refs.last());
                assert(refs[refs.len() - 1] == refs.last());
            }
        }
        assert forall|r: ReferenceView|
            #[trigger] refs.contains(r) && r.kind == (KindView::GitLabIssue {
                project: None,
                number: n,
            }) implies out.contains(r) by {
            let k = choose|k: int| 0 <= k < refs.len() && refs[k] == r;
            if k < refs.len() - 1 {
                assert(p[k] == r);
                assert(p.contains(r));
                assert(prev.contains(r));
                let j = choose|j: int| 0 <= j < prev.len() && prev[j] == r;
                assert(out[j] == r);
            } else {
                assert(out[out.len() - 1] == r);
            }
        }
    }
}

/// The TODOs that a merge request settles: each entry is an issue the
/// merge request closes with the references that name it as a local GitLab
/// issue (`#N`) and no other reference (a merge request `!N`, or an issue
/// of another project, does not count); every such reference is listed; and
/// an issue is listed only when some reference names it.
pub proof fn law_merge_request_matches_local_issues(refs: Seq<ReferenceView>, issues: Seq<u32>)
    ensures
        forall|k: int, j: int|
            0 <= k < issues_with_references(refs, issues).len() && 0 <= j
                < issues_with_references(refs, issues)[k].1.len() ==> (#[trigger] issues_with_references(
                refs,
                issues,
            )[k].1[j]).kind == (KindView::GitLabIssue {
                project: None,
                number: issues_with_references(refs, issues)[k].0,
            }),
        forall|k: int, r: ReferenceView|
            0 <= k < issues_with_references(refs, issues).len() && #[trigger] refs.contains(r)
                && r.kind == (KindView::GitLabIssue {
                project: None,
                number: (#[trigger] issues_with_references(refs, issues)[k]).0,
            }) ==> issues_with_references(refs, issues)[k].1.contains(r),
        forall|k: int|
            0 <= k < issues_with_references(refs, issues).len() ==> (#[trigger] issues_with_references(
                refs,
                issues,
            )[k]).1.len() > 0 && issues.contains(issues_with_references(refs, issues)[k].0),
    decreases issues.len(),
{
    if issues.len() > 0 {
        let p = issues.drop_last();
        law_merge_request_matches_local_issues(refs, p);
        let n = issues.last();
        lemma_references_to(refs, n);
        let out = issues_with_references(refs, issues);
        let prev = issues_with_references(refs, p);
        assert forall|k: int| 0 <= k < out.len() implies (out[k] == (if k < prev.len() {
            prev[k]
        } else {
            (n, references_to(refs, n))
        })) by {}
        assert forall|k: int| 0 <= k < prev.len() implies issues.contains(#[trigger] prev[k].0) by {
            let i = choose|i: int| 0 <= i < p.len() && p[i] == prev[k].0;
            assert(issues[i] == p[i]);
        }
        assert(issues[issues.len() - 1] == n);
    }
}

} // verus!
