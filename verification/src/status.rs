//! What the answers of GitHub and GitLab mean for a reference, and how they
//! are gathered into a `CheckResult`.
use vstd::prelude::*;

use crate::checker::{
    check_step_of, closed_views, not_found_views, CheckResult, CheckStep, ClosedReference,
    ClosedView, NotFoundReference, NotFoundView, ProjectView, StepView,
};
use crate::text::{push_str_chars, string_from};
use crate::todo::{opt_view, KindView, TodoReference};

verus! {

/// What checking one reference came to: the title of a closed issue, merge
/// request or epic (`Ok(Some(..))`), nothing to report (`Ok(None)`), or the
/// message of a failure (`Err(..)`).
pub open spec fn outcome_view(o: Result<Option<String>, String>) -> Result<Option<Seq<char>>, Seq<char>> {
    match o {
        Ok(t) => Ok(opt_view(t)),
        Err(e) => Err(e@),
    }
}

pub open spec fn found(t: Option<Seq<char>>) -> Result<Option<Seq<char>>, Seq<char>> {
    Ok(t)
}

pub open spec fn failed(m: Seq<char>) -> Result<Option<Seq<char>>, Seq<char>> {
    Err(m)
}

/// The outcome of a step that asks no service: a skipped reference has
/// nothing to report, a failed one reports its message. `None` for a step
/// that needs an answer.
pub open spec fn settled_outcome_of(s: StepView) -> Option<Result<Option<Seq<char>>, Seq<char>>> {
    match s {
        StepView::Skip => Some(found(None)),
        StepView::Fail(m) => Some(failed(m)),
        _ => None,
    }
}

pub open spec fn opt_outcome_view(o: Option<Result<Option<String>, String>>) -> Option<
    Result<Option<Seq<char>>, Seq<char>>,
> {
    match o {
        Some(x) => Some(outcome_view(x)),
        None => None,
    }
}

/// The outcome of `step` where it needs no answer from a service.
pub fn settled_outcome(step: &CheckStep) -> (r: Option<Result<Option<String>, String>>)
    ensures
        opt_outcome_view(r) == settled_outcome_of(step@),
{
    match step {
        CheckStep::Skip => Some(Ok(None)),
        CheckStep::Fail(m) => Some(Err(m.clone())),
        _ => None,
    }
}

/// Whether a reference of this kind lives on GitHub.
pub open spec fn on_github(k: KindView) -> bool {
    k is GitHubIssueOrPr || k is GitHubPr
}

/// A reference on a service that has no client is skipped: checking it
/// asks nothing and reports nothing.
pub proof fn law_unconfigured_service_is_skipped(
    d: ProjectView,
    kind: KindView,
    github_configured: bool,
    gitlab_configured: bool,
)
    requires
        on_github(kind) ==> !github_configured,
        !on_github(kind) ==> !gitlab_configured,
    ensures
        check_step_of(d, kind, github_configured, gitlab_configured) == StepView::Skip,
        settled_outcome_of(check_step_of(d, kind, github_configured, gitlab_configured)) == Some(
            found(None),
        ),
{
}

/// A GitLab issue as fetched: `Ok((title, closed))`, or the query's error.
pub open spec fn fetched_view(f: Result<(String, bool), String>) -> Result<(Seq<char>, bool), Seq<char>> {
    match f {
        Ok((t, c)) => Ok((t@, c)),
        Err(e) => Err(e@),
    }
}

/// The outcome of fetching an issue: its title when it is closed, nothing
/// when it is open, and for a failed query the message `prefix` followed by
/// the query's error.
pub open spec fn issue_outcome(prefix: Seq<char>, f: Result<(Seq<char>, bool), Seq<char>>) -> Result<
    Option<Seq<char>>,
    Seq<char>,
> {
    match f {
        Ok((t, closed)) => found(if closed { Some(t) } else { None }),
        Err(e) => failed(prefix + e),
    }
}

fn issue_result(prefix: String, fetched: Result<(String, bool), String>) -> (r: Result<
    Option<String>,
    String,
>)
    ensures
        outcome_view(r) == issue_outcome(prefix@, fetched_view(fetched)),
{
    match fetched {
        Ok((title, closed)) => if closed {
            Ok(Some(title))
        } else {
            Ok(None)
        },
        Err(e) => {
            let mut m = prefix;
            push_str_chars(&mut m, e.as_str());
            Err(m)
        },
    }
}

/// What the answer for GitLab issue of `project` means.
pub fn gitlab_issue_outcome(project: &str, fetched: Result<(String, bool), String>) -> (r: Result<
    Option<String>,
    String,
>)
    ensures
        outcome_view(r) == issue_outcome(
            "GitLab issue not found or inaccessible (project "@ + project@ + "): "@,
            fetched_view(fetched),
        ),
{
    let mut prefix = string_from("GitLab issue not found or inaccessible (project ");
    push_str_chars(&mut prefix, project);
    push_str_chars(&mut prefix, "): ");
    issue_result(prefix, fetched)
}

/// What the answer for a GitHub issue means.
pub fn github_issue_outcome(fetched: Result<(String, bool), String>) -> (r: Result<
    Option<String>,
    String,
>)
    ensures
        outcome_view(r) == issue_outcome(
            "GitHub issue not found or inaccessible: "@,
            fetched_view(fetched),
        ),
{
    issue_result(string_from("GitHub issue not found or inaccessible: "), fetched)
}

/// A GitLab merge request as fetched: `(title, still open)`; `None` where
/// the query failed.
pub open spec fn merge_request_view(f: Option<(String, bool)>) -> Option<(Seq<char>, bool)> {
    match f {
        Some((t, open)) => Some((t@, open)),
        None => None,
    }
}

/// A merge request that is no longer open is reported by its title; an
/// open one, or one that could not be fetched, is not reported.
pub open spec fn merge_request_outcome(f: Option<(Seq<char>, bool)>) -> Option<Seq<char>> {
    match f {
        Some((t, open)) => if open {
            None
        } else {
            Some(t)
        },
        None => None,
    }
}

/// What the answer for a GitLab merge request means.
pub fn gitlab_mr_outcome(fetched: Option<(String, bool)>) -> (r: Option<String>)
    ensures
        opt_view(r) == merge_request_outcome(merge_request_view(fetched)),
{
    match fetched {
        Some((title, open)) => if open {
            None
        } else {
            Some(title)
        },
        None => None,
    }
}

/// A GitHub pull request as fetched: `(title if any, still open)`; `None`
/// where the query failed.
pub open spec fn pull_request_view(f: Option<(Option<String>, bool)>) -> Option<
    (Option<Seq<char>>, bool),
> {
    match f {
        Some((t, open)) => Some((opt_view(t), open)),
        None => None,
    }
}

/// A pull request that is no longer open is reported by its title, or
/// `(no title)`; an open one, or one that could not be fetched, is not.
pub open spec fn pull_request_outcome(f: Option<(Option<Seq<char>>, bool)>) -> Option<Seq<char>> {
    match f {
        Some((t, open)) => if open {
            None
        } else {
            match t {
                Some(t) => Some(t),
                None => Some("(no title)"@),
            }
        },
        None => None,
    }
}

/// What the answer for a GitHub pull request means.
pub fn github_pr_outcome(fetched: Option<(Option<String>, bool)>) -> (r: Option<String>)
    ensures
        opt_view(r) == pull_request_outcome(pull_request_view(fetched)),
{
    match fetched {
        Some((title, open)) => if open {
            None
        } else {
            match title {
                Some(t) => Some(t),
                None => Some(string_from("(no title)")),
            }
        },
        None => None,
    }
}

/// The string fields `message`, `state` and `title` of a GitLab epic
/// response.
pub struct EpicFields {
    pub message: Option<String>,
    pub state: Option<String>,
    pub title: Option<String>,
}

pub open spec fn epic_fields_view(f: Option<EpicFields>) -> Option<
    (Option<Seq<char>>, Option<Seq<char>>, Option<Seq<char>>),
> {
    match f {
        Some(x) => Some((opt_view(x.message), opt_view(x.state), opt_view(x.title))),
        None => None,
    }
}

/// What `serde_json::from_slice::<serde_json::Value>` makes of `body`, read
/// as the string values of its `message`, `state` and `title` keys (`None`
/// for a key that is missing or not a string); `None` where `body` is not
/// JSON.
pub uninterp spec fn epic_json_fields(body: Seq<u8>) -> Option<
    (Option<Seq<char>>, Option<Seq<char>>, Option<Seq<char>>),
>;

/// `serde_json::from_slice` into a `serde_json::Value`, then `Value::get`
/// and `Value::as_str` for each of the three keys; the contract claims only
/// that the fields are `epic_json_fields` of the bytes.
#[verifier::external_body]
fn parse_epic_json(body: &[u8]) -> (r: Option<EpicFields>)
    ensures
        epic_fields_view(r) == epic_json_fields(body@),
{
    match serde_json::from_slice::<serde_json::Value>(body) {
        Ok(v) => Some(EpicFields {
            message: v.get("message").and_then(|x| x.as_str()).map(|s| s.to_string()),
            state: v.get("state").and_then(|x| x.as_str()).map(|s| s.to_string()),
            title: v.get("title").and_then(|x| x.as_str()).map(|s| s.to_string()),
        }),
        Err(_) => None,
    }
}

/// What an epic response means: an error message from the API is a
/// failure; so is a missing `state`; state `closed` reports the title (or
/// `(no title)`); any other state is not reported.
pub open spec fn epic_outcome_of(
    f: Option<(Option<Seq<char>>, Option<Seq<char>>, Option<Seq<char>>)>,
) -> Result<Option<Seq<char>>, Seq<char>> {
    match f {
        None => failed("Failed to parse GitLab epic response"@),
        Some((message, state, title)) => match message {
            Some(m) => failed("GitLab API error: "@ + m),
            None => match state {
                None => failed("Epic response missing 'state' field"@),
                Some(s) => if s == "closed"@ {
                    found(
                        Some(
                            match title {
                                Some(t) => t,
                                None => "(no title)"@,
                            },
                        ),
                    )
                } else {
                    found(None)
                },
            },
        },
    }
}

/// What the fields of an epic response mean.
pub fn epic_fields_outcome(fields: Option<EpicFields>) -> (r: Result<Option<String>, String>)
    ensures
        outcome_view(r) == epic_outcome_of(epic_fields_view(fields)),
{
    match fields {
        None => Err(string_from("Failed to parse GitLab epic response")),
        Some(f) => match f.message {
            Some(m) => {
                let mut s = string_from("GitLab API error: ");
                push_str_chars(&mut s, m.as_str());
                Err(s)
            },
            None => match f.state {
                None => Err(string_from("Epic response missing 'state' field")),
                Some(state) => if crate::text::string_eq_str(&state, "closed") {
                    match f.title {
                        Some(t) => Ok(Some(t)),
                        None => Ok(Some(string_from("(no title)"))),
                    }
                } else {
                    Ok(None)
                },
            },
        },
    }
}

/// How the request for an epic went.
pub enum EpicReply {
    /// The REST endpoint URL could not be built.
    EndpointFailed,
    /// The request itself failed.
    QueryFailed,
    /// The body of the response.
    Body(Vec<u8>),
}

/// What the reply to an epic request means.
pub fn epic_outcome(reply: &EpicReply) -> (r: Result<Option<String>, String>)
    ensures
        outcome_view(r) == match reply {
            EpicReply::EndpointFailed => failed("Failed to build epic endpoint URL"@),
            EpicReply::QueryFailed => failed("Failed to query GitLab epic"@),
            EpicReply::Body(b) => epic_outcome_of(epic_json_fields(b@)),
        },
{
    match reply {
        EpicReply::EndpointFailed => Err(string_from("Failed to build epic endpoint URL")),
        EpicReply::QueryFailed => Err(string_from("Failed to query GitLab epic")),
        EpicReply::Body(b) => epic_fields_outcome(parse_epic_json(b.as_slice())),
    }
}

impl CheckResult {
    /// A result with nothing recorded yet.
    pub fn new() -> (r: Self)
        ensures
            r.closed@.len() == 0,
            r.not_found@.len() == 0,
    {
        CheckResult { closed: Vec::new(), not_found: Vec::new() }
    }

    /// Records what checking `reference` came to: a closed one joins
    /// `closed`, a failed one joins `not_found`, and one with nothing to
    /// report leaves the result as it was.
    pub fn record(&mut self, reference: &TodoReference, outcome: Result<Option<String>, String>)
        ensures
            match outcome_view(outcome) {
                Ok(Some(title)) => {
                    &&& closed_views(final(self).closed@) == closed_views(old(self).closed@).push(
                        ClosedView { reference: reference@, title },
                    )
                    &&& final(self).not_found@ == old(self).not_found@
                },
                Ok(None) => {
                    &&& final(self).closed@ == old(self).closed@
                    &&& final(self).not_found@ == old(self).not_found@
                },
                Err(error) => {
                    &&& final(self).closed@ == old(self).closed@
                    &&& not_found_views(final(self).not_found@) == not_found_views(
                        old(self).not_found@,
                    ).push(NotFoundView { reference: reference@, error })
                },
            },
    {
        match outcome {
            Ok(Some(title)) => {
                let ghost before = self.closed@;
                let c = ClosedReference { reference: reference.clone(), title };
                self.closed.push(c);
                assert(closed_views(self.closed@) =~= closed_views(before).push(c@));
            },
            Ok(None) => {},
            Err(error) => {
                let ghost before = self.not_found@;
                let n = NotFoundReference { reference: reference.clone(), error };
                self.not_found.push(n);
                assert(not_found_views(self.not_found@) =~= not_found_views(before).push(n@));
            },
        }
    }
}

/// The message given when neither GitHub nor GitLab can be reached.
pub open spec fn no_auth_text() -> Seq<char> {
    "No authentication configured.\nSet GH_TOKEN (or GITHUB_TOKEN) and/or GITLAB_TOKEN (or GL_TOKEN) environment variables with your personal access tokens.\n- GitHub: https://github.com/settings/tokens (requires 'repo' scope)\n- GitLab: https://gitlab.com/-/user_settings/personal_access_tokens (requires 'api' scope)\nOptionally set GITLAB_URL for self-hosted GitLab (defaults to gitlab.com)."@
}

pub open spec fn github_skipped_text() -> Seq<char> {
    "GitHub token not set; GitHub TODO checking will be skipped."@
}

pub open spec fn gitlab_skipped_text() -> Seq<char> {
    "GitLab token not set; GitLab TODO checking will be skipped."@
}

/// The warnings of an authentication check: one for each service that has
/// no client because no token was set, GitHub first.
pub open spec fn auth_warnings(
    github_client: bool,
    gitlab_client: bool,
    github_token_present: bool,
    gitlab_token_present: bool,
) -> Seq<Seq<char>> {
    (if !github_client && !github_token_present {
        seq![github_skipped_text()]
    } else {
        seq![]
    }) + (if !gitlab_client && !gitlab_token_present {
        seq![gitlab_skipped_text()]
    } else {
        seq![]
    })
}

pub open spec fn string_views(v: Seq<String>) -> Seq<Seq<char>> {
    v.map_values(|s: String| s@)
}

/// Whether checking can go on with the clients at hand: an error where
/// there is neither a GitHub nor a GitLab client, else the warnings to
/// show.
pub fn auth_check(
    github_client: bool,
    gitlab_client: bool,
    github_token_present: bool,
    gitlab_token_present: bool,
) -> (r: Result<Vec<String>, String>)
    ensures
        !github_client && !gitlab_client ==> (r matches Err(m) && m@ == no_auth_text()),
        github_client || gitlab_client ==> (r matches Ok(w) && string_views(w@) == auth_warnings(
            github_client,
            gitlab_client,
            github_token_present,
            gitlab_token_present,
        )),
{
    if !github_client && !gitlab_client {
        return Err(
            string_from(
                "No authentication configured.\nSet GH_TOKEN (or GITHUB_TOKEN) and/or GITLAB_TOKEN (or GL_TOKEN) environment variables with your personal access tokens.\n- GitHub: https://github.com/settings/tokens (requires 'repo' scope)\n- GitLab: https://gitlab.com/-/user_settings/personal_access_tokens (requires 'api' scope)\nOptionally set GITLAB_URL for self-hosted GitLab (defaults to gitlab.com).",
            ),
        );
    }
    let mut w: Vec<String> = Vec::new();
    if !github_client && !github_token_present {
        w.push(string_from("GitHub token not set; GitHub TODO checking will be skipped."));
    }
    let ghost first = string_views(w@);
    if !gitlab_client && !gitlab_token_present {
        w.push(string_from("GitLab token not set; GitLab TODO checking will be skipped."));
    }
    assert(string_views(w@) =~= auth_warnings(
        github_client,
        gitlab_client,
        github_token_present,
        gitlab_token_present,
    ));
    Ok(w)
}

/// What checking reference `r` comes to: settled by its step where the
/// step asks no service, else the service's answer.
pub open spec fn reference_outcome(
    d: ProjectView,
    r: crate::todo::ReferenceView,
    github_configured: bool,
    gitlab_configured: bool,
    answer: Result<Option<Seq<char>>, Seq<char>>,
) -> Result<Option<Seq<char>>, Seq<char>> {
    match settled_outcome_of(check_step_of(d, r.kind, github_configured, gitlab_configured)) {
        Some(o) => o,
        None => answer,
    }
}

/// The closed references among `refs`, in order, given the outcome of each.
pub open spec fn closed_list(
    refs: Seq<crate::todo::ReferenceView>,
    outcomes: Seq<Result<Option<Seq<char>>, Seq<char>>>,
) -> Seq<ClosedView>
    decreases refs.len(),
{
    if refs.len() == 0 || outcomes.len() == 0 {
        seq![]
    } else {
        let rest = closed_list(refs.drop_last(), outcomes.drop_last());
        match outcomes.last() {
            Ok(Some(title)) => rest.push(ClosedView { reference: refs.last(), title }),
            _ => rest,
        }
    }
}

/// The references among `refs` that could not be resolved, in order, with
/// their errors, given the outcome of each.
pub open spec fn not_found_list(
    refs: Seq<crate::todo::ReferenceView>,
    outcomes: Seq<Result<Option<Seq<char>>, Seq<char>>>,
) -> Seq<NotFoundView>
    decreases refs.len(),
{
    if refs.len() == 0 || outcomes.len() == 0 {
        seq![]
    } else {
        let rest = not_found_list(refs.drop_last(), outcomes.drop_last());
        match outcomes.last() {
            Err(error) => rest.push(NotFoundView { reference: refs.last(), error }),
            _ => rest,
        }
    }
}

pub open spec fn answers_view(v: Seq<Result<Option<String>, String>>) -> Seq<
    Result<Option<Seq<char>>, Seq<char>>,
> {
    v.map_values(|a: Result<Option<String>, String>| outcome_view(a))
}

/// The outcome of each reference, given the services' answers.
pub open spec fn outcomes_of(
    d: ProjectView,
    refs: Seq<crate::todo::ReferenceView>,
    github_configured: bool,
    gitlab_configured: bool,
    answers: Seq<Result<Option<Seq<char>>, Seq<char>>>,
) -> Seq<Result<Option<Seq<char>>, Seq<char>>> {
    Seq::new(
        refs.len(),
        |i: int| reference_outcome(d, refs[i], github_configured, gitlab_configured, answers[i]),
    )
}

/// The result of checking `references` in order: each is planned against
/// the detected project and the configured services; a step that asks no
/// service settles it, otherwise `answers` (one per reference, in the same
/// order) gives what the service answered. Closed references, and the
/// references that could not be resolved, are kept in the order of
/// `references`.
pub fn check_result_of(
    default_project: &crate::checker::ProjectDetection,
    references: &Vec<TodoReference>,
    github_configured: bool,
    gitlab_configured: bool,
    answers: &Vec<Result<Option<String>, String>>,
) -> (r: CheckResult)
    requires
        answers@.len() == references@.len(),
    ensures
        closed_views(r.closed@) == closed_list(
            crate::scan::ref_views(references@),
            outcomes_of(
                default_project@,
                crate::scan::ref_views(references@),
                github_configured,
                gitlab_configured,
                answers_view(answers@),
            ),
        ),
        not_found_views(r.not_found@) == not_found_list(
            crate::scan::ref_views(references@),
            outcomes_of(
                default_project@,
                crate::scan::ref_views(references@),
                github_configured,
                gitlab_configured,
                answers_view(answers@),
            ),
        ),
{
    let ghost refs = crate::scan::ref_views(references@);
    let ghost outs = outcomes_of(
        default_project@,
        refs,
        github_configured,
        gitlab_configured,
        answers_view(answers@),
    );
    let mut result = CheckResult::new();
    assert(closed_views(result.closed@) =~= Seq::<ClosedView>::empty());
    assert(not_found_views(result.not_found@) =~= Seq::<NotFoundView>::empty());
    let mut i: usize = 0;
    while i < references.len()
        invariant
            answers@.len() == references@.len(),
            refs == crate::scan::ref_views(references@),
            outs == outcomes_of(
                default_project@,
                refs,
                github_configured,
                gitlab_configured,
                answers_view(answers@),
            ),
            0 <= i <= references@.len(),
            closed_views(result.closed@) == closed_list(refs.take(i as int), outs.take(i as int)),
            not_found_views(result.not_found@) == not_found_list(
                refs.take(i as int),
                outs.take(i as int),
            ),
        decreases references.len() - i,
    {
        let reference = &references[i];
        let step = crate::checker::plan_check(
            default_project,
            reference,
            github_configured,
            gitlab_configured,
        );
        let outcome = match settled_outcome(&step) {
            Some(o) => o,
            None => clone_outcome(&answers[i]),
        };
        assert(outcome_view(outcome) == outs[i as int]);
        assert(refs.take(i + 1).drop_last() == refs.take(i as int));
        assert(outs.take(i + 1).drop_last() == outs.take(i as int));
        assert(refs.take(i + 1).last() == reference@);
        assert(outs.take(i + 1).last() == outs[i as int]);
        result.record(reference, outcome);
        i = i + 1;
    }
    assert(refs.take(refs.len() as int) == refs);
    assert(outs.take(outs.len() as int) == outs);
    result
}

fn clone_outcome(o: &Result<Option<String>, String>) -> (r: Result<Option<String>, String>)
    ensures
        outcome_view(r) == outcome_view(*o),
{
    match o {
        Ok(Some(t)) => Ok(Some(t.clone())),
        Ok(None) => Ok(None),
        Err(e) => Err(e.clone()),
    }
}

/// With neither a GitHub nor a GitLab client, checking reports nothing:
/// every reference is skipped, whatever the answers.
pub proof fn law_no_client_reports_nothing(
    d: ProjectView,
    refs: Seq<crate::todo::ReferenceView>,
    answers: Seq<Result<Option<Seq<char>>, Seq<char>>>,
)
    ensures
        closed_list(refs, outcomes_of(d, refs, false, false, answers)) == Seq::<ClosedView>::empty(),
        not_found_list(refs, outcomes_of(d, refs, false, false, answers)) == Seq::<
            NotFoundView,
        >::empty(),
    decreases refs.len(),
{
    if refs.len() > 0 {
        let outs = outcomes_of(d, refs, false, false, answers);
        let p = refs.drop_last();
        law_no_client_reports_nothing(d, p, answers);
        assert(outs.drop_last() =~= outcomes_of(d, p, false, false, answers));
        law_unconfigured_service_is_skipped(d, refs.last().kind, false, false);
        assert(outs.last() == found(None));
    }
}

} // verus!
