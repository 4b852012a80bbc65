use todo_curator::mr::captured_issue_numbers;
use todo_curator::status::check_result_of;
use todo_curator::todo::readable_text;
use todo_curator::checker::{
    detect_project_from, epic_endpoint, gitlab_token_type, normalize_gitlab_host,
    normalize_project_path, plan_check, uses_oauth, CheckResult, CheckStep, ClosedReference,
    NotFoundReference, ProjectDetection,
};
use todo_curator::mr::{
    branch_at_head, closing_issue_numbers, match_mr_issues, merge_request_issues,
    merge_request_project, MrIssue,
};
use todo_curator::report::{mr_status, mr_text_report, text_report, Span, Style};
use todo_curator::status::{
    auth_check, epic_fields_outcome, epic_outcome, github_issue_outcome, github_pr_outcome,
    gitlab_issue_outcome, gitlab_mr_outcome, settled_outcome, EpicFields, EpicReply,
};
use todo_curator::todo::{
    Extraction, ExtractionResult, ExtractorError, LintViolation, TodoExtractor, TodoReference,
    TodoReferenceKind,
};
use todo_curator::{
    check_all_output, check_closed_from_extraction, check_invalid, check_invalid_from_extraction,
    extract_todos, CheckOutput, ReferenceWarning, SourceFile,
};

fn extract(files: &[(&str, &str)]) -> ExtractionResult {
    let mut extraction = Extraction::new();
    for (file_path, content) in files {
        for (i, line) in content.split_inclusive('\n').enumerate() {
            extraction.add_line(line, file_path, i as u64 + 1);
        }
    }
    extraction.finish()
}

fn extract_with(extractor: &TodoExtractor, files: &[(&str, &str)]) -> ExtractionResult {
    let mut extraction = Extraction::new();
    for (file_path, content) in files {
        if extractor.is_excluded(file_path) {
            continue;
        }
        for (i, line) in content.split_inclusive('\n').enumerate() {
            extraction.add_line(line, file_path, i as u64 + 1);
        }
    }
    extraction.finish()
}

fn flat(lines: &[Vec<Span>]) -> Vec<Vec<(Style, String)>> {
    lines
        .iter()
        .map(|l| l.iter().map(|s| (s.style, s.text.clone())).collect())
        .collect()
}

fn piece(style: Style, text: &str) -> (Style, String) {
    (style, text.to_string())
}

fn local_issue(number: u32, line: &str, file: &str, line_number: u64) -> TodoReference {
    TodoReference::new(
        TodoReferenceKind::GitLabIssue { project: None, number },
        line,
        file,
        line_number,
        &format!("#{number}"),
        None,
    )
}

fn step_text(step: &CheckStep) -> String {
    match step {
        CheckStep::Skip => "skip".to_string(),
        CheckStep::Fail(m) => format!("fail: {m}"),
        CheckStep::GitLabIssue { project, number } => format!("gitlab issue {project} {number}"),
        CheckStep::GitHubIssue { owner, repo, number } => format!("github issue {owner} {repo} {number}"),
        CheckStep::GitLabMr { project, number } => format!("gitlab mr {project} {number}"),
        CheckStep::GitHubPr { owner, repo, number } => format!("github pr {owner} {repo} {number}"),
        CheckStep::GitLabEpic { endpoint } => format!("gitlab epic {endpoint}"),
    }
}

fn kind_text(k: &TodoReferenceKind) -> String {
    match k {
        TodoReferenceKind::GitLabIssue { project, number } => format!("issue {project:?} {number}"),
        TodoReferenceKind::GitHubIssueOrPr { repo, number } => format!("github {repo:?} {number}"),
        TodoReferenceKind::GitLabMr { project, number } => format!("mr {project:?} {number}"),
        TodoReferenceKind::GitHubPr { repo, number } => format!("pr {repo} {number}"),
        TodoReferenceKind::GitLabEpic { group, number } => format!("epic {group:?} {number}"),
    }
}

#[test]
fn integration_test_test_check_all_projection_merges_closed_and_lint_errors() {
    let extraction = extract(&[("test_check_all_projection.rs", "// TODO without a reference\n")]);
    let detection = ProjectDetection::Undetected;
    let closed = check_closed_from_extraction(&extraction, &detection, CheckResult::new());
    let invalid = check_invalid_from_extraction(&extraction, &detection).expect("Failed to project invalid check");
    let all = check_all_output(closed, invalid, false);
    assert!(all.not_found.is_empty(), "No remote auth means no stale-ref lookup");
    assert!(!all.lint_violations.is_empty(), "check-all should include lint violations");
    assert_eq!(all.status, "failure", "check-all should fail when either slice has errors");
}

#[test]
fn api_integration_test_test_check_all_projection_merges_closed_and_lint_errors() {
    let extraction = extract(&[("test_check_all_projection.rs", "// TODO without a reference\n")]);
    let detection = ProjectDetection::Undetected;
    let closed = check_closed_from_extraction(&extraction, &detection, CheckResult::new());
    let invalid = check_invalid_from_extraction(&extraction, &detection).expect("Failed to project invalid check");
    let all = check_all_output(closed, invalid, false);
    assert!(all.not_found.is_empty(), "No remote auth means no stale-ref lookup");
    assert!(!all.lint_violations.is_empty(), "check-all should include lint violations");
    assert_eq!(all.status, "failure", "check-all should fail when either slice has errors");
}

#[test]
fn integration_test_test_excluded_file_regex_skips_closed_reference_checks() {
    let extractor = TodoExtractor::with_exclude_file_regex("todo-comments.md").unwrap();
    let extraction = extract_with(
        &extractor,
        &[("docs/todo-comments.md", "TODO github.com/nonexistent-user-12345/nonexistent-repo-67890#99999\n")],
    );
    assert!(extraction.references.is_empty());
    let result = check_closed_from_extraction(&extraction, &ProjectDetection::Undetected, CheckResult::new());
    assert!(result.closed.is_empty(), "Excluded file should not contribute closed references");
    assert!(result.not_found.is_empty(), "Excluded file should not trigger remote checks");
    assert_eq!(result.status, "success", "Excluded file content should not affect closed-check status");
}

#[test]
fn api_integration_test_test_excluded_file_regex_skips_closed_reference_checks() {
    let extractor = TodoExtractor::with_exclude_file_regex("todo-comments.md").unwrap();
    let extraction = extract_with(
        &extractor,
        &[("docs/todo-comments.md", "TODO github.com/nonexistent-user-12345/nonexistent-repo-67890#99999\n")],
    );
    let result = check_closed_from_extraction(&extraction, &ProjectDetection::Undetected, CheckResult::new());
    assert!(result.closed.is_empty());
    assert!(result.not_found.is_empty());
    assert_eq!(result.status, "success");
}

#[test]
fn api_integration_test_test_closed_check_ignores_lint_only_todos() {
    let extraction = extract(&[("test_closed_check_ignores_lints.rs", "// TODO without a reference\n")]);
    let result = check_closed_from_extraction(&extraction, &ProjectDetection::Undetected, CheckResult::new());
    assert!(result.closed.is_empty(), "No closed refs expected");
    assert!(result.not_found.is_empty(), "No not-found refs expected");
    assert!(result.lint_violations.is_empty(), "check-closed should ignore lint-only TODOs");
    assert_eq!(result.status, "success", "check-closed should succeed for lint-only TODOs");
}

#[test]
fn check_all_fails_when_the_merge_request_closes_referenced_issues() {
    let all = check_all_output(CheckOutput::empty_success(), CheckOutput::empty_success(), true);
    assert_eq!(all.status, "failure");
    let all = check_all_output(CheckOutput::empty_success(), CheckOutput::empty_success(), false);
    assert_eq!(all.status, "success");
}

#[test]
fn issue_outcomes_report_closed_titles_and_query_errors() {
    assert_eq!(gitlab_issue_outcome("g/p", Ok(("Old bug".to_string(), true))), Ok(Some("Old bug".to_string())));
    assert_eq!(gitlab_issue_outcome("g/p", Ok(("Open bug".to_string(), false))), Ok(None));
    assert_eq!(
        gitlab_issue_outcome("g/p", Err("404 Not Found".to_string())),
        Err("GitLab issue not found or inaccessible (project g/p): 404 Not Found".to_string())
    );
    assert_eq!(github_issue_outcome(Ok(("Done".to_string(), true))), Ok(Some("Done".to_string())));
    assert_eq!(
        github_issue_outcome(Err("Not Found".to_string())),
        Err("GitHub issue not found or inaccessible: Not Found".to_string())
    );
}

#[test]
fn merge_and_pull_request_outcomes() {
    assert_eq!(gitlab_mr_outcome(Some(("Merged MR".to_string(), false))), Some("Merged MR".to_string()));
    assert_eq!(gitlab_mr_outcome(Some(("Open MR".to_string(), true))), None);
    assert_eq!(gitlab_mr_outcome(None), None);
    assert_eq!(github_pr_outcome(Some((None, false))), Some("(no title)".to_string()));
    assert_eq!(github_pr_outcome(Some((Some("PR".to_string()), false))), Some("PR".to_string()));
    assert_eq!(github_pr_outcome(Some((Some("PR".to_string()), true))), None);
    assert_eq!(github_pr_outcome(None), None);
}

#[test]
fn epic_responses_are_read_from_json() {
    let body = |s: &str| EpicReply::Body(s.as_bytes().to_vec());
    assert_eq!(
        epic_outcome(&body(r#"{"state":"closed","title":"Big epic","iid":3}"#)),
        Ok(Some("Big epic".to_string()))
    );
    assert_eq!(epic_outcome(&body(r#"{"state":"closed"}"#)), Ok(Some("(no title)".to_string())));
    assert_eq!(epic_outcome(&body(r#"{"state":"opened","title":"Live"}"#)), Ok(None));
    assert_eq!(
        epic_outcome(&body(r#"{"message":"404 Not found"}"#)),
        Err("GitLab API error: 404 Not found".to_string())
    );
    assert_eq!(
        epic_outcome(&body(r#"{"title":"no state"}"#)),
        Err("Epic response missing 'state' field".to_string())
    );
    assert_eq!(epic_outcome(&body("not json")), Err("Failed to parse GitLab epic response".to_string()));
    assert_eq!(
        epic_outcome(&EpicReply::EndpointFailed),
        Err("Failed to build epic endpoint URL".to_string())
    );
    assert_eq!(epic_outcome(&EpicReply::QueryFailed), Err("Failed to query GitLab epic".to_string()));
    let fields = EpicFields { message: None, state: Some("closed".to_string()), title: None };
    assert_eq!(epic_fields_outcome(Some(fields)), Ok(Some("(no title)".to_string())));
}

#[test]
fn steps_without_a_query_settle_at_once() {
    assert_eq!(settled_outcome(&CheckStep::Skip), Some(Ok(None)));
    assert_eq!(settled_outcome(&CheckStep::Fail("why".to_string())), Some(Err("why".to_string())));
    let step = CheckStep::GitLabIssue { project: "g/p".to_string(), number: 1 };
    assert_eq!(settled_outcome(&step), None);
}

#[test]
fn recording_outcomes_sorts_references_into_closed_and_not_found() {
    let mut result = CheckResult::new();
    let a = local_issue(1, "// TODO #1: a", "a.rs", 1);
    let b = local_issue(2, "// TODO #2: b", "a.rs", 2);
    let c = local_issue(3, "// TODO #3: c", "a.rs", 3);
    result.record(&a, Ok(Some("Closed one".to_string())));
    result.record(&b, Ok(None));
    result.record(&c, Err("gone".to_string()));
    assert_eq!(result.closed.len(), 1);
    assert_eq!(result.closed[0].title, "Closed one");
    assert_eq!(result.closed[0].reference.display(), "#1");
    assert_eq!(result.not_found.len(), 1);
    assert_eq!(result.not_found[0].error, "gone");
    assert_eq!(result.not_found[0].reference.line_number(), 3);
    let output = CheckOutput::from_result(result, Vec::new());
    assert_eq!(output.status, "failure");
    assert!(output.has_errors());
}

#[test]
fn authentication_check_needs_one_client() {
    let err = auth_check(false, false, false, false).unwrap_err();
    assert!(err.starts_with("No authentication configured.\nSet GH_TOKEN (or GITHUB_TOKEN) and/or GITLAB_TOKEN"));
    assert!(err.ends_with("Optionally set GITLAB_URL for self-hosted GitLab (defaults to gitlab.com)."));
    assert_eq!(
        auth_check(true, false, true, false),
        Ok(vec!["GitLab token not set; GitLab TODO checking will be skipped.".to_string()])
    );
    assert_eq!(
        auth_check(false, true, false, true),
        Ok(vec!["GitHub token not set; GitHub TODO checking will be skipped.".to_string()])
    );
    assert_eq!(auth_check(true, true, true, true), Ok(Vec::new()));
}

#[test]
fn closing_keywords_find_issue_numbers_in_order() {
    let description = "Closes #12, fixes #7 and Resolved  #3. See #99. FIXED #4294967296, reclosed #8, closes#5, Fix #1";
    assert_eq!(closing_issue_numbers(description), Ok(vec![12, 7, 3, 8, 1]));
    assert_eq!(closing_issue_numbers("nothing here"), Ok(Vec::new()));
}

#[test]
fn only_the_first_merge_request_counts() {
    assert_eq!(merge_request_issues(&Vec::new()), Ok(Vec::new()));
    assert_eq!(merge_request_issues(&vec![None, Some("closes #1".to_string())]), Ok(Vec::new()));
    assert_eq!(
        merge_request_issues(&vec![Some("Fixes #4".to_string()), Some("closes #5".to_string())]),
        Ok(vec![4])
    );
}

#[test]
fn detached_head_picks_first_branch_that_is_not_jj_keep() {
    let branches = vec![
        ("jj/keep/abc".to_string(), true),
        ("main".to_string(), false),
        ("feature".to_string(), true),
        ("other".to_string(), true),
    ];
    assert_eq!(branch_at_head(&branches), Some("feature".to_string()));
    assert_eq!(branch_at_head(&vec![("main".to_string(), false)]), None);
}

#[test]
fn merge_request_checks_need_a_gitlab_project() {
    assert_eq!(merge_request_project(&ProjectDetection::GitLab("g/p".to_string())), Ok("g/p".to_string()));
    assert_eq!(
        merge_request_project(&ProjectDetection::GitHub("o/r".to_string())),
        Err("GitHub PR TODO checking not yet implemented".to_string())
    );
    assert_eq!(
        merge_request_project(&ProjectDetection::Undetected),
        Err("Could not detect project. Set CI_PROJECT_PATH or GITLAB_PROJECT environment variable.".to_string())
    );
}

#[test]
fn merge_request_issues_collect_local_references() {
    let extraction = extract(&[(
        "a.rs",
        "// TODO #12: a\n// TODO #12: b\n// TODO other/proj#12: c\n// TODO #13: d\n",
    )]);
    let issues = match_mr_issues(&extraction.references, &vec![12, 14, 13]);
    assert_eq!(issues.len(), 2);
    assert_eq!(issues[0].issue_number, 12);
    assert_eq!(issues[0].references.len(), 2);
    assert_eq!(issues[1].issue_number, 13);
    assert_eq!(issues[1].references.len(), 1);
    assert_eq!(mr_status(&issues), "failure");
    assert_eq!(
        flat(&mr_text_report(&issues)),
        vec![
            vec![piece(Style::YellowBold, "TODO comments that will be closed by this MR:")],
            vec![piece(Style::Yellow, "#12"), piece(Style::Plain, ": 2 reference(s) found")],
            vec![piece(Style::Yellow, "#13"), piece(Style::Plain, ": 1 reference(s) found")],
        ]
    );
    let none: Vec<MrIssue> = Vec::new();
    assert_eq!(mr_status(&none), "success");
    assert_eq!(
        flat(&mr_text_report(&none)),
        vec![vec![piece(Style::Green, "No TODOs reference issues closed by this MR.")]]
    );
}

#[test]
fn text_report_of_a_clean_run() {
    assert_eq!(
        flat(&text_report(&CheckOutput::empty_success())),
        vec![vec![piece(Style::Green, "All TODO references are valid.")]]
    );
}

#[test]
fn text_report_lists_every_section_in_order() {
    let closed = ClosedReference { reference: local_issue(5, "  // TODO #5: x  ", "src/a.rs", 3), title: "Old bug".to_string() };
    let missing = NotFoundReference { reference: local_issue(6, "", "src/b.rs", 10), error: "gone".to_string() };
    let url = TodoReference::new(
        TodoReferenceKind::GitHubIssueOrPr { repo: Some("o/r".to_string()), number: 7 },
        "// TODO https://github.com/o/r/issues/7",
        "src/c.rs",
        12,
        "https://github.com/o/r/issues/7",
        Some("github.com/o/r#7".to_string()),
    );
    let warning = ReferenceWarning {
        reference: url,
        original: "https://github.com/o/r/issues/7".to_string(),
        suggestion: "github.com/o/r#7".to_string(),
    };
    let violation = LintViolation {
        source_line: "// FIXME later".to_string(),
        file_path: "src/d.rs".to_string(),
        line_number: 4,
    };
    let output = CheckOutput {
        closed: vec![closed],
        not_found: vec![missing],
        warnings: vec![warning],
        lint_violations: vec![violation],
        status: "failure".to_string(),
    };
    let loc = |f: &str, n: &str| {
        vec![piece(Style::Plain, "  "), piece(Style::Bold, f), piece(Style::Plain, ":"), piece(Style::Bold, n)]
    };
    assert_eq!(
        flat(&text_report(&output)),
        vec![
            vec![piece(Style::RedBold, "TODO comments referencing closed issues/MRs:")],
            vec![piece(Style::Yellow, "#5"), piece(Style::Plain, ": Old bug")],
            loc("src/a.rs", "3"),
            vec![piece(Style::Plain, "  "), piece(Style::Dimmed, "// TODO #5: x")],
            vec![
                piece(Style::Plain, "\n"),
                piece(Style::RedBold, "TODO comments referencing non-existent or inaccessible issues/MRs:"),
            ],
            vec![piece(Style::Yellow, "#6"), piece(Style::Plain, ": gone")],
            loc("src/b.rs", "10"),
            vec![piece(Style::Plain, "\n"), piece(Style::YellowBold, "TODO references that can be shortened:")],
            vec![
                piece(Style::Yellow, "https://github.com/o/r/issues/7"),
                piece(Style::Plain, " -> "),
                piece(Style::Green, "github.com/o/r#7"),
            ],
            loc("src/c.rs", "12"),
            vec![piece(Style::Plain, "\n"), piece(Style::RedBold, "Invalid TODO-like comments:")],
            loc("src/d.rs", "4"),
            vec![piece(Style::Plain, "    "), piece(Style::Dimmed, "// FIXME later")],
        ]
    );
}

#[test]
fn checking_plans_follow_the_reference_and_the_detected_project() {
    let gitlab = ProjectDetection::GitLab("grp/sub/proj".to_string());
    let reference = |kind: TodoReferenceKind| TodoReference::new(kind, "", "a.rs", 1, "", None);
    let local = reference(TodoReferenceKind::GitLabIssue { project: None, number: 5 });
    assert_eq!(step_text(&plan_check(&gitlab, &local, true, true)), "gitlab issue grp/sub/proj 5");
    assert_eq!(step_text(&plan_check(&gitlab, &local, true, false)), "skip");
    assert_eq!(
        step_text(&plan_check(&ProjectDetection::Undetected, &local, true, true)),
        "fail: GitLab issue requires project path"
    );
    let mr = reference(TodoReferenceKind::GitLabMr { project: None, number: 8 });
    assert_eq!(step_text(&plan_check(&gitlab, &mr, false, true)), "gitlab mr grp/sub/proj 8");
    let bad_repo = reference(TodoReferenceKind::GitHubIssueOrPr { repo: Some("a/b/c".to_string()), number: 1 });
    assert_eq!(step_text(&plan_check(&gitlab, &bad_repo, true, true)), "fail: Invalid GitHub repo format: a/b/c");
    let local_github = reference(TodoReferenceKind::GitHubIssueOrPr { repo: None, number: 2 });
    assert_eq!(
        step_text(&plan_check(&ProjectDetection::GitHub("o/r".to_string()), &local_github, true, true)),
        "github issue o r 2"
    );
    assert_eq!(
        step_text(&plan_check(&gitlab, &local_github, true, true)),
        "fail: GitHub issue requires repository path"
    );
    let pr = reference(TodoReferenceKind::GitHubPr { repo: "o/r".to_string(), number: 3 });
    assert_eq!(step_text(&plan_check(&gitlab, &pr, true, true)), "github pr o r 3");
    assert_eq!(step_text(&plan_check(&gitlab, &pr, false, true)), "skip");
    let epic = reference(TodoReferenceKind::GitLabEpic { group: None, number: 3 });
    assert_eq!(step_text(&plan_check(&gitlab, &epic, true, true)), "gitlab epic groups/grp%2Fsub/epics/3");
    assert_eq!(
        step_text(&plan_check(&ProjectDetection::GitLab("proj".to_string()), &epic, true, true)),
        "fail: Cannot determine group from project path: proj"
    );
    assert_eq!(
        step_text(&plan_check(&ProjectDetection::Undetected, &epic, true, true)),
        "fail: GitLab epic requires group path"
    );
    let named_epic = reference(TodoReferenceKind::GitLabEpic { group: Some("g p".to_string()), number: 4 });
    assert_eq!(step_text(&plan_check(&gitlab, &named_epic, true, true)), "gitlab epic groups/g%20p/epics/4");
}

#[test]
fn epic_endpoints_percent_encode_the_group() {
    assert_eq!(epic_endpoint("a/b~c_d.e-f", 7), "groups/a%2Fb~c_d.e-f/epics/7");
    assert_eq!(epic_endpoint("caf\u{e9}", 12), "groups/caf%C3%A9/epics/12");
}

#[test]
fn project_paths_are_normalized() {
    assert_eq!(normalize_project_path("/group/proj.git"), "group/proj");
    assert_eq!(normalize_project_path("///a.git.git"), "a");
    assert_eq!(normalize_project_path("a/.git/"), "a/.git/");
    for p in ["/group/proj.git", "///a.git.git", "/.git", "x.gitx", ""] {
        let once = normalize_project_path(p);
        assert_eq!(normalize_project_path(&once), once);
    }
}

#[test]
fn projects_are_detected_from_ci_or_remote() {
    let d = detect_project_from(Some("/g/p.git"), Some("github.com"), Some("o/r"));
    assert!(matches!(d, ProjectDetection::GitLab(p) if p == "g/p"));
    let d = detect_project_from(None, Some("github.com"), Some("/o/r.git"));
    assert!(matches!(d, ProjectDetection::GitHub(p) if p == "o/r"));
    let d = detect_project_from(None, Some("gitlab.com"), Some("grp/proj.git"));
    assert!(matches!(d, ProjectDetection::GitLab(p) if p == "grp/proj"));
    assert!(matches!(
        detect_project_from(None, Some("example.com"), Some("x")),
        ProjectDetection::Undetected
    ));
    assert!(matches!(detect_project_from(None, None, Some("x")), ProjectDetection::Undetected));
}

#[test]
fn gitlab_hosts_are_reduced_to_the_host() {
    assert_eq!(normalize_gitlab_host(None), "gitlab.com");
    assert_eq!(normalize_gitlab_host(Some("  https://gitlab.example.com/ ")), "gitlab.example.com");
    assert_eq!(normalize_gitlab_host(Some("git@gitlab.example.com:group/repo.git")), "gitlab.example.com");
    assert_eq!(normalize_gitlab_host(Some("ssh://user@host.example:2222/path")), "host.example:2222");
    assert_eq!(normalize_gitlab_host(Some("host:group/repo")), "host");
    assert_eq!(normalize_gitlab_host(Some("http://gitlab.local:8080")), "gitlab.local:8080");
}

#[test]
fn token_types_are_lower_case_and_oauth_is_recognised() {
    assert_eq!(gitlab_token_type(None), "pat");
    assert_eq!(gitlab_token_type(Some("OAuth2")), "oauth2");
    assert!(uses_oauth("oauth2"));
    assert!(uses_oauth("bearer"));
    assert!(uses_oauth("oauth"));
    assert!(!uses_oauth("pat"));
}

#[test]
fn exclude_patterns_are_checked_when_built() {
    assert!(!TodoExtractor::default().is_excluded("anything.rs"));
    assert!(!TodoExtractor::new().is_excluded("anything.rs"));
    assert!(!TodoExtractor::with_exclude_file_regex("   ").unwrap().is_excluded("anything.rs"));
    match TodoExtractor::with_exclude_file_regex("(") {
        Err(e) => {
            let ExtractorError::InvalidExcludeRegex { pattern, .. } = &e;
            assert_eq!(pattern, "(");
            assert!(e.message().starts_with("Invalid --exclude-file-regex value '(': "));
        }
        Ok(_) => panic!("an unbalanced group is no valid pattern"),
    }
    let e = TodoExtractor::with_exclude_file_regex("^docs/").unwrap();
    assert!(e.is_excluded("docs/a.md"));
    assert!(!e.is_excluded("src/docs/a.md"));
}

#[test]
fn suggested_forms_are_accepted_short_references_to_the_same_item() {
    let extractor = TodoExtractor::new();
    let url = extractor
        .extract_token_reference("https://gitlab.com/group/sub/-/merge_requests/9", "", "a.rs", 1)
        .unwrap();
    let elsewhere = url.suggest_simplified_format(&ProjectDetection::Undetected).unwrap();
    assert_eq!(elsewhere.suggestion, "group/sub!9");
    let again = extractor.extract_token_reference(&elsewhere.suggestion, "", "a.rs", 1).unwrap();
    assert_eq!(kind_text(&again.kind), kind_text(&url.kind));
    assert!(again.recommended_format.is_none());

    let here = url.suggest_simplified_format(&ProjectDetection::GitLab("group/sub".to_string())).unwrap();
    assert_eq!(here.suggestion, "!9");
    let again = extractor.extract_token_reference(&here.suggestion, "", "a.rs", 1).unwrap();
    assert_eq!(kind_text(&again.kind), "mr None 9");

    let github = extractor
        .extract_token_reference("http://github.com/o/r/issues/7", "", "a.rs", 1)
        .unwrap();
    let w = github.suggest_simplified_format(&ProjectDetection::Undetected).unwrap();
    let again = extractor.extract_token_reference(&w.suggestion, "", "a.rs", 1).unwrap();
    assert_eq!(kind_text(&again.kind), kind_text(&github.kind));

    let epic = extractor
        .extract_token_reference("gitlab.com/groups/grp/sub/-/epics/4", "", "a.rs", 1)
        .unwrap();
    let w = epic.suggest_simplified_format(&ProjectDetection::GitLab("grp/sub/proj".to_string())).unwrap();
    assert_eq!(w.suggestion, "&4");
}

#[test]
fn a_suggested_path_outside_the_short_grammar_is_not_accepted() {
    let extractor = TodoExtractor::new();
    let url = extractor
        .extract_token_reference("https://gitlab.com/group/my.project/-/issues/1", "", "a.rs", 1)
        .unwrap();
    let w = url.suggest_simplified_format(&ProjectDetection::Undetected).unwrap();
    assert_eq!(w.suggestion, "group/my.project#1");
    assert!(extractor.extract_token_reference(&w.suggestion, "", "a.rs", 1).is_none());
}

#[test]
fn each_reference_is_kept_once() {
    let extraction = extract(&[("x.rs", "// TODO #1: a\n"), ("x.rs", "// TODO #1: a\n"), ("y.rs", "// TODO #1: a\n")]);
    assert_eq!(extraction.references.len(), 2);
}

#[test]
fn unconfigured_services_are_skipped() {
    let reference = TodoReference::new(
        TodoReferenceKind::GitHubPr { repo: "o/r".to_string(), number: 1 },
        "",
        "a.rs",
        1,
        "",
        None,
    );
    let step = plan_check(&ProjectDetection::Undetected, &reference, false, true);
    assert_eq!(settled_outcome(&step), Some(Ok(None)));
}

#[test]
fn the_schema_of_a_full_url_is_optional() {
    let e = TodoExtractor::new();
    for u in [
        "gitlab.com/g/p/-/issues/3",
        "gitlab.com/g/p/-/work_items/8",
        "gitlab.com/g/p/-/merge_requests/4",
        "gitlab.com/groups/g/s/-/epics/5",
        "github.com/o/r/issues/6",
        "github.com/o/r/pull/7",
    ] {
        let bare = e.extract_token_reference(u, "", "a.rs", 1).unwrap();
        for schema in ["https://", "http://"] {
            let full = e.extract_token_reference(&format!("{schema}{u}"), "", "a.rs", 1).unwrap();
            assert_eq!(kind_text(&full.kind), kind_text(&bare.kind));
            assert_eq!(full.recommended_format, bare.recommended_format);
        }
    }
    assert!(e.extract_token_reference("github.com/o/r#7", "", "a.rs", 1).is_some());
    assert!(e.extract_token_reference("https://github.com/o/r#7", "", "a.rs", 1).is_none());
}

fn source(relative_path: &str, text: &str) -> SourceFile {
    SourceFile {
        relative_path: relative_path.to_string(),
        file_path: format!("/repo/{relative_path}"),
        text: text.to_string(),
    }
}

#[test]
fn extraction_numbers_lines_and_skips_excluded_files() {
    let files = vec![
        source("src/a.rs", "fn main() {}\n// TODO #4: later\r\n\n// FIXME: now"),
        source("docs/notes.md", "TODO without a reference\n"),
        source("src/b.rs", "// TODO #4: later\n"),
    ];
    let result = extract_todos(&files, &vec!["^docs/".to_string(), " ".to_string()]).unwrap();
    assert_eq!(result.references.len(), 2);
    assert_eq!(result.references[0].file_path, "/repo/src/a.rs");
    assert_eq!(result.references[0].line_number, 2);
    assert_eq!(result.references[0].source_line, "// TODO #4: later");
    assert_eq!(result.references[1].file_path, "/repo/src/b.rs");
    assert_eq!(result.lint_violations.len(), 1);
    assert_eq!(result.lint_violations[0].line_number, 4);
    assert_eq!(result.lint_violations[0].source_line, "// FIXME: now");

    let everything = extract_todos(&files, &Vec::new()).unwrap();
    assert_eq!(everything.lint_violations.len(), 2);
    assert_eq!(everything.lint_violations[0].file_path, "/repo/docs/notes.md");
}

#[test]
fn extraction_stops_at_the_first_invalid_exclude_pattern() {
    let files = vec![source("a.rs", "// TODO #1: x\n")];
    match extract_todos(&files, &vec!["ok".to_string(), "[".to_string(), "(".to_string()]) {
        Err(ExtractorError::InvalidExcludeRegex { pattern, .. }) => assert_eq!(pattern, "["),
        Ok(_) => panic!("an unclosed class is no valid pattern"),
    }
}

#[test]
fn invalid_check_over_files() {
    let files = vec![
        source("a.rs", "// TODO https://gitlab.com/g/p/-/issues/3: x\n"),
        source("b.rs", "// TODO: nothing\n"),
    ];
    let output = check_invalid(&files, &ProjectDetection::GitLab("g/p".to_string()), &Vec::new()).unwrap();
    assert_eq!(output.status, "failure");
    assert_eq!(output.warnings.len(), 1);
    assert_eq!(output.warnings[0].suggestion, "#3");
    assert_eq!(output.lint_violations.len(), 1);
    assert_eq!(output.lint_violations[0].file_path, "/repo/b.rs");
    let clean = check_invalid(&vec![source("c.rs", "// TODO #3: ok\n")], &ProjectDetection::Undetected, &Vec::new())
        .unwrap();
    assert_eq!(clean.status, "success");
}

#[test]
fn several_references_need_parentheses() {
    let result = extract_todos(&vec![source("a.rs", "// TODO #1, #2: both\n// TODO(#1, #2): both\n")], &Vec::new())
        .unwrap();
    assert_eq!(result.lint_violations.len(), 1);
    assert_eq!(result.lint_violations[0].line_number, 1);
    assert_eq!(result.references.len(), 2);
    assert!(result.references.iter().all(|r| r.line_number == 2));
}

#[test]
fn pull_request_urls_get_a_shorter_form() {
    let e = TodoExtractor::new();
    let pr = e.extract_token_reference("https://github.com/o/r/pull/5", "", "a.rs", 1).unwrap();
    assert_eq!(kind_text(&pr.kind), "pr o/r 5");
    assert_eq!(pr.recommended_format.as_deref(), Some("github.com/o/r#5"));
    let w = pr.suggest_simplified_format(&ProjectDetection::Undetected).unwrap();
    assert_eq!(w.suggestion, "github.com/o/r#5");
    let again = e.extract_token_reference(&w.suggestion, "", "a.rs", 1).unwrap();
    assert_eq!(kind_text(&again.kind), "github Some(\"o/r\") 5");
    assert!(again.recommended_format.is_none());
}

#[test]
fn readable_text_stops_at_a_todo_like_line_that_is_not_utf8() {
    let lines = vec![
        Ok("a\n".to_string()),
        Err("b\u{fffd}\n".to_string()),
        Ok("c\n".to_string()),
        Err("// TODO \u{fffd}\n".to_string()),
        Ok("d\n".to_string()),
    ];
    assert_eq!(readable_text(&lines), ("a\nb\u{fffd}\nc\n".to_string(), true));
    assert_eq!(readable_text(&vec![Ok("x".to_string())]), ("x".to_string(), false));
}

#[test]
fn captured_groups_become_issue_numbers() {
    let groups = vec![Some("12".to_string()), None, Some("4294967296".to_string()), Some("7".to_string())];
    assert_eq!(captured_issue_numbers(&groups), vec![12, 7]);
}

#[test]
fn check_results_keep_reference_order() {
    let reference = |n: u32| TodoReference::new(TodoReferenceKind::GitLabIssue { project: None, number: n }, "", "a.rs", n as u64, "", None);
    let refs = vec![reference(1), reference(2), reference(3), reference(4)];
    let gitlab = ProjectDetection::GitLab("g/p".to_string());
    let answers = vec![
        Ok(Some("one".to_string())),
        Err("gone".to_string()),
        Ok(None),
        Ok(Some("four".to_string())),
    ];
    let result = check_result_of(&gitlab, &refs, false, true, &answers);
    assert_eq!(result.closed.len(), 2);
    assert_eq!(result.closed[0].title, "one");
    assert_eq!(result.closed[1].reference.line_number(), 4);
    assert_eq!(result.not_found.len(), 1);
    assert_eq!(result.not_found[0].error, "gone");
    let none = check_result_of(&gitlab, &refs, false, false, &answers);
    assert!(none.closed.is_empty() && none.not_found.is_empty());
    let undetected = check_result_of(&ProjectDetection::Undetected, &refs, false, true, &answers);
    assert_eq!(undetected.not_found.len(), 4);
    assert_eq!(undetected.not_found[0].error, "GitLab issue requires project path");
}
