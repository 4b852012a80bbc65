use todo_curator::checker::{CheckResult, ProjectDetection};
use todo_curator::todo::{Extraction, ExtractionResult, TodoExtractor, TodoReference, TodoReferenceKind};
use todo_curator::{check_closed_from_extraction, check_invalid_from_extraction};

/// Scans `content` as the file `file_path`, line by line as a searcher delivers lines.
fn extract(files: &[(&str, &str)]) -> ExtractionResult {
    let mut extraction = Extraction::new();
    for (file_path, content) in files {
        for (i, line) in content.split_inclusive('\n').enumerate() {
            extraction.add_line(line, file_path, i as u64 + 1);
        }
    }
    extraction.finish()
}

fn has_gitlab_issue(refs: &[TodoReference], project: Option<&str>, number: u32) -> bool {
    refs.iter().any(|r| match &r.kind {
        TodoReferenceKind::GitLabIssue { project: p, number: n } => {
            *n == number && p.as_deref() == project
        }
        _ => false,
    })
}

fn has_github_issue(refs: &[TodoReference], repo: &str, number: u32) -> bool {
    refs.iter().any(|r| match &r.kind {
        TodoReferenceKind::GitHubIssueOrPr { repo: Some(p), number: n } => *n == number && p == repo,
        _ => false,
    })
}

fn has_mr(refs: &[TodoReference], project: Option<&str>, number: u32) -> bool {
    refs.iter().any(|r| match &r.kind {
        TodoReferenceKind::GitLabMr { project: p, number: n } => *n == number && p.as_deref() == project,
        _ => false,
    })
}

fn has_epic(refs: &[TodoReference], group: Option<&str>, number: u32) -> bool {
    refs.iter().any(|r| match &r.kind {
        TodoReferenceKind::GitLabEpic { group: g, number: n } => *n == number && g.as_deref() == group,
        _ => false,
    })
}

#[test]
fn test_epic_extraction() {
    let content = r#"
// TODO &17: local epic reference
// TODO rigetti/qcs/services&42: epic with group path
// TODO https://gitlab.com/groups/rigetti/qcs/services/-/epics/123: full URL
// TODO gitlab.com/groups/rigetti/qcs/services/-/epics/456: URL without schema
"#;
    let extraction = extract(&[("test_epic_extraction.rs", content)]);
    let refs = &extraction.references;
    let epics = refs
        .iter()
        .filter(|r| matches!(r.kind, TodoReferenceKind::GitLabEpic { .. }))
        .count();
    assert!(epics >= 4, "Should extract at least 4 epic references. Found: {}", epics);
    assert!(has_epic(refs, None, 17), "Should find local epic &17");
    assert!(has_epic(refs, Some("rigetti/qcs/services"), 42), "Should find epic rigetti/qcs/services&42");
    assert!(has_epic(refs, Some("rigetti/qcs/services"), 123), "Should find epic from full URL");
    assert!(has_epic(refs, Some("rigetti/qcs/services"), 456), "Should find epic from URL without schema");
}

#[test]
fn test_extractor_reports_fixme_as_invalid_todo_like() {
    let extraction = extract(&[("fixme.rs", "// FIXME: remove this workaround\n")]);
    assert_eq!(
        extraction.lint_violations.len(),
        1,
        "Expected one invalid TODO-like violation from FIXME. Found: {:#?}",
        extraction.lint_violations
    );
}

#[test]
fn test_invalid_projection_includes_simplification_warnings() {
    let extraction = extract(&[("sample.rs", "// TODO https://github.com/foo/bar/issues/123:\n")]);
    let output = check_invalid_from_extraction(&extraction, &ProjectDetection::Undetected)
        .expect("Failed to project invalid check");
    assert!(output.lint_violations.is_empty(), "Should have no lint violations");
    assert!(
        !output.warnings.is_empty(),
        "check-invalid projection should include simplification warnings"
    );
    assert_eq!(output.warnings[0].suggestion, "github.com/foo/bar#123");
    assert_eq!(output.status, "failure");
}

#[test]
fn integration_test_test_closed_check_ignores_lint_only_todos() {
    let extraction = extract(&[("test_closed_check_ignores_lints.rs", "// TODO without a reference\n")]);
    assert_eq!(extraction.lint_violations.len(), 1);
    let result = check_closed_from_extraction(
        &extraction,
        &ProjectDetection::Undetected,
        CheckResult { closed: Vec::new(), not_found: Vec::new() },
    );
    assert!(result.closed.is_empty(), "No closed refs expected");
    assert!(result.not_found.is_empty(), "No not-found refs expected");
    assert!(result.lint_violations.is_empty(), "check-closed should ignore lint-only TODOs");
    assert_eq!(result.status, "success", "check-closed should succeed for lint-only TODOs");
}

#[test]
fn integration_test_test_performance_reference_skips_remote_checks() {
    let extraction = extract(&[("test_performance_reference.rs", "// TODO performance: local-only marker\n")]);
    assert!(extraction.references.is_empty());
    assert!(extraction.lint_violations.is_empty(), "`performance` should not create lint violations.");
    let result = check_closed_from_extraction(
        &extraction,
        &ProjectDetection::Undetected,
        CheckResult { closed: Vec::new(), not_found: Vec::new() },
    );
    assert!(result.closed.is_empty());
    assert!(result.not_found.is_empty());
    assert!(result.lint_violations.is_empty());
    assert_eq!(result.status, "success", "`performance` TODO should produce success status");
}

#[test]
fn api_integration_test_test_performance_reference_skips_remote_checks() {
    let extraction = extract(&[("test_performance_reference.rs", "// TODO performance - local-only marker\n")]);
    assert!(extraction.references.is_empty());
    assert!(extraction.lint_violations.is_empty(), "`performance` should not create lint violations.");
}

#[test]
fn test_lint_valid_patterns() {
    let content = r#"
// TODO #123:
// TODO rigetti/qcs/magneto#229:
// TODO github.com/owner/repo#456:
// TODO !789:
// TODO rigetti/qcs/magneto!100:
// TODO &17:
// TODO rigetti/qcs/services&42:
// TODO performance: allowed exception
// TODO(#123) parenthesized local issue
// TODO(rigetti/qcs/magneto#229) parenthesized GitLab issue
// TODO(github.com/owner/repo#456) parenthesized GitHub issue
// TODO(!789) parenthesized MR
// TODO(&17) parenthesized epic
// TODO (#321) parenthesized local issue with spacing
// TODO (rigetti/qcs/magneto#654) parenthesized GitLab issue with spacing
// TODO (github.com/owner/repo#987) parenthesized GitHub issue with spacing
// TODO (!222) parenthesized MR with spacing
// TODO (&333) parenthesized epic with spacing
// TODO(#7, #8, github.com/foo/bar#1) parenthesized comma-delimited refs
// TODO( #9 , rigetti/qcs/magneto#10 , github.com/owner/repo#11 ) parenthesized comma-delimited refs with spacing
// using todo-curator in a comment is fine
"#;
    let extraction = extract(&[("good.rs", content)]);
    assert!(
        extraction.lint_violations.is_empty(),
        "Valid TODO patterns should not produce extraction violations. Got: {:#?}",
        extraction.lint_violations
    );
}

#[test]
fn test_lint_exclude_file_regexes() {
    let extractor = TodoExtractor::with_exclude_file_regex("skip_me\\.rs$").unwrap();
    let files = [("skip_me.rs", "// TODO without a reference\n"), ("include_me.rs", "// TODO without a reference\n")];
    let mut extraction = Extraction::new();
    for (path, content) in files {
        if extractor.is_excluded(path) {
            continue;
        }
        for (i, line) in content.split_inclusive('\n').enumerate() {
            extraction.add_line(line, path, i as u64 + 1);
        }
    }
    let extraction = extraction.finish();
    assert_eq!(extraction.lint_violations.len(), 1);
    assert!(extraction.lint_violations[0].file_path.contains("include_me.rs"));
}

#[test]
fn test_lint_violations_are_deduplicated() {
    let extraction = extract(&[(".gitlab-ci.yml", "# FIXME\n"), (".gitlab-ci.yml", "# FIXME\n")]);
    assert_eq!(
        extraction.lint_violations.len(),
        1,
        "Expected deduplicated lint violations. Found: {:#?}",
        extraction.lint_violations
    );
}

#[test]
fn test_lowercase_todo_temp_require_comment_indicator() {
    let content = r#"
temp
todo
todo-item
# temp
// todo
# todo-curator
"#;
    let extraction = extract(&[("note.txt", content)]);
    assert_eq!(
        extraction.lint_violations.len(),
        2,
        "Expected only comment-marked lowercase todo/temp (excluding todo-) to lint. Found: {:#?}",
        extraction.lint_violations
    );
    assert!(extraction.lint_violations.iter().any(|v| v.source_line == "# temp"));
    assert!(extraction.lint_violations.iter().any(|v| v.source_line == "// todo"));
}

#[test]
fn test_extractor_reports_incorrect_todo_syntax() {
    let content = r#"
// TODO without a ticket reference
// TODO: still no ticket
// TODO #123: valid
"#;
    let extraction = extract(&[("bad_todos.rs", content)]);
    assert_eq!(
        extraction.lint_violations.len(),
        2,
        "Expected two extraction violations from extractor. Found: {:#?}",
        extraction.lint_violations
    );
}

#[test]
fn test_extractor_multiple_todos_on_one_line() {
    let content = "\n// TODO (#7) TODO #18: TODO(#1,#2)\n";
    let extraction = extract(&[("multi_todo.rs", content)]);
    for number in [7_u32, 18_u32, 1_u32, 2_u32] {
        assert!(
            has_gitlab_issue(&extraction.references, None, number),
            "Should extract local issue #{} from multiple TODOs on one line. Got: {:#?}",
            number,
            extraction.references
        );
    }
}

#[test]
fn test_parenthesized_todo_extraction() {
    let content = r#"
// TODO(#100) local GitLab issue
// TODO(rigetti/qcs/magneto#200) cross-project GitLab issue
// TODO(github.com/owner/repo#300) GitHub issue
// TODO(!400) local MR
// TODO(rigetti/qcs/magneto!500) cross-project MR
// TODO(&600) local epic
// TODO(rigetti/qcs/services&700) epic with group
// TODO (#800) local GitLab issue with spacing
// TODO (rigetti/qcs/magneto#810) cross-project GitLab issue with spacing
// TODO (github.com/owner/repo#820) GitHub issue with spacing
// TODO (!830) local MR with spacing
// TODO (&840) local epic with spacing
// TODO(#7, #8, github.com/foo/bar#1) comma-delimited refs
// TODO( #9 , rigetti/qcs/magneto#10 , github.com/owner/repo#11 ) comma-delimited refs with spacing
"#;
    let extraction = extract(&[("parens.rs", content)]);
    let refs = &extraction.references;
    assert!(has_gitlab_issue(refs, None, 100));
    assert!(has_gitlab_issue(refs, Some("rigetti/qcs/magneto"), 200));
    assert!(has_github_issue(refs, "owner/repo", 300));
    assert!(has_mr(refs, None, 400));
    assert!(has_mr(refs, Some("rigetti/qcs/magneto"), 500));
    assert!(has_epic(refs, None, 600));
    assert!(has_epic(refs, Some("rigetti/qcs/services"), 700));
    assert!(has_gitlab_issue(refs, None, 800));
    assert!(has_gitlab_issue(refs, Some("rigetti/qcs/magneto"), 810));
    assert!(has_github_issue(refs, "owner/repo", 820));
    assert!(has_mr(refs, None, 830));
    assert!(has_epic(refs, None, 840));
    for number in [7_u32, 8_u32, 9_u32] {
        assert!(has_gitlab_issue(refs, None, number), "missing #{number}");
    }
    assert!(has_gitlab_issue(refs, Some("rigetti/qcs/magneto"), 10));
    for (repo, number) in [("foo/bar", 1_u32), ("owner/repo", 11_u32)] {
        assert!(has_github_issue(refs, repo, number), "missing github.com/{repo}#{number}");
    }
}

#[test]
fn test_gitlab_work_item_url_extraction() {
    let content = r#"
// TODO https://gitlab.com/rigetti/qcs/services/compute-v2/-/work_items/123:
// TODO gitlab.com/rigetti/qcs/services/compute-v2/-/work_items/456:
"#;
    let extraction = extract(&[("work_items.rs", content)]);
    let refs = &extraction.references;
    assert!(has_gitlab_issue(refs, Some("rigetti/qcs/services/compute-v2"), 123));
    assert!(has_gitlab_issue(refs, Some("rigetti/qcs/services/compute-v2"), 456));
}

#[test]
fn test_cross_project_shorthand_disambiguation() {
    let content = r#"
// TODO owner/repo#7: rendered shorthand resolves as GitLab issue
// TODO github.com/owner/repo#7: explicit GitHub shorthand
"#;
    let extraction = extract(&[("shorthand.rs", content)]);
    assert!(extraction.lint_violations.is_empty(), "Expected no lint violations. Got: {:#?}", extraction.lint_violations);
    assert!(has_gitlab_issue(&extraction.references, Some("owner/repo"), 7));
    assert!(has_github_issue(&extraction.references, "owner/repo", 7));
}

#[test]
fn references_keep_line_and_recommended_form() {
    let extraction = extract(&[("a.rs", "x\n  // TODO https://gitlab.com/g/p/-/issues/007 more  \n")]);
    assert_eq!(extraction.references.len(), 1);
    let r = &extraction.references[0];
    assert_eq!(r.line_number, 2);
    assert_eq!(r.source_line, "// TODO https://gitlab.com/g/p/-/issues/007 more");
    assert_eq!(r.original_reference, "https://gitlab.com/g/p/-/issues/007");
    assert_eq!(r.recommended_format.as_deref(), Some("g/p#7"));
    assert_eq!(r.display(), "g/p#7");
}
