use todo_curator::checker::ProjectDetection;
use todo_curator::collect_url_shortening_warnings;
use todo_curator::todo::{TodoReference, TodoReferenceKind};

fn reference(
    kind: TodoReferenceKind,
    source_line: &str,
    line_number: u64,
    original: &str,
    recommended: &str,
) -> TodoReference {
    TodoReference {
        kind,
        source_line: source_line.to_string(),
        file_path: "sample.rs".to_string(),
        line_number,
        original_reference: original.to_string(),
        recommended_format: Some(recommended.to_string()),
    }
}

#[test]
fn warns_and_suggests_short_form_for_same_gitlab_project_issue_url() {
    let refs = vec![reference(
        TodoReferenceKind::GitLabIssue {
            project: Some("foo/bar/baz".to_string()),
            number: 7,
        },
        "// TODO https://gitlab.com/foo/bar/baz/-/issues/7",
        10,
        "https://gitlab.com/foo/bar/baz/-/issues/7",
        "foo/bar/baz#7",
    )];

    let warnings = collect_url_shortening_warnings(
        &ProjectDetection::GitLab("foo/bar/baz".to_string()),
        &refs,
    );

    assert_eq!(warnings.len(), 1);
    assert_eq!(warnings[0].suggestion, "#7");
}

#[test]
fn warns_and_suggests_project_scoped_form_for_external_gitlab_issue_url() {
    let refs = vec![reference(
        TodoReferenceKind::GitLabIssue {
            project: Some("foo/bar/baz".to_string()),
            number: 7,
        },
        "// TODO https://gitlab.com/foo/bar/baz/-/work_items/7",
        20,
        "https://gitlab.com/foo/bar/baz/-/work_items/7",
        "foo/bar/baz#7",
    )];

    let warnings = collect_url_shortening_warnings(
        &ProjectDetection::GitLab("other/team/project".to_string()),
        &refs,
    );

    assert_eq!(warnings.len(), 1);
    assert_eq!(warnings[0].suggestion, "foo/bar/baz#7");
}

#[test]
fn warns_and_suggests_github_prefixed_form_for_same_github_repo_issue_url() {
    let refs = vec![reference(
        TodoReferenceKind::GitHubIssueOrPr {
            repo: Some("owner/repo".to_string()),
            number: 7,
        },
        "// TODO https://github.com/owner/repo/issues/7",
        10,
        "https://github.com/owner/repo/issues/7",
        "github.com/owner/repo#7",
    )];

    let warnings = collect_url_shortening_warnings(
        &ProjectDetection::GitHub("owner/repo".to_string()),
        &refs,
    );

    assert_eq!(warnings.len(), 1);
    // A bare #N would read as a GitLab reference, so the github.com/ prefix stays.
    assert_eq!(warnings[0].suggestion, "github.com/owner/repo#7");
}

#[test]
fn warns_and_suggests_github_prefixed_form_for_cross_repo_github_issue_url() {
    let refs = vec![reference(
        TodoReferenceKind::GitHubIssueOrPr {
            repo: Some("owner/repo".to_string()),
            number: 7,
        },
        "// TODO https://github.com/owner/repo/issues/7",
        10,
        "https://github.com/owner/repo/issues/7",
        "github.com/owner/repo#7",
    )];

    let warnings = collect_url_shortening_warnings(
        &ProjectDetection::GitHub("other/project".to_string()),
        &refs,
    );

    assert_eq!(warnings.len(), 1);
    assert_eq!(warnings[0].suggestion, "github.com/owner/repo#7");
}

#[test]
fn warnings_are_deduplicated_and_sorted() {
    let a = reference(
        TodoReferenceKind::GitLabMr {
            project: Some("g/p".to_string()),
            number: 3,
        },
        "// TODO gitlab.com/g/p/-/merge_requests/3",
        9,
        "gitlab.com/g/p/-/merge_requests/3",
        "g/p!3",
    );
    let b = reference(
        TodoReferenceKind::GitLabEpic {
            group: Some("g".to_string()),
            number: 4,
        },
        "// TODO gitlab.com/groups/g/-/epics/4",
        2,
        "gitlab.com/groups/g/-/epics/4",
        "g&4",
    );
    let plain = TodoReference {
        recommended_format: None,
        ..b.clone()
    };
    let refs = vec![a.clone(), b.clone(), a.clone(), plain];
    let warnings = collect_url_shortening_warnings(&ProjectDetection::GitLab("g/p".to_string()), &refs);
    assert_eq!(warnings.len(), 2);
    assert_eq!(warnings[0].reference.line_number, 2);
    assert_eq!(warnings[0].suggestion, "&4");
    assert_eq!(warnings[1].reference.line_number, 9);
    assert_eq!(warnings[1].suggestion, "!3");
}
