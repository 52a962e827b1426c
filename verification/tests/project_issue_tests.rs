use rust4u_backend::domain_error::DomainError;
use rust4u_backend::issue::{
    status_from_str, status_to_str, InMemoryIssueRepository, IssueStatus, IssueUsecases,
};
use rust4u_backend::project::{InMemoryProjectRepository, ProjectUsecases};

fn project_usecases() -> ProjectUsecases<InMemoryProjectRepository> {
    ProjectUsecases::new(InMemoryProjectRepository::new())
}

fn issue_usecases() -> IssueUsecases<InMemoryIssueRepository> {
    IssueUsecases::new(InMemoryIssueRepository::new())
}

#[test]
fn project_then_issue_scenario() {
    let owner: u128 = 1;
    let mut projects = project_usecases();
    let project = projects
        .create_project(
            owner,
            "repo".to_string(),
            None,
            None,
            vec!["rust".to_string(), "cli".to_string()],
            100,
        )
        .unwrap();
    assert_eq!(project.owner_id, owner);
    assert_eq!(project.tags, vec!["rust".to_string(), "cli".to_string()]);
    let mut issues = issue_usecases();
    let bounty = 50.0f64.to_bits();
    let issue = issues
        .create_issue(project.id, "bug".to_string(), None, bounty, 110)
        .unwrap();
    assert!(matches!(issue.status, IssueStatus::Open));
    assert_eq!(issue.project_id, project.id);
    assert_eq!(f64::from_bits(issue.bounty_value_bits), 50.0);
}

#[test]
fn project_empty_name_is_invalid_and_writes_nothing() {
    let mut projects = project_usecases();
    let r = projects.create_project(1, "".to_string(), None, None, vec![], 1);
    match r {
        Err(DomainError::InvalidData(m)) => assert_eq!(m, "Project name cannot be empty"),
        _ => panic!("empty project name must be rejected as invalid data"),
    }
    assert_eq!(projects.list_projects().unwrap().len(), 0);
}

#[test]
fn issue_empty_title_is_invalid_and_writes_nothing() {
    let mut issues = issue_usecases();
    let r = issues.create_issue(1, "".to_string(), None, 0, 1);
    match r {
        Err(DomainError::InvalidData(m)) => assert_eq!(m, "Issue title cannot be empty"),
        _ => panic!("empty issue title must be rejected as invalid data"),
    }
    assert_eq!(issues.list_issues().unwrap().len(), 0);
}

#[test]
fn project_lists_are_ordered_newest_first() {
    let mut projects = project_usecases();
    let p1 = projects
        .create_project(1, "one".to_string(), None, None, vec![], 10)
        .unwrap();
    let p2 = projects
        .create_project(2, "two".to_string(), None, None, vec![], 20)
        .unwrap();
    let p3 = projects
        .create_project(1, "three".to_string(), None, None, vec![], 30)
        .unwrap();
    let listed = projects.list_projects().unwrap();
    assert_eq!(listed.len(), 3);
    assert_eq!(listed[0].id, p3.id);
    assert_eq!(listed[1].id, p2.id);
    assert_eq!(listed[2].id, p1.id);
    let owned = projects.get_projects_by_owner(1).unwrap();
    assert_eq!(owned.len(), 2);
    assert_eq!(owned[0].id, p3.id);
    assert_eq!(owned[1].id, p1.id);
}

#[test]
fn issue_lists_are_ordered_newest_first_and_filtered_by_project() {
    let mut issues = issue_usecases();
    let i1 = issues
        .create_issue(7, "a".to_string(), None, 0, 10)
        .unwrap();
    let i2 = issues
        .create_issue(8, "b".to_string(), None, 0, 20)
        .unwrap();
    let i3 = issues
        .create_issue(7, "c".to_string(), None, 0, 30)
        .unwrap();
    let listed = issues.list_issues().unwrap();
    assert_eq!(listed.len(), 3);
    assert_eq!(listed[0].id, i3.id);
    assert_eq!(listed[1].id, i2.id);
    assert_eq!(listed[2].id, i1.id);
    let of_seven = issues.get_issues_by_project(7).unwrap();
    assert_eq!(of_seven.len(), 2);
    assert_eq!(of_seven[0].id, i3.id);
    assert_eq!(of_seven[1].id, i1.id);
}

#[test]
fn project_update_merges_fields() {
    let mut projects = project_usecases();
    let p = projects
        .create_project(
            1,
            "original".to_string(),
            Some("desc".to_string()),
            None,
            vec!["t1".to_string()],
            10,
        )
        .unwrap();
    let updated = projects
        .update_project(
            p.id,
            Some("".to_string()),
            None,
            Some("https://example.com/repo".to_string()),
            Some(vec!["t2".to_string(), "t3".to_string()]),
            20,
        )
        .unwrap();
    assert_eq!(updated.name, "original");
    assert_eq!(updated.description, Some("desc".to_string()));
    assert_eq!(
        updated.github_link,
        Some("https://example.com/repo".to_string())
    );
    assert_eq!(updated.tags, vec!["t2".to_string(), "t3".to_string()]);
    assert_eq!(updated.updated_at, Some(20));
    assert_eq!(updated.created_at, 10);
}

#[test]
fn issue_update_merges_fields_and_any_status_transition_is_allowed() {
    let mut issues = issue_usecases();
    let i = issues
        .create_issue(1, "bug".to_string(), None, 5.0f64.to_bits(), 10)
        .unwrap();
    let updated = issues
        .update_issue(
            i.id,
            Some("".to_string()),
            Some("details".to_string()),
            Some((-3.5f64).to_bits()),
            Some(IssueStatus::Approved),
            20,
        )
        .unwrap();
    assert_eq!(updated.title, "bug");
    assert_eq!(updated.description, Some("details".to_string()));
    assert_eq!(f64::from_bits(updated.bounty_value_bits), -3.5);
    assert!(matches!(updated.status, IssueStatus::Approved));
    assert_eq!(updated.updated_at, Some(20));
    // the narrow status write permits any transition and keeps the stamp
    issues.update_issue_status(i.id, IssueStatus::Open).unwrap();
    let back = issues.get_issue(i.id).unwrap();
    assert!(matches!(back.status, IssueStatus::Open));
    assert_eq!(back.updated_at, Some(20));
}

#[test]
fn deletes_are_idempotent_for_projects_and_issues() {
    let mut projects = project_usecases();
    let p = projects
        .create_project(1, "p".to_string(), None, None, vec![], 1)
        .unwrap();
    assert!(projects.delete_project(p.id).is_ok());
    assert!(projects.delete_project(p.id).is_ok());
    assert!(projects.delete_project(123456).is_ok());
    let mut issues = issue_usecases();
    let i = issues.create_issue(1, "i".to_string(), None, 0, 1).unwrap();
    assert!(issues.delete_issue(i.id).is_ok());
    assert!(issues.delete_issue(i.id).is_ok());
    assert!(issues.delete_issue(123456).is_ok());
}

#[test]
fn unknown_ids_are_not_found_on_reads_and_updates() {
    let projects = project_usecases();
    assert!(matches!(
        projects.get_project(5),
        Err(DomainError::NotFound(_))
    ));
    let mut issues = issue_usecases();
    assert!(matches!(issues.get_issue(5), Err(DomainError::NotFound(_))));
    assert!(matches!(
        issues.update_issue(5, None, None, None, None, 1),
        Err(DomainError::NotFound(_))
    ));
}

#[test]
fn status_strings_round_trip_exactly() {
    let all = [
        IssueStatus::Open,
        IssueStatus::InReview,
        IssueStatus::Approved,
        IssueStatus::Disputed,
    ];
    for st in all {
        assert_eq!(status_from_str(status_to_str(st)), Some(st));
    }
    assert_eq!(status_to_str(IssueStatus::Open), "open");
    assert_eq!(status_to_str(IssueStatus::InReview), "in_review");
    assert_eq!(status_to_str(IssueStatus::Approved), "approved");
    assert_eq!(status_to_str(IssueStatus::Disputed), "disputed");
    assert_eq!(status_from_str("nonsense"), None);
    assert_eq!(status_from_str(""), None);
}
