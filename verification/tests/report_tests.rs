use memoq::analytics::{check_project_found, check_user_found, team_csv, AnalyticsQuery, TeamDailyRow};
use memoq::error::AppError;

fn s(x: &str) -> String {
    x.to_string()
}

#[test]
fn query_window_defaults() {
    let q = AnalyticsQuery { from: None, to: None, format: None };
    assert_eq!(q.from_clause(), "1970-01-01");
    assert_eq!(q.to_clause(), "9999-12-31");
    assert!(!q.is_csv());
    let q = AnalyticsQuery { from: Some(s("2024-01-01")), to: Some(s("2024-02-01")), format: Some(s("csv")) };
    assert_eq!((q.from_clause().as_str(), q.to_clause().as_str(), q.is_csv()), ("2024-01-01", "2024-02-01", true));
    assert!(!AnalyticsQuery { from: None, to: None, format: Some(s("CSV")) }.is_csv());
}

#[test]
fn team_report_in_csv() {
    let rows = vec![
        TeamDailyRow { date: s("2024-01-02"), user_id: s("u1"), username: s("alice"), segments_saved: 12, segments_confirmed: 0 },
        TeamDailyRow { date: s("2024-01-03"), user_id: s("u2"), username: s("bob"), segments_saved: -1, segments_confirmed: 7 },
    ];
    assert_eq!(
        team_csv(&rows),
        "date,user_id,username,segments_saved,segments_confirmed\n2024-01-02,u1,alice,12,0\n2024-01-03,u2,bob,-1,7\n"
    );
    assert_eq!(team_csv(&vec![]), "date,user_id,username,segments_saved,segments_confirmed\n");
}

#[test]
fn reports_name_existing_subjects() {
    assert!(matches!(check_user_found(None), Err(AppError::NotFound(m)) if m == "User not found"));
    assert_eq!(check_user_found(Some(s("alice"))).ok().unwrap(), "alice");
    assert!(matches!(check_project_found(0), Err(AppError::NotFound(m)) if m == "Project not found"));
    assert!(check_project_found(1).is_ok());
}
