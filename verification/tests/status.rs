use plinko::status::{
    build_worker_ids, cycle_status, resolve_status, status_display_name, Status, StatusMapping,
    UserMapping,
};

#[test]
fn display_names() {
    assert_eq!(status_display_name(Status::NotStarted), "Not Started");
    assert_eq!(status_display_name(Status::InProgress), "In Progress");
    assert_eq!(status_display_name(Status::OnHold), "On Hold");
    assert_eq!(status_display_name(Status::Complete), "Complete");
    assert_eq!(status_display_name(Status::Dropped), "Dropped");
}

#[test]
fn cycling_visits_every_status_and_returns() {
    let mut s = Status::NotStarted;
    let mut seen = Vec::new();
    for _ in 0..5 {
        seen.push(s);
        s = cycle_status(s);
    }
    assert_eq!(s, Status::NotStarted);
    assert_eq!(
        seen,
        vec![
            Status::NotStarted,
            Status::InProgress,
            Status::OnHold,
            Status::Complete,
            Status::Dropped
        ]
    );
}

#[test]
fn status_resolution() {
    let ms = vec![
        StatusMapping { monday_label: "Done".to_string(), plinko_status: Status::Complete },
        StatusMapping { monday_label: "Working on it".to_string(), plinko_status: Status::InProgress },
        StatusMapping { monday_label: "Done".to_string(), plinko_status: Status::Dropped },
    ];
    assert_eq!(resolve_status(Some("Done"), &ms), Status::Complete);
    assert_eq!(resolve_status(Some("Working on it"), &ms), Status::InProgress);
    assert_eq!(resolve_status(Some("Stuck"), &ms), Status::NotStarted);
    assert_eq!(resolve_status(None, &ms), Status::NotStarted);
}

#[test]
fn worker_ids_follow_mappings() {
    let ms = vec![
        UserMapping { monday_user_id: "m1".to_string(), plinko_user_id: Some(11) },
        UserMapping { monday_user_id: "m2".to_string(), plinko_user_id: None },
        UserMapping { monday_user_id: "m3".to_string(), plinko_user_id: Some(33) },
    ];
    let assigned = vec!["m3".to_string(), "m2".to_string(), "m9".to_string(), "m1".to_string()];
    assert_eq!(build_worker_ids(&assigned, &ms), vec![33, 11]);
    assert!(build_worker_ids(&Vec::new(), &ms).is_empty());
}
