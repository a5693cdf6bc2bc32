use plinko::auth::{check_credentials, hash_password, new_account_hash, password_change_hash};
use plinko::auth::{
    active_org_switch, check_session_expiry, credentials_outcome, expiry_outcome,
    filter_visible_plans, is_admin_role, org_requirement, org_role_from_str, plan_visible,
    resolve_active_org, session_expiry, validate_email, AuthError, OrgMembership, OrgRole,
    PlanAccess,
};

#[test]
fn email_validation() {
    assert!(validate_email("a@b.co").is_ok());
    assert!(validate_email("  user@example.com \n").is_ok());
    assert!(matches!(validate_email("@b.co"), Err(AuthError::InvalidEmail)));
    assert!(matches!(validate_email("ab.co"), Err(AuthError::InvalidEmail)));
    assert!(matches!(validate_email("a@"), Err(AuthError::InvalidEmail)));
    assert!(matches!(validate_email("a@bco"), Err(AuthError::InvalidEmail)));
    assert!(matches!(validate_email("a@.co"), Err(AuthError::InvalidEmail)));
    assert!(matches!(validate_email("a@b."), Err(AuthError::InvalidEmail)));
    assert!(matches!(validate_email("a b@c.de"), Err(AuthError::InvalidEmail)));
    assert!(validate_email("root@local.host").is_ok());
}

#[test]
fn roles() {
    assert_eq!(org_role_from_str("Admin"), OrgRole::Admin);
    assert_eq!(org_role_from_str("User"), OrgRole::User);
    assert_eq!(org_role_from_str("Viewer"), OrgRole::Viewer);
    assert_eq!(org_role_from_str("admin"), OrgRole::Viewer);
    assert!(is_admin_role(Some(OrgRole::Admin)));
    assert!(!is_admin_role(Some(OrgRole::User)));
    assert!(!is_admin_role(None));
}

#[test]
fn credentials() {
    let acct = Some(("u1".to_string(), "hash".to_string(), false));
    assert!(matches!(credentials_outcome(None, Some(true)), Err(AuthError::InvalidCredentials)));
    assert!(matches!(
        credentials_outcome(acct.clone(), Some(false)),
        Err(AuthError::InvalidCredentials)
    ));
    assert!(matches!(credentials_outcome(acct.clone(), None), Err(AuthError::InvalidCredentials)));
    match credentials_outcome(acct, Some(true)) {
        Ok((id, admin)) => {
            assert_eq!(id, "u1");
            assert!(!admin);
        }
        Err(_) => panic!("expected success"),
    }
}

#[test]
fn check_credentials_against_real_hash() {
    let hash = bcrypt::hash("secret", 4).unwrap();
    let acct = Some(("u2".to_string(), hash, true));
    assert!(plinko::auth::check_credentials(acct.clone(), "secret").is_ok());
    assert!(plinko::auth::check_credentials(acct, "wrong").is_err());
    let broken = Some(("u3".to_string(), "not a hash".to_string(), true));
    assert!(plinko::auth::check_credentials(broken, "secret").is_err());
}

#[test]
fn org_requirement_for_non_admins() {
    assert!(org_requirement(true, 0).is_ok());
    assert!(org_requirement(false, 2).is_ok());
    match org_requirement(false, 0) {
        Err(e) => assert!(e.message().starts_with("Your account is not assigned")),
        Ok(()) => panic!("expected refusal"),
    }
}

#[test]
fn session_expiry_checks() {
    assert!(expiry_outcome(Some((100, 0)), (100, 0)).is_ok());
    assert!(expiry_outcome(Some((100, 5)), (100, 6)).is_err());
    assert!(expiry_outcome(Some((100, 0)), (101, 0)).is_err());
    assert!(matches!(expiry_outcome(None, (0, 0)), Err(AuthError::SessionExpired)));
    assert!(check_session_expiry("2030-01-01T00:00:00+00:00", (1_700_000_000, 0)).is_ok());
    assert!(check_session_expiry("2020-01-01T00:00:00+00:00", (1_700_000_000, 0)).is_err());
    assert!(check_session_expiry("garbage", (0, 0)).is_err());
}

#[test]
fn session_expiry_is_seven_days_later() {
    assert_eq!(session_expiry((0, 0)).unwrap(), "1970-01-08T00:00:00+00:00");
    assert!(session_expiry((i64::MAX - 10, 0)).is_none());
}

fn membership(id: &str) -> OrgMembership {
    OrgMembership { org_id: id.to_string(), org_name: format!("Org {id}"), role: OrgRole::User }
}

#[test]
fn active_org_resolution() {
    let ms = vec![membership("a"), membership("b")];
    assert_eq!(resolve_active_org(Some("b".to_string()), &ms), (Some("b".to_string()), false));
    assert_eq!(resolve_active_org(Some("z".to_string()), &ms), (Some("a".to_string()), true));
    assert_eq!(resolve_active_org(None, &ms), (Some("a".to_string()), true));
    assert_eq!(resolve_active_org(Some("z".to_string()), &Vec::new()), (None, false));
}

#[test]
fn active_org_switching() {
    assert!(matches!(active_org_switch(None, 1), Err(AuthError::SessionNotFound)));
    match active_org_switch(Some("u".to_string()), 0) {
        Err(e) => assert_eq!(e.message(), "Not a member of this organisation"),
        Ok(_) => panic!("expected refusal"),
    }
    assert_eq!(active_org_switch(Some("u".to_string()), 1).ok(), Some("u".to_string()));
}

fn access(org: Option<&str>, role: Option<&str>, perm: Option<&str>) -> PlanAccess {
    PlanAccess {
        org_id: org.map(|s| s.to_string()),
        role: role.map(|s| s.to_string()),
        permission: perm.map(|s| s.to_string()),
    }
}

#[test]
fn plan_visibility() {
    assert!(plan_visible(true, &access(None, None, None)));
    assert!(!plan_visible(false, &access(None, Some("Admin"), None)));
    assert!(!plan_visible(false, &access(Some("o"), None, None)));
    assert!(plan_visible(false, &access(Some("o"), Some("Admin"), Some("NoAccess"))));
    assert!(!plan_visible(false, &access(Some("o"), Some("User"), Some("NoAccess"))));
    assert!(plan_visible(false, &access(Some("o"), Some("Viewer"), Some("Viewer"))));
    assert!(plan_visible(false, &access(Some("o"), Some("User"), None)));
    let plans = vec![
        (1u128, access(Some("o"), Some("User"), None)),
        (2u128, access(None, None, None)),
        (3u128, access(Some("o"), Some("User"), Some("NoAccess"))),
        (4u128, access(Some("o"), Some("Admin"), None)),
    ];
    assert_eq!(filter_visible_plans(false, &plans), vec![1, 4]);
    assert_eq!(filter_visible_plans(true, &plans), vec![1, 2, 3, 4]);
}

#[test]
fn error_messages() {
    assert_eq!(AuthError::InvalidCredentials.message(), "Invalid email or password");
    assert_eq!(AuthError::UserNotFound.message(), "User not found");
    assert_eq!(AuthError::UsernameTaken.message(), "Email address already registered");
    assert_eq!(AuthError::InvalidEmail.message(), "Username must be a valid email address");
    assert_eq!(AuthError::SessionExpired.message(), "Session expired — please log in again");
    assert_eq!(AuthError::SessionNotFound.message(), "Session not found — please log in again");
    assert_eq!(AuthError::WrongPassword.message(), "Incorrect current password");
    assert_eq!(AuthError::OtherError("boom".to_string()).message(), "boom");
    let db = AuthError::Db(rusqlite::Error::QueryReturnedNoRows);
    assert!(db.message().starts_with("Database error: "));
}

#[test]
fn write_error_mapping() {
    let conn = rusqlite::Connection::open_in_memory().unwrap();
    conn.execute_batch("CREATE TABLE t (x TEXT UNIQUE); INSERT INTO t VALUES ('a');").unwrap();
    let e = conn.execute("INSERT INTO t VALUES ('a')", []).unwrap_err();
    assert!(matches!(plinko::auth::user_write_error(e), AuthError::UsernameTaken));
    let other = plinko::auth::user_write_error(rusqlite::Error::QueryReturnedNoRows);
    assert!(matches!(other, AuthError::Db(_)));
    let e = conn.execute("INSERT INTO t VALUES ('a')", []).unwrap_err();
    match plinko::auth::org_delete_error(e) {
        AuthError::OtherError(m) => assert!(m.starts_with("Cannot delete an organisation")),
        _ => panic!("expected the plans-assigned message"),
    }
}

#[test]
fn write_outcome_for_each_answer() {
    let taken = plinko::auth::user_write_outcome(rusqlite::Error::QueryReturnedNoRows, true);
    assert!(matches!(taken, AuthError::UsernameTaken));
    let passed_on = plinko::auth::user_write_outcome(rusqlite::Error::QueryReturnedNoRows, false);
    assert!(matches!(passed_on, AuthError::Db(rusqlite::Error::QueryReturnedNoRows)));
}

#[test]
fn org_delete_outcome_for_each_answer() {
    match plinko::auth::org_delete_outcome(rusqlite::Error::QueryReturnedNoRows, true) {
        AuthError::OtherError(m) => assert_eq!(
            m,
            "Cannot delete an organisation that has plans assigned to it. Reassign or unassign plans first."
        ),
        _ => panic!("expected the plans-assigned message"),
    }
    assert!(matches!(
        plinko::auth::org_delete_outcome(rusqlite::Error::QueryReturnedNoRows, false),
        AuthError::Db(rusqlite::Error::QueryReturnedNoRows)
    ));
}

#[test]
fn email_with_two_at_signs_is_refused() {
    assert!(matches!(validate_email("a@b@c.com"), Err(AuthError::InvalidEmail)));
    assert!(matches!(validate_email("a@b.c@om"), Err(AuthError::InvalidEmail)));
}

#[test]
fn stored_hashes_verify_their_password() {
    let h = hash_password("root").ok().unwrap();
    assert_ne!(h, "root");
    assert!(bcrypt::verify("root", &h).unwrap());
    assert!(check_credentials(Some(("id1".to_string(), h.clone(), true)), "root").is_ok());

    assert!(matches!(new_account_hash("not-an-email", "pw"), Err(AuthError::InvalidEmail)));
    let h2 = new_account_hash("a@b.co", "secret").ok().unwrap();
    assert!(bcrypt::verify("secret", &h2).unwrap());
    assert!(!bcrypt::verify("other", &h2).unwrap());

    assert!(matches!(password_change_hash(None, "old", "new"), Err(AuthError::UserNotFound)));
    assert!(matches!(
        password_change_hash(Some(h2.clone()), "wrong", "new"),
        Err(AuthError::WrongPassword)
    ));
    let h3 = password_change_hash(Some(h2), "secret", "fresh").ok().unwrap();
    assert!(bcrypt::verify("fresh", &h3).unwrap());
}

#[test]
fn hashes_use_the_default_cost() {
    let h = hash_password("pw").ok().unwrap();
    assert_eq!(h.len(), 60);
    assert!(h.starts_with("$2b$12$"));
}

#[test]
fn root_account_only_for_an_empty_database() {
    assert_eq!(plinko::auth::bootstrap_account(0), Some(("root@localhost", "root")));
    assert_eq!(plinko::auth::bootstrap_account(1), None);
    assert_eq!(plinko::auth::bootstrap_account(42), None);
}

#[test]
fn database_error_message_carries_the_error_text() {
    let e = rusqlite::Error::QueryReturnedNoRows;
    let text = e.to_string();
    assert_eq!(AuthError::Db(e).message(), format!("Database error: {text}"));
}
