use plinko::server::{
    auto_load_target, broadcast_targets, frame_action, gate_request, version_accepted, Frame,
    FrameAction, Refusal, RequestKind,
};

#[test]
fn handshake_accepts_only_the_same_version() {
    assert!(version_accepted("0.4.1", "0.4.1"));
    assert!(!version_accepted("0.4.0", "0.4.1"));
    assert!(!version_accepted("", "0.4.1"));
}

#[test]
fn admin_requests_refused_to_non_admins() {
    let kinds = vec![
        RequestKind::GetAuthUsers,
        RequestKind::CreateAuthUser,
        RequestKind::UpdateAuthUser,
        RequestKind::SetAuthUserPassword,
        RequestKind::DeleteAuthUser("u2".to_string()),
        RequestKind::GetPlanVisibility,
        RequestKind::SetPlanVisibility,
        RequestKind::RestorePlanVersion,
    ];
    for k in &kinds {
        assert!(matches!(gate_request(k, false, "u1", true), Some(Refusal::Unauthorized)));
        assert!(gate_request(k, true, "u1", true).is_none());
    }
}

#[test]
fn non_admin_deleting_self_is_unauthorized_first() {
    let k = RequestKind::DeleteAuthUser("u1".to_string());
    assert!(matches!(gate_request(&k, false, "u1", true), Some(Refusal::Unauthorized)));
}

#[test]
fn admin_cannot_delete_own_account() {
    let k = RequestKind::DeleteAuthUser("root".to_string());
    let r = gate_request(&k, true, "root", true);
    assert!(matches!(r, Some(Refusal::OwnAccount)));
    assert_eq!(r.unwrap().message(), Some("Cannot delete your own account"));
    assert_eq!(Refusal::Unauthorized.message(), None);
    assert_eq!(Refusal::NoPlanActive.message(), None);
}

#[test]
fn plan_work_needs_an_active_plan() {
    for k in [
        RequestKind::PlanEdit,
        RequestKind::MondayPull,
        RequestKind::MondayFullReimport,
        RequestKind::MondayPushPreview,
        RequestKind::MondayPush,
    ] {
        assert!(matches!(gate_request(&k, true, "u1", false), Some(Refusal::NoPlanActive)));
        assert!(gate_request(&k, false, "u1", true).is_none());
    }
}

#[test]
fn open_requests_always_carried_out() {
    for k in [
        RequestKind::SavePlan,
        RequestKind::NewPlan,
        RequestKind::LoadPlan,
        RequestKind::ListPlans,
        RequestKind::DeletePlan,
        RequestKind::ChangeMyPassword,
        RequestKind::ListPlanVersions,
        RequestKind::GetUserLinks,
        RequestKind::SetUserLinks,
        RequestKind::LoadMondayApiToken,
    ] {
        assert!(gate_request(&k, false, "u1", false).is_none());
    }
}

#[test]
fn auto_load_only_a_visible_last_plan() {
    let visible = vec![3u128, 7, 9];
    assert_eq!(auto_load_target(true, Some(7), &visible), Some(7));
    assert_eq!(auto_load_target(true, Some(8), &visible), None);
    assert_eq!(auto_load_target(true, None, &visible), None);
    assert_eq!(auto_load_target(false, Some(7), &visible), None);
    assert_eq!(auto_load_target(true, Some(7), &vec![]), None);
}

#[test]
fn broadcast_skips_the_sender() {
    assert_eq!(broadcast_targets(2, &vec![1, 2, 3, 2, 4]), vec![1, 3, 4]);
    assert_eq!(broadcast_targets(5, &vec![1, 2]), vec![1, 2]);
    assert_eq!(broadcast_targets(1, &vec![1]), Vec::<u64>::new());
}

#[test]
fn websocket_frames() {
    assert!(matches!(frame_action(Frame::Text("hi".to_string()), &Phase::AwaitingAuth), FrameAction::Forward(t) if t == "hi"));
    assert!(matches!(frame_action(Frame::Ping(vec![1, 2]), &Phase::AwaitingAuth), FrameAction::Pong(d) if d == vec![1, 2]));
    assert!(matches!(frame_action(Frame::Close, &Phase::AwaitingAuth), FrameAction::Stop));
    assert!(matches!(frame_action(Frame::Failed, &Phase::AwaitingAuth), FrameAction::Stop));
    assert!(matches!(frame_action(Frame::Ignored, &Phase::AwaitingAuth), FrameAction::Continue));
    assert!(matches!(frame_action(Frame::Timeout, &Phase::AwaitingAuth), FrameAction::Continue));
    assert!(matches!(
        frame_action(Frame::Timeout, &Phase::Ready { user_id: "u".to_string(), is_admin: false }),
        FrameAction::Continue
    ));
    assert!(matches!(frame_action(Frame::Timeout, &Phase::AwaitingHello), FrameAction::Stop));
}

use plinko::server::{connect, protocol_step, Event, Outgoing, Phase};

fn ready(user: &str, admin: bool) -> Phase {
    Phase::Ready { user_id: user.to_string(), is_admin: admin }
}

#[test]
fn connection_starts_with_hello() {
    let (p, out) = connect("0.4.0".to_string());
    assert!(matches!(p, Phase::AwaitingHello));
    assert!(matches!(out.as_slice(), [Outgoing::Hello { version }] if version == "0.4.0"));
}

#[test]
fn version_mismatch_closes_after_version_error() {
    let (p, out) = protocol_step(Phase::AwaitingHello, Event::Hello("0.3.0".to_string()), "0.4.0".to_string(), true,);
    assert!(matches!(p, Phase::Closed));
    assert!(matches!(
        out.as_slice(),
        [Outgoing::VersionError { expected, got }] if expected == "0.4.0" && got == "0.3.0"
    ));
    let (p, out) = protocol_step(Phase::AwaitingHello, Event::Hello("0.4.0".to_string()), "0.4.0".to_string(), true,);
    assert!(matches!(p, Phase::AwaitingAuth));
    assert!(matches!(out.as_slice(), [Outgoing::AuthRequired]));
    let (p, out) = protocol_step(Phase::AwaitingHello, Event::Other, "0.4.0".to_string(), true,);
    assert!(matches!(p, Phase::Closed));
    assert!(out.is_empty());
}

#[test]
fn authentication_phase() {
    let (p, out) = protocol_step(Phase::AwaitingAuth, Event::LoginRejected, "v".to_string(), false,);
    assert!(matches!(p, Phase::AwaitingAuth));
    assert!(matches!(out.as_slice(), [Outgoing::LoginFailed]));
    let (p, out) = protocol_step(Phase::AwaitingAuth, Event::TokenRejected, "v".to_string(), false,);
    assert!(matches!(p, Phase::AwaitingAuth));
    assert!(matches!(out.as_slice(), [Outgoing::LoginFailed, Outgoing::AuthRequired]));
    let (p, out) = protocol_step(
        Phase::AwaitingAuth,
        Event::Request { id: 1, kind: RequestKind::ListPlans }, "v".to_string(),
        false,
    );
    assert!(matches!(p, Phase::AwaitingAuth));
    assert!(out.is_empty());
    let (p, out) = protocol_step(
        Phase::AwaitingAuth,
        Event::LoginAccepted { user_id: "u1".to_string(), is_admin: true }, "v".to_string(),
        false,
    );
    assert!(matches!(p, Phase::Ready { ref user_id, is_admin: true } if user_id == "u1"));
    assert!(matches!(out.as_slice(), [Outgoing::LoginSuccess, Outgoing::InitialState]));
    let (p, _) = protocol_step(
        Phase::AwaitingAuth,
        Event::TokenAccepted { user_id: "u2".to_string(), is_admin: false }, "v".to_string(),
        false,
    );
    assert!(matches!(p, Phase::Ready { ref user_id, is_admin: false } if user_id == "u2"));
    let (p, out) = protocol_step(Phase::AwaitingAuth, Event::Disconnected, "v".to_string(), false,);
    assert!(matches!(p, Phase::Closed));
    assert!(out.is_empty());
}

#[test]
fn requests_get_one_reply_with_their_id() {
    let (p, out) = protocol_step(
        ready("u1", false),
        Event::Request { id: 7, kind: RequestKind::GetAuthUsers }, "v".to_string(),
        true,
    );
    assert!(matches!(p, Phase::Ready { .. }));
    assert!(matches!(out.as_slice(), [Outgoing::Refused { id: 7, refusal: Refusal::Unauthorized }]));
    let (_, out) = protocol_step(
        ready("u1", false),
        Event::Request { id: 8, kind: RequestKind::PlanEdit }, "v".to_string(),
        true,
    );
    assert!(matches!(out.as_slice(), [Outgoing::Carry { id: 8, kind: RequestKind::PlanEdit }]));
    let (_, out) = protocol_step(
        ready("u1", false),
        Event::Request { id: 9, kind: RequestKind::PlanEdit }, "v".to_string(),
        false,
    );
    assert!(matches!(out.as_slice(), [Outgoing::Refused { id: 9, refusal: Refusal::NoPlanActive }]));
    let (_, out) = protocol_step(
        ready("root", true),
        Event::Request { id: 10, kind: RequestKind::DeleteAuthUser("root".to_string()) }, "v".to_string(),
        true,
    );
    assert!(matches!(out.as_slice(), [Outgoing::Refused { id: 10, refusal: Refusal::OwnAccount }]));
}

#[test]
fn plan_updates_are_broadcast_and_logout_closes() {
    let (_, out) = protocol_step(ready("u1", false), Event::Completed { plan_updated: true }, "v".to_string(), true,);
    assert!(matches!(out.as_slice(), [Outgoing::PlanState, Outgoing::Broadcast]));
    let (_, out) = protocol_step(ready("u1", false), Event::Completed { plan_updated: false }, "v".to_string(), true,);
    assert!(out.is_empty());
    let (p, out) = protocol_step(ready("u1", false), Event::Logout, "v".to_string(), true,);
    assert!(matches!(p, Phase::Closed));
    assert!(matches!(out.as_slice(), [Outgoing::EndSession]));
    let (p, out) = protocol_step(Phase::Closed, Event::Hello("v".to_string()), "v".to_string(), true,);
    assert!(matches!(p, Phase::Closed));
    assert!(out.is_empty());
}
