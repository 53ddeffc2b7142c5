//! Hub bookkeeping, script replies, and the account cache keys.

use chat_server::hub::{
    channel_name, check_change_reply, HubState, RetrieveRroomsReq, RetrieveRroomsReqType,
    RoomChangeForHubResponse, RoomChangeType,
};
use chat_server::user::{email_code_key, user_agent_key, SendEmailCodeFrom};

fn s(x: &str) -> String {
    x.to_string()
}

#[test]
fn channel_name_appends_the_suffix() {
    assert_eq!(channel_name(&s("main")), "main_message");
    assert_eq!(channel_name(&s("")), "_message");
}

#[test]
fn subscriptions_are_reference_like() {
    let mut hub = HubState::new();
    assert!(hub.subscribe_room(&s("main")));
    // idempotent: an existing handle is reused
    assert!(!hub.subscribe_room(&s("main")));
    assert!(hub.subscribe_room(&s("r1")));
    assert_eq!(hub.channels, [s("main"), s("r1")]);
    assert!(hub.is_subscribed(&s("r1")));

    assert!(hub.unsubscribe_room(&s("main")));
    // releasing a missing handle signals nothing
    assert!(!hub.unsubscribe_room(&s("main")));
    assert_eq!(hub.channels, [s("r1")]);
    assert!(!hub.is_subscribed(&s("main")));
}

#[test]
fn change_reply_status_decides() {
    assert!(check_change_reply(RoomChangeForHubResponse { status: 0, msg: s("") }).is_ok());
    let err = check_change_reply(RoomChangeForHubResponse { status: 2, msg: s("bad") })
        .expect_err("non-zero status is a business error");
    assert_eq!(err.msg, "bad");
}

#[test]
fn retrieve_request_builder() {
    let req = RetrieveRroomsReq::new(RetrieveRroomsReqType::SessionID, s("a"));
    assert_eq!(req.kind, RetrieveRroomsReqType::SessionID);
    assert_eq!(req.id, "a");
}

#[test]
fn default_change_kind_is_add() {
    assert_eq!(RoomChangeType::default(), RoomChangeType::Add);
}

#[test]
fn account_cache_keys() {
    assert_eq!(
        email_code_key("u@example.com", &SendEmailCodeFrom::Register),
        "u@example.com_mail_Register"
    );
    assert_eq!(
        email_code_key("u@example.com", &SendEmailCodeFrom::ChangePwd),
        "u@example.com_mail_ChangePwd"
    );
    assert_eq!(user_agent_key("u@example.com"), "u@example.com_session");
}
