use chat::api::{parse_user_id, UserInfoStripped};
use chat::database::{
    all_registered, assemble_history, authorize_step, chat_participants, chat_type_from_name,
    chat_type_name, check_membership, error_status, should_delete_chat, validate_chat_creation,
    AuthStep, ChatType, DBError, MessageRow, PageIndex, UserInfo,
};
use chat::ids::ChatId;

fn chat_c() -> ChatId {
    ChatId::from_bytes(vec![
        0x67, 0xe5, 0x50, 0x44, 0x10, 0xb1, 0x42, 0x6f, 0x92, 0x47, 0xbb, 0x68, 0x0e, 0x5f, 0xe0,
        0xc8,
    ])
    .unwrap()
}

#[test]
fn chat_type_names_round_trip() {
    assert!(matches!(chat_type_from_name(b"group"), ChatType::Group));
    assert!(matches!(chat_type_from_name(b"private"), ChatType::Private));
    assert!(matches!(chat_type_from_name(b"bruh"), ChatType::Reserved));
    assert!(matches!(chat_type_from_name(b""), ChatType::Reserved));
    assert_eq!(chat_type_name(ChatType::Group), "group");
    assert_eq!(chat_type_name(ChatType::Private), "private");
    assert_eq!(chat_type_name(ChatType::Reserved), "reserved");
}

#[test]
fn errors_describe_themselves() {
    let e = DBError::LogicError("User is not a member of this chat".to_string());
    assert_eq!(e.describe(), "Logic error: User is not a member of this chat");
    assert_eq!(e.message(), "User is not a member of this chat");
    let e = DBError::QueryError("timeout".to_string());
    assert_eq!(e.describe(), "Query error: timeout");
    let e = DBError::OtherError("bad row".to_string());
    assert_eq!(e.describe(), "Other error: bad row");
}

#[test]
fn error_status_maps_rule_refusals_only() {
    assert_eq!(error_status(&DBError::LogicError("x".to_string()), 409), 409);
    assert_eq!(error_status(&DBError::LogicError("x".to_string()), 403), 403);
    assert_eq!(error_status(&DBError::QueryError("x".to_string()), 409), 500);
    assert_eq!(error_status(&DBError::OtherError("x".to_string()), 404), 500);
}

#[test]
fn membership_checks() {
    let chats = vec![chat_c()];
    assert!(check_membership(&chats, &chat_c()));
    let other = ChatId::from_bytes(vec![0; 16]).unwrap();
    assert!(!check_membership(&chats, &other));
    assert!(!check_membership(&vec![], &chat_c()));
}

#[test]
fn chat_creation_is_validated() {
    let registered = vec![1, 2, 3];
    match validate_chat_creation(1, vec![2, 3], &registered) {
        Ok(v) => assert_eq!(v, vec![2, 3, 1]),
        Err(_) => panic!("creation should be admitted"),
    }
    match validate_chat_creation(1, vec![2, 4], &registered) {
        Ok(_) => panic!("unregistered guest must be refused"),
        Err(DBError::LogicError(m)) => assert_eq!(m, "Invited user is not registered"),
        Err(_) => panic!("refusal must be a rule violation"),
    }
    match validate_chat_creation(9, vec![], &registered) {
        Ok(_) => panic!("unregistered creator must be refused"),
        Err(DBError::LogicError(_)) => {},
        Err(_) => panic!("refusal must be a rule violation"),
    }
    assert_eq!(chat_participants(7, vec![1, 2]), vec![1, 2, 7]);
    assert!(all_registered(&vec![1, 2], &registered));
    assert!(!all_registered(&vec![1, 9], &registered));
}

#[test]
fn emptied_chats_are_deleted() {
    assert!(should_delete_chat(&None));
    assert!(should_delete_chat(&Some(vec![])));
    assert!(!should_delete_chat(&Some(vec![1])));
}

#[test]
fn history_rows_become_messages() {
    let rows = vec![
        MessageRow { sender_id: 1, date_millis: 10, text: b"first".to_vec() },
        MessageRow { sender_id: 2, date_millis: 20, text: b"second".to_vec() },
    ];
    let messages = assemble_history(&chat_c(), &rows);
    assert_eq!(messages.len(), 2);
    assert_eq!(messages[0].sender_id, 1);
    assert_eq!(messages[0].date.millis, 10);
    assert_eq!(messages[0].msg_text, b"first".to_vec());
    assert_eq!(messages[1].sender_id, 2);
    assert_eq!(messages[1].chat_id.as_bytes(), chat_c().as_bytes());
}

#[test]
fn authorization_follows_the_lookup() {
    let info = UserInfo { id: 1, name: "Test User".to_string(), chats: vec![] };
    match authorize_step(Ok(info)) {
        AuthStep::Respond(i) => assert_eq!(i.id, 1),
        _ => panic!("a found user is answered"),
    }
    match authorize_step(Err(DBError::LogicError("Invalid User ID".to_string()))) {
        AuthStep::CreateUser => {},
        _ => panic!("an unknown user is created"),
    }
    match authorize_step(Err(DBError::QueryError("down".to_string()))) {
        AuthStep::Fail(DBError::QueryError(m)) => assert_eq!(m, "down"),
        _ => panic!("a query failure propagates"),
    }
}

#[test]
fn header_user_ids_parse_like_integers() {
    assert_eq!(parse_user_id(b"123"), Some(123));
    assert_eq!(parse_user_id(b"-5"), Some(-5));
    assert_eq!(parse_user_id(b"007"), Some(7));
    assert_eq!(parse_user_id(b"abc"), None);
    assert_eq!(parse_user_id(b""), None);
    assert_eq!(parse_user_id(b"12.5"), None);
}

#[test]
fn stripped_user_info_keeps_id_and_name() {
    let info = UserInfo { id: 4, name: "Test user".to_string(), chats: vec![chat_c()] };
    let stripped = UserInfoStripped::from(info);
    assert_eq!(stripped.id, 4);
    assert_eq!(stripped.name, "Test user");
}

#[test]
fn page_index_carries_its_cursor() {
    let p = PageIndex::new(Some(vec![1, 2, 3]));
    assert_eq!(p.into_inner(), Some(vec![1, 2, 3]));
    let p = PageIndex::new(None);
    assert_eq!(p.into_inner(), None);
}
