use chat_log_parser_lib::names::{conversation_key, is_chat_member_name};

#[test]
fn chat_member_names_need_a_json_extension_and_an_underscore() {
    assert!(is_chat_member_name("messages/inbox/friend_1/message_1.json"));
    assert!(is_chat_member_name("a_b.json"));
    // Wrong extension.
    assert!(!is_chat_member_name("messages/inbox/friend_1/photo_1.jpg"));
    // No underscore.
    assert!(!is_chat_member_name("messages/inbox/friend/message.json"));
    // A bare `.json` file name has no stem, hence no extension.
    assert!(!is_chat_member_name("messages/inbox/friend_1/.json"));
    // No extension at all.
    assert!(!is_chat_member_name("messages_json"));
    // A trailing slash does not hide the file name.
    assert!(is_chat_member_name("messages/inbox/friend_1/message_1.json/"));
    // A name with no non-empty segment has no file name.
    assert!(!is_chat_member_name("///"));
}

#[test]
fn conversation_key_is_the_parent_of_a_four_component_name() {
    assert_eq!(
        conversation_key("messages/inbox/friend_1/message_1.json"),
        Some(String::from("friend_1"))
    );
    assert_eq!(conversation_key("messages/friend_1/message_1.json"), None);
    assert_eq!(conversation_key("a/b/c/d/e"), None);
    // Repeated separators do not add components.
    assert_eq!(
        conversation_key("messages//inbox/friend_1/message_1.json"),
        Some(String::from("friend_1"))
    );
    // Current-directory markers do not add components either.
    assert_eq!(conversation_key("a/./b/c_1.json"), None);
    assert_eq!(
        conversation_key("messages/inbox/./friend_1/message_1.json"),
        Some(String::from("friend_1"))
    );
}
