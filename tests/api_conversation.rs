use ai_cli::api::conversation::{Conversation, ConversationError, Message, Role};

fn three_turns() -> Conversation {
    let mut c = Conversation::new(Message::System("s".to_string()));
    c.user("u".to_string()).unwrap();
    c.assistant("a".to_string()).unwrap();
    c
}

#[test]
fn test_conversation() {
    let sys_message = Message::System("You are a helpful assistant".to_string());
    let conversation = Conversation::new(sys_message);
    assert_eq!(conversation.len(), 1);
}

#[test]
fn test_conversation_messages() {
    let sys_message = Message::System("You are a helpful assistant".to_string());
    let conversation = Conversation::new(sys_message);
    let messages = conversation.to_messages();
    assert_eq!(messages.len(), 1);
    assert_eq!(messages[0]["role"], "system");
    assert_eq!(messages[0]["content"], "You are a helpful assistant");
}

#[test]
fn append_user_to_empty_conversation_fails() {
    let mut c = Conversation::empty();
    let r = c.add_message(Message::User("x".to_string()));
    assert_eq!(
        r,
        Err(ConversationError::InvalidTransition { attempted: Role::User, last: None })
    );
    assert_eq!(c.len(), 0);
}

#[test]
fn system_first_on_empty_conversation() {
    let mut c = Conversation::empty();
    assert_eq!(c.system("s".to_string()), Ok(()));
    assert_eq!(c.len(), 1);
    assert_eq!(c.last().unwrap().role(), Role::System);
}

#[test]
fn auto_add_alternates_roles() {
    let mut c = Conversation::new(Message::System("s".to_string()));
    c.user("x".to_string()).unwrap();
    c.auto_add("y".to_string()).unwrap();
    assert_eq!(c.last().unwrap().role(), Role::Assistant);
    assert_eq!(c.last().unwrap().text(), "y");
    c.auto_add("z".to_string()).unwrap();
    assert_eq!(c.last().unwrap().role(), Role::User);
    assert_eq!(c.last().unwrap().text(), "z");
    assert_eq!(c.len(), 4);
}

#[test]
fn auto_add_on_empty_conversation_fails() {
    let mut c = Conversation::empty();
    assert_eq!(
        c.auto_add("x".to_string()),
        Err(ConversationError::InvalidTransition { attempted: Role::User, last: None })
    );
    assert_eq!(c.len(), 0);
}

#[test]
fn role_content_pairs_in_order() {
    let pairs = three_turns().to_role_content_pairs();
    assert_eq!(
        pairs,
        vec![
            ("system".to_string(), "s".to_string()),
            ("user".to_string(), "u".to_string()),
            ("assistant".to_string(), "a".to_string()),
        ]
    );
}

#[test]
fn payload_objects_in_order() {
    let messages = three_turns().to_messages();
    assert_eq!(messages.len(), 3);
    assert_eq!(messages[1]["role"], "user");
    assert_eq!(messages[1]["content"], "u");
    assert_eq!(messages[2]["role"], "assistant");
    assert_eq!(messages[2]["content"], "a");
}

#[test]
fn rejected_appends_leave_conversation_unchanged() {
    let mut c = Conversation::new(Message::System("s".to_string()));
    assert_eq!(
        c.assistant("a".to_string()),
        Err(ConversationError::InvalidTransition {
            attempted: Role::Assistant,
            last: Some(Role::System)
        })
    );
    assert_eq!(
        c.system("again".to_string()),
        Err(ConversationError::InvalidTransition {
            attempted: Role::System,
            last: Some(Role::System)
        })
    );
    assert_eq!(c.len(), 1);
    c.user("u".to_string()).unwrap();
    assert_eq!(
        c.user("u2".to_string()),
        Err(ConversationError::InvalidTransition { attempted: Role::User, last: Some(Role::User) })
    );
    assert_eq!(c.len(), 2);
    for i in 0..c.len() {
        let expected = if i == 0 { Role::System } else { Role::User };
        assert_eq!(c.message(i).role(), expected);
    }
}

#[test]
fn markdown_rendering() {
    let md = three_turns().to_markdown("chat.md".to_string());
    assert_eq!(
        md,
        "# chat.md\n\n---\n### System\n---\ns\n\n---\n### User\n---\nu\n\n---\n### Assistant\n---\na\n\n"
    );
}

#[test]
fn role_names() {
    assert_eq!(Role::System.name(), "system");
    assert_eq!(Role::User.name(), "user");
    assert_eq!(Role::Assistant.name(), "assistant");
}

#[test]
fn payload_objects_hold_exactly_role_and_content() {
    let messages = three_turns().to_messages();
    let expected = [("system", "s"), ("user", "u"), ("assistant", "a")];
    for (m, (role, content)) in messages.iter().zip(expected.iter()) {
        let obj = m.as_object().unwrap();
        assert_eq!(obj.len(), 2);
        assert_eq!(obj["role"], *role);
        assert_eq!(obj["content"], *content);
    }
}
