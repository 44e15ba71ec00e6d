use ai_cli::conversation::{Message, Messages};
use ai_cli::md_parser::{MdParseError, MdParser};

#[test]
fn test_messages() {
    let mut messages = Messages::new();
    messages.system("Hello");
    messages.user("Hi");
    messages.agent("Hello");

    let messages_json = messages.get_messages();
    assert_eq!(messages_json.len(), 3);
    assert_eq!(messages_json[0]["role"], "system");
    assert_eq!(messages_json[0]["content"], "Hello");
    assert_eq!(messages_json[1]["role"], "user");
    assert_eq!(messages_json[1]["content"], "Hi");
    assert_eq!(messages_json[2]["role"], "assistant");
    assert_eq!(messages_json[2]["content"], "Hello");
    for m in &messages_json {
        assert_eq!(m.as_object().unwrap().len(), 2);
    }
}

#[test]
fn test_parse_markdown() {
    let test_content = r#"# Test Conversation
## System
System instructions here
## User-1
First user message
## AI-1
First AI response
## User-2
Second user message
## AI-2
Second AI response"#;

    let messages = MdParser::parse_text(test_content).unwrap();

    let mess = Messages::set_messages(messages.clone());
    println!("{:?}", mess.get_conversation());

    assert_eq!(messages.len(), 5);

    if let Message::System(content) = &messages[0] {
        assert_eq!(content.trim(), "System instructions here");
    } else {
        panic!("Expected System message");
    }
    if let Message::User(content) = &messages[1] {
        assert_eq!(content.trim(), "First user message");
    } else {
        panic!("Expected User message");
    }
    if let Message::Agent(content) = &messages[2] {
        assert_eq!(content.trim(), "First AI response");
    } else {
        panic!("Expected AI message");
    }
    if let Message::User(content) = &messages[3] {
        assert_eq!(content.trim(), "Second user message");
    } else {
        panic!("Expected User message");
    }
    if let Message::Agent(content) = &messages[4] {
        assert_eq!(content.trim(), "Second AI response");
    } else {
        panic!("Expected AI message");
    }
}

#[test]
fn heading_text_before_first_section_is_refused() {
    assert_eq!(
        MdParser::parse_text("# t\nstray\n## System\nx\n").unwrap_err(),
        MdParseError::InvalidSection
    );
    assert_eq!(MdParser::parse_text("").unwrap().len(), 0);
}

#[test]
fn role_content_pairs_of_messages() {
    let mut messages = Messages::new();
    messages.system("s");
    messages.agent("a");
    assert_eq!(
        messages.get_role_content_pairs(),
        vec![("system".to_string(), "s".to_string()), ("assistant".to_string(), "a".to_string())]
    );
    assert_eq!(messages.get_conversation().len(), 2);
}
