use ai_cli::api::conversation::{Conversation, ConversationError, Message, Role};
use ai_cli::api::md_paraser::{parse_markdown, split_lines, DocumentError, MarkdownScanner};

const TEST_MARKDOWN: &str = r#"
# sample

---
### System
---
You are a helper assistant

---
### User
---
hi
how are you today

---
### Assistant
---
how can i help you today
"#;

fn scan_all(doc: &str) -> MarkdownScanner {
    let mut scanner = MarkdownScanner::new();
    for line in split_lines(doc) {
        scanner.scan(&line);
    }
    scanner.finalize();
    scanner
}

#[test]
fn test_joining_lines() {
    let string_1 = "Hello";
    let string_2 = "World";
    let string_3 = "!";
    let strings = vec![string_1, string_2, string_3];
    let new_string = strings.join("\n");
    println!("{}", new_string);
}

#[test]
fn test_markdown_scanner() {
    let mut scanner = MarkdownScanner::new();
    for line in TEST_MARKDOWN.lines() {
        scanner.scan(line);
    }
    scanner.finalize();
    println!("{:?}", scanner.messages());
    assert_eq!(scanner.messages().len(), 3);
}

#[test]
fn sample_document_texts() {
    let scanner = scan_all(TEST_MARKDOWN);
    let m = scanner.messages();
    assert_eq!(m[0].text(), "You are a helper assistant\n");
    assert_eq!(m[1].text(), "hi\nhow are you today\n");
    assert_eq!(m[2].text(), "how can i help you today\n");
}

#[test]
fn single_system_section() {
    let scanner = scan_all("---\n### System\n---\nhelp me\n");
    let m = scanner.messages();
    assert_eq!(m.len(), 1);
    assert_eq!(m[0].role(), Role::System);
    assert_eq!(m[0].text(), "help me\n");
}

#[test]
fn three_sections_in_order() {
    let doc = "---\n### System\n---\nsys\n\n---\n### User\n---\nhi\n\n---\n### Assistant\n---\nhello\n";
    let c = parse_markdown(doc).unwrap();
    assert_eq!(c.len(), 3);
    assert_eq!(c.message(0).role(), Role::System);
    assert_eq!(c.message(1).role(), Role::User);
    assert_eq!(c.message(2).role(), Role::Assistant);
    assert_eq!(c.message(1).text().trim(), "hi");
    assert_eq!(c.message(2).text().trim(), "hello");
}

#[test]
fn finalize_twice_adds_nothing() {
    let mut scanner = MarkdownScanner::new();
    for line in ["---", "### System", "---", "s", "", "---", "### User", "---", "u"] {
        scanner.scan(line);
    }
    scanner.finalize();
    assert_eq!(scanner.messages().len(), 2);
    scanner.finalize();
    assert_eq!(scanner.messages().len(), 2);
    assert_eq!(scanner.messages()[1].text(), "u\n");
}

#[test]
fn render_then_parse_round_trip() {
    let mut c = Conversation::new(Message::System("be brief".to_string()));
    c.user("line one\nline two".to_string()).unwrap();
    c.assistant("### User\nanswer".to_string()).unwrap();
    let doc = c.to_markdown("chat.md".to_string());
    let back = parse_markdown(&doc).unwrap();
    assert_eq!(back.len(), 3);
    assert_eq!(back.message(0).text(), "be brief\n");
    assert_eq!(back.message(1).text(), "line one\nline two\n");
    assert_eq!(back.message(2).text(), "### User\nanswer\n\n");
    for i in 0..3 {
        assert_eq!(back.message(i).role(), c.message(i).role());
        assert_eq!(back.message(i).text().trim_end(), c.message(i).text().trim_end());
    }
}

#[test]
fn empty_document_has_no_messages() {
    assert_eq!(parse_markdown("").unwrap_err(), DocumentError::NoMessages);
    assert_eq!(parse_markdown("# title\n\nsome words\n").unwrap_err(), DocumentError::NoMessages);
}

#[test]
fn document_without_system_section() {
    let doc = "# t\n\n---\n### System\n---\n";
    assert!(parse_markdown(doc).is_ok());
    let scanner = scan_all("x\n---\n### User\n---\nhi\n");
    assert_eq!(scanner.messages().len(), 1);
    assert_eq!(scanner.to_conversation().unwrap_err(), DocumentError::MissingSystem);
}

#[test]
fn later_system_section_is_refused() {
    // A system header drops what was gathered for the open section, so the
    // user section before it is lost and the second system message follows
    // the first.
    let doc = "---\n### System\n---\na\n\n---\n### User\n---\nb\n\n---\n### System\n---\nc\n\n---\n### User\n---\nd\n";
    assert_eq!(
        parse_markdown(doc).unwrap_err(),
        DocumentError::StructuralViolation(ConversationError::InvalidTransition {
            attempted: Role::System,
            last: Some(Role::System)
        })
    );
}

#[test]
fn repeated_user_sections_take_positional_roles() {
    let doc = "---\n### System\n---\ns\n\n---\n### User\n---\none\n\n---\n### User\n---\ntwo\n";
    let c = parse_markdown(doc).unwrap();
    assert_eq!(c.len(), 3);
    assert_eq!(c.message(2).role(), Role::Assistant);
    assert_eq!(c.message(2).text(), "two\n");
}

#[test]
fn split_lines_like_std() {
    assert_eq!(split_lines(""), Vec::<String>::new());
    assert_eq!(split_lines("a\n\nb"), vec!["a", "", "b"]);
    assert_eq!(split_lines("a\n"), vec!["a"]);
    assert_eq!(split_lines("\n"), vec![""]);
}

#[test]
fn split_lines_drops_carriage_return_before_line_break() {
    assert_eq!(split_lines("a\r\nb\r\n"), vec!["a", "b"]);
    assert_eq!(split_lines("a\r\r\nb\r"), vec!["a\r", "b\r"]);
    assert_eq!(split_lines("a\rb\n"), vec!["a\rb"]);
    assert_eq!(split_lines("\r\n"), vec![""]);
}

#[test]
fn document_with_crlf_line_endings() {
    let doc = "# t\r\n\r\n---\r\n### System\r\n---\r\nsys\r\n\r\n---\r\n### User\r\n---\r\nhi\r\n";
    let c = parse_markdown(doc).unwrap();
    assert_eq!(c.len(), 2);
    assert_eq!(c.message(0).text(), "sys\n");
    assert_eq!(c.message(1).text(), "hi\n");
}

#[test]
fn hyphen_lines_around_plain_text_are_kept() {
    let doc = "---\n### System\n---\na\n---\nb\n---\n";
    let c = parse_markdown(doc).unwrap();
    assert_eq!(c.len(), 1);
    assert_eq!(c.message(0).text(), "a\n---\nb\n---\n");
}

#[test]
fn round_trip_with_delimiter_lines_in_text() {
    let mut c = Conversation::new(Message::System("rules\n---\nmore".to_string()));
    c.user("---\nx\n---".to_string()).unwrap();
    let doc = c.to_markdown("t".to_string());
    let back = parse_markdown(&doc).unwrap();
    assert_eq!(back.len(), 2);
    assert_eq!(back.message(0).text(), "rules\n---\nmore\n");
    assert_eq!(back.message(1).text(), "---\nx\n---\n\n");
}
