use ai_cli::api::document::{markdown_file_name, new_document};
use ai_cli::api::md_paraser::parse_markdown;

#[test]
fn file_name_gets_extension() {
    assert_eq!(markdown_file_name("chat"), "chat.md");
    assert_eq!(markdown_file_name("chat.md"), "chat.md");
    assert_eq!(markdown_file_name("md"), "md.md");
    assert_eq!(markdown_file_name(""), ".md");
}

#[test]
fn new_document_parses_to_system_and_empty_user() {
    let doc = new_document("chat.md");
    assert!(doc.starts_with("# chat.md\n\n\n\n---\n### System\n---\n"));
    let c = parse_markdown(&doc).unwrap();
    assert_eq!(c.len(), 2);
    assert_eq!(c.message(0).text(), "You are a helper assistant\n");
    assert_eq!(c.message(1).text(), "");
}
