use ai_cli::api::setter::{find_setting, line_setting, update_setting, DEEPSEEK_API, RESUME_FILE};

const FRESH: &str = "DEEPSEEK_API=To_BE_FILLED_BY_PROGRAM\nRESUME_FILE=To_BE_FILLED_BY_PROGRAM\n";

#[test]
fn settings_write_then_read() {
    let s = update_setting(FRESH, DEEPSEEK_API, "test_key");
    assert_eq!(find_setting(&s, DEEPSEEK_API), Some("test_key".to_string()));
    let s = update_setting(&s, DEEPSEEK_API, "test_key_1");
    assert_eq!(find_setting(&s, DEEPSEEK_API), Some("test_key_1".to_string()));
    let s = update_setting(&s, RESUME_FILE, "sample.md_2");
    assert_eq!(find_setting(&s, RESUME_FILE), Some("sample.md_2".to_string()));
    assert_eq!(s, "DEEPSEEK_API=test_key_1\nRESUME_FILE=sample.md_2\n");
}

#[test]
fn missing_setting_is_appended() {
    assert_eq!(update_setting("", RESUME_FILE, "a.md"), "RESUME_FILE=a.md\n");
    assert_eq!(update_setting("OTHER=1", RESUME_FILE, "a.md"), "OTHER=1\nRESUME_FILE=a.md\n");
    assert_eq!(find_setting("OTHER=1\n", RESUME_FILE), None);
}

#[test]
fn lines_with_two_equals_are_not_settings() {
    assert_eq!(line_setting("KEY=a=b", "KEY"), None);
    assert_eq!(line_setting("KEY=a", "KEY"), Some("a".to_string()));
    assert_eq!(line_setting("KEYS=a", "KEY"), None);
    assert_eq!(line_setting("KEY=", "KEY"), Some(String::new()));
    assert_eq!(find_setting("KEY=a=b\nKEY=c\n", "KEY"), Some("c".to_string()));
    assert_eq!(update_setting("KEY=a=b\n", "KEY", "v"), "KEY=a=b\nKEY=v\n");
}

#[test]
fn settings_with_crlf_line_endings() {
    assert_eq!(update_setting("a\r\n", DEEPSEEK_API, "k"), "a\nDEEPSEEK_API=k\n");
    assert_eq!(find_setting("RESUME_FILE=x.md\r\n", RESUME_FILE), Some("x.md".to_string()));
}
