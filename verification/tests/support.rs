//! Tests of the support data models: chat messages and settings.

use markitup::chat::{Message, MessageContent, ROLE};
use markitup::config::{update_settings_with_cli_args, Settings};

#[test]
fn message_constructors() {
    let m = Message::new_text(ROLE::System, "hello".to_string());
    assert_eq!(m.role, ROLE::System);
    match m.content {
        MessageContent::PlainText(t) => assert_eq!(t, "hello"),
        _ => panic!("expected plain text"),
    }
    let m2 = Message::new(ROLE::User, MessageContent::PlainText("hi".to_string()));
    assert_eq!(m2.role, ROLE::User);
}

fn base_settings() -> Settings {
    Settings {
        model_path: "model".to_string(),
        image_path: "images".to_string(),
        output_path: None,
        is_ai_entitle: true,
        doubao_api_key: None,
        is_ai_sweep: true,
        deepseek_api_key: None,
    }
}

#[test]
fn cli_args_override_settings() {
    let mut s = base_settings();
    update_settings_with_cli_args(
        &mut s,
        Some("imgs".to_string()),
        Some("out".to_string()),
        Some(true),
    );
    assert_eq!(s.image_path, "imgs");
    assert_eq!(s.output_path, Some("out".to_string()));
    assert!(s.is_ai_entitle);
    assert!(s.is_ai_sweep);
}

#[test]
fn missing_ai_flag_disables_ai() {
    let mut s = base_settings();
    update_settings_with_cli_args(&mut s, None, None, None);
    assert_eq!(s.image_path, "images");
    assert_eq!(s.output_path, None);
    assert!(!s.is_ai_entitle);
    assert!(!s.is_ai_sweep);
}
