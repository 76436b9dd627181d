use script_generator::errors::GenerateError;
use script_generator::escape::escape_json_bytes;
use script_generator::escape::hex_digit;
use script_generator::errors::decimal_digits;
use script_generator::request::authorization_header_value;
use script_generator::request::build_request;
use script_generator::request::check_header_value;
use script_generator::request::content_type;
use script_generator::request::endpoint_url;
use script_generator::request::model_identifier;
use script_generator::request::persona_text;
use script_generator::request::prepare_request;
use script_generator::request::render_request;
use script_generator::request::Role;

#[test]
fn build_request_holds_two_messages_in_order() {
    let req = build_request("hi");
    assert_eq!(req.messages.len(), 2);
    assert!(matches!(req.messages[0].role, Role::System));
    assert_eq!(req.messages[0].content, persona_text());
    assert!(matches!(req.messages[1].role, Role::User));
    assert_eq!(req.messages[1].content, "hi");
    assert_eq!(req.model, model_identifier());
    assert_eq!(req.temperature_tenths, 7);
    assert_eq!(req.max_tokens, 1000);
}

#[test]
fn build_request_keeps_empty_prompt() {
    let req = build_request("");
    assert_eq!(req.messages.len(), 2);
    assert_eq!(req.messages[1].content, "");
}

#[test]
fn build_request_keeps_control_and_multibyte_prompt() {
    let prompt = "第一\n\t\u{1}句 \"quoted\" \\slash";
    let req = build_request(prompt);
    assert_eq!(req.messages.len(), 2);
    assert!(matches!(req.messages[0].role, Role::System));
    assert!(matches!(req.messages[1].role, Role::User));
    assert_eq!(req.messages[1].content, prompt);
}

#[test]
fn render_request_gives_exact_json() {
    let req = build_request("hi");
    let body = render_request(&req);
    let expected = format!(
        "{{\"messages\":[{{\"role\":\"system\",\"content\":\"{}\"}},{{\"role\":\"user\",\"content\":\"hi\"}}],\"model\":\"deepseek-chat\",\"temperature\":0.7,\"max_tokens\":1000}}",
        persona_text(),
    );
    assert_eq!(body, expected.into_bytes());
}

#[test]
fn render_request_escapes_prompt() {
    let req = build_request("a\"b\\c\nd\u{1}");
    let body = render_request(&req);
    let text = String::from_utf8(body).unwrap();
    assert!(text.contains("a\\\"b\\\\c\\nd\\u0001"));
}

#[test]
fn escape_handles_every_class_of_byte() {
    let escaped = escape_json_bytes("\"\\\u{8}\u{c}\n\r\t\u{1}\u{1f}x好".as_bytes());
    assert_eq!(
        escaped,
        "\\\"\\\\\\b\\f\\n\\r\\t\\u0001\\u001fx好".as_bytes().to_vec(),
    );
}

#[test]
fn hex_digits_are_lowercase() {
    assert_eq!(hex_digit(0), b'0');
    assert_eq!(hex_digit(10), b'a');
    assert_eq!(hex_digit(15), b'f');
}

#[test]
fn decimal_digits_render_exactly() {
    assert_eq!(decimal_digits(0), b"0".to_vec());
    assert_eq!(decimal_digits(401), b"401".to_vec());
    assert_eq!(decimal_digits(1000), b"1000".to_vec());
    assert_eq!(decimal_digits(65535), b"65535".to_vec());
}

#[test]
fn header_value_rule_follows_http() {
    assert!(check_header_value("sk-abc123"));
    assert!(check_header_value("with space and\ttab"));
    assert!(check_header_value("密钥"));
    assert!(!check_header_value("line\nbreak"));
    assert!(!check_header_value("nul\u{0}"));
    assert!(!check_header_value("del\u{7f}"));
}

#[test]
fn authorization_value_prefixes_bearer() {
    let v = authorization_header_value("sk-test").unwrap();
    assert_eq!(v, "Bearer sk-test");
    let e = authorization_header_value("bad\nkey").unwrap_err();
    assert_eq!(e, GenerateError::CredentialFormatInvalid);
}

#[test]
fn prepare_without_credential_is_configuration_missing() {
    let r = prepare_request(None, "hi");
    assert_eq!(r.unwrap_err(), GenerateError::ConfigurationMissing);
}

#[test]
fn prepare_with_malformed_credential_fails_before_sending() {
    let r = prepare_request(Some("bad\nkey"), "hi");
    assert_eq!(r.unwrap_err(), GenerateError::CredentialFormatInvalid);
}

#[test]
fn prepare_carries_both_headers_and_the_body() {
    let p = prepare_request(Some("sk-test"), "hi").unwrap();
    assert_eq!(p.url, endpoint_url());
    assert_eq!(p.url, "https://api.deepseek.com/v1/chat/completions");
    assert_eq!(p.content_type, content_type());
    assert_eq!(p.content_type, "application/json");
    assert_eq!(p.authorization, "Bearer sk-test");
    assert_eq!(p.body, render_request(&build_request("hi")));
}
