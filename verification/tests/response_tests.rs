use script_generator::errors::GenerateError;
use script_generator::parser::parse_response;
use script_generator::response::interpret_response;
use script_generator::unicode::check_utf8;

fn ok_body(content: &str) -> Vec<u8> {
    format!(
        "{{\"choices\":[{{\"message\":{{\"role\":\"assistant\",\"content\":\"{}\"}}}}]}}",
        content,
    )
    .into_bytes()
}

#[test]
fn unauthorized_status_reports_code_and_body() {
    let r = interpret_response(401, b"unauthorized".to_vec());
    let e = r.unwrap_err();
    assert_eq!(e, GenerateError::RemoteError(401, b"unauthorized".to_vec()));
    let msg = String::from_utf8(e.describe()).unwrap();
    assert!(msg.contains("401"));
    assert!(msg.contains("unauthorized"));
}

#[test]
fn server_error_status_is_remote_error() {
    let r = interpret_response(500, b"oops".to_vec());
    assert_eq!(r.unwrap_err(), GenerateError::RemoteError(500, b"oops".to_vec()));
}

#[test]
fn first_choice_content_is_returned_exactly() {
    let body = "{\"choices\":[{\"message\":{\"role\":\"assistant\",\"content\":\"愿你们执子之手，白头偕老\"}}]}";
    let r = interpret_response(200, body.as_bytes().to_vec());
    assert_eq!(r.unwrap(), "愿你们执子之手，白头偕老".as_bytes().to_vec());
}

#[test]
fn empty_choices_is_empty_result() {
    let r = interpret_response(200, b"{\"choices\":[]}".to_vec());
    assert_eq!(r.unwrap_err(), GenerateError::EmptyResult);
}

#[test]
fn non_json_body_is_a_parse_failure() {
    let r = interpret_response(200, b"not json".to_vec());
    assert_eq!(r.unwrap_err(), GenerateError::ResponseParseFailure);
}

#[test]
fn json_string_body_is_still_a_parse_failure() {
    let r = interpret_response(200, b"\"not json\"".to_vec());
    assert_eq!(r.unwrap_err(), GenerateError::ResponseParseFailure);
}

#[test]
fn truncated_body_is_a_parse_failure() {
    let r = interpret_response(200, b"{\"choices\":[".to_vec());
    assert_eq!(r.unwrap_err(), GenerateError::ResponseParseFailure);
}

#[test]
fn empty_success_body_is_a_parse_failure() {
    let r = interpret_response(204, Vec::new());
    assert_eq!(r.unwrap_err(), GenerateError::ResponseParseFailure);
}

#[test]
fn invalid_utf8_body_is_a_parse_failure() {
    let r = interpret_response(200, vec![0x22, 0xff, 0x22]);
    assert_eq!(r.unwrap_err(), GenerateError::ResponseParseFailure);
}

#[test]
fn unknown_fields_and_whitespace_are_tolerated() {
    let body = " {\n \"id\": \"cmpl-1\", \"usage\": {\"total_tokens\": 1.5e3, \"flags\": [null, true, false, -0.25]},\n \"choices\": [ {\"index\": 0, \"message\": {\"role\": \"assistant\", \"content\": \"ok\"} } ]\n } ";
    let r = interpret_response(200, body.as_bytes().to_vec());
    assert_eq!(r.unwrap(), b"ok".to_vec());
}

#[test]
fn later_choices_are_ignored() {
    let body = "{\"choices\":[{\"message\":{\"role\":\"assistant\",\"content\":\"first\"}},{\"message\":{\"role\":\"assistant\",\"content\":\"second\"}}]}";
    let r = interpret_response(200, body.as_bytes().to_vec());
    assert_eq!(r.unwrap(), b"first".to_vec());
}

#[test]
fn escapes_in_content_are_decoded() {
    let r = interpret_response(200, ok_body("a\\\"b\\\\c\\/d\\b\\f\\n\\r\\t"));
    assert_eq!(r.unwrap(), b"a\"b\\c/d\x08\x0c\n\r\t".to_vec());
}

#[test]
fn unicode_escapes_are_decoded() {
    let r = interpret_response(200, ok_body("\\u597d\\u0041\\u00e9"));
    assert_eq!(r.unwrap(), "好Aé".as_bytes().to_vec());
}

#[test]
fn surrogate_pairs_are_decoded() {
    let r = interpret_response(200, ok_body("\\ud83d\\ude00"));
    assert_eq!(r.unwrap(), "😀".as_bytes().to_vec());
}

#[test]
fn lone_surrogate_is_a_parse_failure() {
    let r = interpret_response(200, ok_body("\\ud83d oops"));
    assert_eq!(r.unwrap_err(), GenerateError::ResponseParseFailure);
    let r = interpret_response(200, ok_body("\\ude00"));
    assert_eq!(r.unwrap_err(), GenerateError::ResponseParseFailure);
}

#[test]
fn raw_control_byte_in_string_is_a_parse_failure() {
    let r = interpret_response(200, ok_body("bad\u{1}char"));
    assert_eq!(r.unwrap_err(), GenerateError::ResponseParseFailure);
}

#[test]
fn duplicate_choices_field_is_a_parse_failure() {
    let body = "{\"choices\":[],\"choices\":[]}";
    let r = interpret_response(200, body.as_bytes().to_vec());
    assert_eq!(r.unwrap_err(), GenerateError::ResponseParseFailure);
}

#[test]
fn message_without_role_is_a_parse_failure() {
    let body = "{\"choices\":[{\"message\":{\"content\":\"x\"}}]}";
    let r = interpret_response(200, body.as_bytes().to_vec());
    assert_eq!(r.unwrap_err(), GenerateError::ResponseParseFailure);
}

#[test]
fn message_without_content_is_a_parse_failure() {
    let body = "{\"choices\":[{\"message\":{\"role\":\"assistant\"}}]}";
    let r = interpret_response(200, body.as_bytes().to_vec());
    assert_eq!(r.unwrap_err(), GenerateError::ResponseParseFailure);
}

#[test]
fn missing_choices_field_is_a_parse_failure() {
    let r = interpret_response(200, b"{}".to_vec());
    assert_eq!(r.unwrap_err(), GenerateError::ResponseParseFailure);
    let r = interpret_response(200, b"{\"id\":\"x\"}".to_vec());
    assert_eq!(r.unwrap_err(), GenerateError::ResponseParseFailure);
}

#[test]
fn trailing_characters_are_a_parse_failure() {
    let r = interpret_response(200, b"{\"choices\":[]} x".to_vec());
    assert_eq!(r.unwrap_err(), GenerateError::ResponseParseFailure);
}

#[test]
fn leading_zero_numbers_are_a_parse_failure() {
    let body = "{\"n\":01,\"choices\":[]}";
    let r = interpret_response(200, body.as_bytes().to_vec());
    assert_eq!(r.unwrap_err(), GenerateError::ResponseParseFailure);
}

#[test]
fn moderate_nesting_in_unknown_fields_is_tolerated() {
    let body = "{\"extra\":[[[{\"a\":[1,2,{\"b\":[]}]}]]],\"choices\":[]}";
    let r = interpret_response(200, body.as_bytes().to_vec());
    assert_eq!(r.unwrap_err(), GenerateError::EmptyResult);
}

#[test]
fn very_deep_nesting_is_a_parse_failure() {
    let mut body = String::from("{\"extra\":");
    for _ in 0..200 {
        body.push('[');
    }
    for _ in 0..200 {
        body.push(']');
    }
    body.push_str(",\"choices\":[]}");
    let r = interpret_response(200, body.into_bytes());
    assert_eq!(r.unwrap_err(), GenerateError::ResponseParseFailure);
}

#[test]
fn number_edges_follow_the_grammar() {
    let ok = "{\"n\":-1.5e+10,\"m\":0,\"k\":-0.25E-2,\"choices\":[]}";
    assert_eq!(
        interpret_response(200, ok.as_bytes().to_vec()).unwrap_err(),
        GenerateError::EmptyResult,
    );
    for bad in ["{\"n\":1.,\"choices\":[]}", "{\"n\":-,\"choices\":[]}", "{\"n\":1e,\"choices\":[]}"] {
        assert_eq!(
            interpret_response(200, bad.as_bytes().to_vec()).unwrap_err(),
            GenerateError::ResponseParseFailure,
        );
    }
}

#[test]
fn escaped_key_names_are_decoded_before_matching() {
    let body = "{\"\\u0063hoices\":[]}";
    assert_eq!(
        interpret_response(200, body.as_bytes().to_vec()).unwrap_err(),
        GenerateError::EmptyResult,
    );
}

#[test]
fn parse_response_yields_every_choice() {
    let body = "{\"choices\":[{\"message\":{\"role\":\"a\",\"content\":\"x\"}},{\"message\":{\"role\":\"b\",\"content\":\"y\"}}]}";
    let parsed = parse_response(body.as_bytes()).unwrap();
    assert_eq!(parsed, vec![b"x".to_vec(), b"y".to_vec()]);
    assert_eq!(parse_response(b"{\"choices\":[]}").unwrap(), Vec::<Vec<u8>>::new());
    assert!(parse_response(b"[]").is_none());
}

#[test]
fn utf8_checker_accepts_and_rejects() {
    assert!(check_utf8("plain ascii".as_bytes()));
    assert!(check_utf8("héllo 好 😀".as_bytes()));
    assert!(check_utf8(&[]));
    assert!(!check_utf8(&[0xff]));
    assert!(!check_utf8(&[0xc0, 0x80]));
    assert!(!check_utf8(&[0xed, 0xa0, 0x80]));
    assert!(!check_utf8(&[0xf4, 0x90, 0x80, 0x80]));
    assert!(!check_utf8(&[0xe4, 0xbd]));
}

#[test]
fn describe_names_each_failure() {
    let msg = |e: GenerateError| String::from_utf8(e.describe()).unwrap();
    assert_eq!(
        msg(GenerateError::ConfigurationMissing),
        "DeepSeek API key is not configured; set DEEPSEEK_API_KEY in the environment",
    );
    assert_eq!(
        msg(GenerateError::CredentialFormatInvalid),
        "the configured API key cannot be used as an HTTP header value",
    );
    assert_eq!(
        msg(GenerateError::TransportFailure(b"connection refused".to_vec())),
        "DeepSeek API call failed: connection refused",
    );
    assert_eq!(
        msg(GenerateError::RemoteError(502, b"bad gateway".to_vec())),
        "API request failed with status 502: bad gateway",
    );
    assert_eq!(msg(GenerateError::ResponseParseFailure), "failed to parse the API response");
    assert_eq!(
        msg(GenerateError::EmptyResult),
        "the API response contained no generated content",
    );
}
