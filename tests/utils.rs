use goose::json::JsonValue;
use goose::utils::{
    check_bedrock_context_length_error, convert_image, get_model, is_valid_function_name,
    sanitize_function_name, unescape_json_values, ImageFormat,
};

fn s(text: &str) -> JsonValue {
    JsonValue::Str(text.to_string())
}

fn obj(entries: Vec<(&str, JsonValue)>) -> JsonValue {
    JsonValue::Object(entries.into_iter().map(|(k, v)| (k.to_string(), v)).collect())
}

#[test]
fn test_sanitize_function_name() {
    assert_eq!(sanitize_function_name("hello-world"), "hello-world");
    assert_eq!(sanitize_function_name("hello world"), "hello_world");
    assert_eq!(sanitize_function_name("hello@world"), "hello_world");
}

#[test]
fn test_is_valid_function_name() {
    assert!(is_valid_function_name("hello-world"));
    assert!(is_valid_function_name("hello_world"));
    assert!(!is_valid_function_name("hello world"));
    assert!(!is_valid_function_name("hello@world"));
}

#[test]
fn empty_function_name_is_invalid() {
    assert!(!is_valid_function_name(""));
    assert!(!is_valid_function_name("a\n"));
}

#[test]
fn test_check_bedrock_context_length_error() {
    let error = obj(vec![
        ("error", s("Received error from amazon-bedrock")),
        (
            "external_model_message",
            obj(vec![("message", s("Input is too long for requested model."))]),
        ),
    ]);

    let result = check_bedrock_context_length_error(&error);
    assert!(result.is_some());
    assert_eq!(
        result.unwrap().message(),
        "Context length exceeded. Message: Input is too long for requested model."
    );

    let error = obj(vec![
        ("error", s("Some other error")),
        ("external_model_message", obj(vec![("message", s("Some other message"))])),
    ]);

    let result = check_bedrock_context_length_error(&error);
    assert!(result.is_none());
}

#[test]
fn bedrock_error_matches_any_case() {
    let error = obj(vec![("external_model_message", obj(vec![("message", s("Prompt TOO LONG"))]))]);
    let result = check_bedrock_context_length_error(&error).unwrap();
    assert_eq!(result.0, "Prompt TOO LONG");
}

#[test]
fn unescape_json_values_with_object() {
    let value = obj(vec![("text", s("Hello\\nWorld"))]);
    let unescaped_value = unescape_json_values(&value);
    assert_eq!(unescaped_value, obj(vec![("text", s("Hello\nWorld"))]));
}

#[test]
fn unescape_json_values_with_array() {
    let value = JsonValue::Array(vec![s("Hello\\nWorld"), s("Goodbye\\tWorld")]);
    let unescaped_value = unescape_json_values(&value);
    assert_eq!(unescaped_value, JsonValue::Array(vec![s("Hello\nWorld"), s("Goodbye\tWorld")]));
}

#[test]
fn unescape_json_values_with_string() {
    let value = s("Hello\\nWorld");
    let unescaped_value = unescape_json_values(&value);
    assert_eq!(unescaped_value, s("Hello\nWorld"));
}

#[test]
fn unescape_json_values_with_mixed_content() {
    let value = obj(vec![
        ("text", s("Hello\\nWorld\\\\n!")),
        ("array", JsonValue::Array(vec![s("Goodbye\\tWorld"), s("See you\\rlater")])),
        ("nested", obj(vec![("inner_text", s("Inner\\\"Quote\\\""))])),
    ]);
    let unescaped_value = unescape_json_values(&value);
    assert_eq!(
        unescaped_value,
        obj(vec![
            ("text", s("Hello\nWorld\n!")),
            ("array", JsonValue::Array(vec![s("Goodbye\tWorld"), s("See you\rlater")])),
            ("nested", obj(vec![("inner_text", s("Inner\"Quote\""))])),
        ])
    );
}

#[test]
fn unescape_json_values_with_no_escapes() {
    let value = obj(vec![("text", s("Hello World"))]);
    let unescaped_value = unescape_json_values(&value);
    assert_eq!(unescaped_value, obj(vec![("text", s("Hello World"))]));
}

#[test]
fn model_name_or_unknown() {
    assert_eq!(get_model(&obj(vec![("model", s("gpt-4o"))])), "gpt-4o");
    assert_eq!(get_model(&obj(vec![("model", JsonValue::Number("3".to_string()))])), "Unknown");
    assert_eq!(get_model(&JsonValue::Null), "Unknown");
}

#[test]
fn images_in_provider_shapes() {
    let openai = convert_image("AAAA", "image/png", ImageFormat::OpenAi);
    assert_eq!(
        openai,
        obj(vec![
            ("type", s("image_url")),
            ("image_url", obj(vec![("url", s("data:image/png;base64,AAAA"))])),
        ])
    );
    let anthropic = convert_image("AAAA", "image/png", ImageFormat::Anthropic);
    assert_eq!(
        anthropic,
        obj(vec![
            ("type", s("image")),
            (
                "source",
                obj(vec![("type", s("base64")), ("media_type", s("image/png")), ("data", s("AAAA"))]),
            ),
        ])
    );
}
