//! Helpers shared by the provider adapters: image blocks in each provider's
//! JSON shape, tool names a provider accepts, reading a provider's error body,
//! and undoing doubled escapes in model output.
use vstd::prelude::*;
use crate::capabilities::{is_name_char, is_valid_name};
use crate::json::{JsonValue, field_of, str_field_of};
use crate::text::{concat_str, count_matches, count_occurrences, replace_all, replace_str};

verus! {

/// The JSON shape in which a provider takes images.
#[derive(Clone, Copy, Debug, PartialEq, Eq, Structural)]
pub enum ImageFormat {
    OpenAi,
    Anthropic,
}

/// An image, base64 `data` of type `mime_type`, as `format` expects it:
/// OpenAI takes a data URL under `image_url.url`; Anthropic a `source` object
/// of type `base64` with the media type and data.
pub fn convert_image(data: &str, mime_type: &str, format: ImageFormat) -> (r: JsonValue)
    ensures
        format == ImageFormat::OpenAi ==> str_field_of(r, "type"@) == Some("image_url"@) && match field_of(r, "image_url"@) {
            Some(u) => str_field_of(u, "url"@) == Some("data:"@ + mime_type@ + ";base64,"@ + data@),
            None => false,
        },
        format == ImageFormat::Anthropic ==> str_field_of(r, "type"@) == Some("image"@) && match field_of(r, "source"@) {
            Some(s) => str_field_of(s, "type"@) == Some("base64"@) && str_field_of(s, "media_type"@)
                == Some(mime_type@) && str_field_of(s, "data"@) == Some(data@),
            None => false,
        },
{
    proof {
        reveal_strlit("type");
        reveal_strlit("image_url");
        reveal_strlit("url");
        reveal_strlit("source");
        reveal_strlit("media_type");
        reveal_strlit("data");
        reveal_with_fuel(crate::json::first_key_index, 4);
    }
    match format {
        ImageFormat::OpenAi => {
            let mut url = concat_str("data:", mime_type);
            url.append(";base64,");
            url.append(data);
            let mut inner: Vec<(String, JsonValue)> = Vec::new();
            inner.push(("url".to_owned(), JsonValue::Str(url)));
            let inner = JsonValue::Object(inner);
            let mut outer: Vec<(String, JsonValue)> = Vec::new();
            outer.push(("type".to_owned(), JsonValue::Str("image_url".to_owned())));
            outer.push(("image_url".to_owned(), inner));
            let r = JsonValue::Object(outer);
            assert(crate::json::first_key_index(outer@, "type"@) == Some(0int));
            assert(outer@.skip(1)[0] == outer@[1]);
            assert("type"@[0] != "image_url"@[0]);
            assert(crate::json::first_key_index(outer@, "image_url"@) == Some(1int));
            r
        },
        ImageFormat::Anthropic => {
            let mut src: Vec<(String, JsonValue)> = Vec::new();
            src.push(("type".to_owned(), JsonValue::Str("base64".to_owned())));
            src.push(("media_type".to_owned(), JsonValue::Str(mime_type.to_owned())));
            src.push(("data".to_owned(), JsonValue::Str(data.to_owned())));
            let ghost s = src@;
            assert(s.skip(1)[0] == s[1]);
            assert(s.skip(1).skip(1)[0] == s[2]);
            assert(crate::json::first_key_index(s, "type"@) == Some(0int));
            assert("type"@[0] != "media_type"@[0]);
            assert(crate::json::first_key_index(s, "media_type"@) == Some(1int));
            assert(crate::json::first_key_index(s, "data"@) == Some(2int));
            let src = JsonValue::Object(src);
            let mut outer: Vec<(String, JsonValue)> = Vec::new();
            outer.push(("type".to_owned(), JsonValue::Str("image".to_owned())));
            outer.push(("source".to_owned(), src));
            assert(outer@.skip(1)[0] == outer@[1]);
            assert(crate::json::first_key_index(outer@, "type"@) == Some(0int));
            assert("type"@[0] != "source"@[0]);
            assert(crate::json::first_key_index(outer@, "source"@) == Some(1int));
            JsonValue::Object(outer)
        },
    }
}

/// Relies on regex::Regex::replace_all: with the pattern `[^a-zA-Z0-9_-]`
/// each character outside that class is a match of its own and is replaced
/// by the replacement `_`, which holds no `$` group reference.
#[verifier::external_body]
fn regex_replace_all(pattern: &str, text: &str, rep: &str) -> (r: String)
    requires
        pattern@ == "[^a-zA-Z0-9_-]"@,
        rep@ == "_"@,
    ensures
        r@ == text@.map_values(|c: char| if is_name_char(c) { c } else { '_' }),
{
    regex::Regex::new(pattern).unwrap().replace_all(text, rep).into_owned()
}

/// Relies on regex::Regex::is_match: the pattern `^[a-zA-Z0-9_-]+$` matches
/// exactly the non-empty texts made of those characters (`$` is the end of
/// the text).
#[verifier::external_body]
fn regex_is_match(pattern: &str, text: &str) -> (r: bool)
    requires
        pattern@ == "^[a-zA-Z0-9_-]+$"@,
    ensures
        r == is_valid_name(text@),
{
    regex::Regex::new(pattern).unwrap().is_match(text)
}

/// `name` with every character a provider refuses in a function name
/// replaced by `_`.
pub fn sanitize_function_name(name: &str) -> (r: String)
    ensures
        r@ == name@.map_values(|c: char| if is_name_char(c) { c } else { '_' }),
{
    regex_replace_all("[^a-zA-Z0-9_-]", name, "_")
}

/// Whether a provider accepts `name` as a function name: non-empty, of
/// letters, digits, `_` and `-` only.
pub fn is_valid_function_name(name: &str) -> (r: bool)
    ensures
        r == is_valid_name(name@),
{
    regex_is_match("^[a-zA-Z0-9_-]+$", name)
}

/// A sanitized name is accepted wherever it is not empty.
pub proof fn lemma_sanitized_is_valid(name: Seq<char>)
    requires
        name.len() > 0,
    ensures
        is_valid_name(name.map_values(|c: char| if is_name_char(c) { c } else { '_' })),
{
}

/// The provider rejected the request as longer than the model's context.
#[derive(Clone, Debug, PartialEq)]
pub struct ContextLengthExceededError(pub String);

impl ContextLengthExceededError {
    /// The error as shown to a user.
    pub fn message(&self) -> (r: String)
        ensures
            r@ == "Context length exceeded. Message: "@ + self.0@,
    {
        concat_str("Context length exceeded. Message: ", self.0.as_str())
    }
}

/// What `str::to_lowercase` makes of a text.
pub uninterp spec fn lower_of(s: Seq<char>) -> Seq<char>;

/// Relies on str::to_lowercase: the result depends on the characters alone.
#[verifier::external_body]
fn to_lowercase(s: &str) -> (r: String)
    ensures
        r@ == lower_of(s@),
{
    s.to_lowercase()
}

/// `p` occurs somewhere in `s`.
pub open spec fn contains(s: Seq<char>, p: Seq<char>) -> bool {
    exists|i: int| crate::text::occurs_at(s, p, i)
}

proof fn lemma_count_positive_iff_contains(s: Seq<char>, p: Seq<char>)
    requires
        p.len() > 0,
    ensures
        count_matches(s, p) > 0 <==> contains(s, p),
    decreases s.len(),
{
    if s.len() >= p.len() {
        if s.take(p.len() as int) == p {
            assert(crate::text::occurs_at(s, p, 0)) by {
                assert(s.subrange(0, p.len() as int) =~= s.take(p.len() as int));
            }
        } else {
            lemma_count_positive_iff_contains(s.skip(1), p);
            if contains(s, p) {
                let i = choose|i: int| crate::text::occurs_at(s, p, i);
                if i == 0 {
                    assert(s.subrange(0, p.len() as int) =~= s.take(p.len() as int));
                } else {
                    assert(s.skip(1).subrange(i - 1, i - 1 + p.len()) =~= s.subrange(i, i + p.len()));
                    assert(crate::text::occurs_at(s.skip(1), p, i - 1));
                }
            }
            if contains(s.skip(1), p) {
                let i = choose|i: int| crate::text::occurs_at(s.skip(1), p, i);
                assert(s.skip(1).subrange(i, i + p.len()) =~= s.subrange(i + 1, i + 1 + p.len()));
                assert(crate::text::occurs_at(s, p, i + 1));
            }
        }
    } else {
        if contains(s, p) {
            let i = choose|i: int| crate::text::occurs_at(s, p, i);
        }
    }
}

/// The message of a context-length error in a Bedrock error body: the text
/// under `external_model_message.message`, where its lower-case form says
/// "too long".
pub fn check_bedrock_context_length_error(error: &JsonValue) -> (r: Option<ContextLengthExceededError>)
    ensures
        match field_of(*error, "external_model_message"@) {
            Some(inner) => match str_field_of(inner, "message"@) {
                Some(m) => if contains(lower_of(m), "too long"@) {
                    r matches Some(e) && e.0@ == m
                } else {
                    r is None
                },
                None => r is None,
            },
            None => r is None,
        },
{
    let inner = match error.get("external_model_message") {
        Some(v) => v,
        None => {
            return None;
        },
    };
    let message = match inner.get_str("message") {
        Some(m) => m,
        None => {
            return None;
        },
    };
    let lower = to_lowercase(message.as_str());
    proof {
        reveal_strlit("too long");
        lemma_count_positive_iff_contains(lower@, "too long"@);
    }
    if count_occurrences(lower.as_str(), "too long") > 0 {
        Some(ContextLengthExceededError(message.clone()))
    } else {
        None
    }
}

/// The model named at the top level of a provider's response, or "Unknown".
pub fn get_model(data: &JsonValue) -> (r: String)
    ensures
        match str_field_of(*data, "model"@) {
            Some(m) => r@ == m,
            None => r@ == "Unknown"@,
        },
{
    match data.get_str("model") {
        Some(m) => m.clone(),
        None => "Unknown".to_owned(),
    }
}

/// A text with doubled and single escapes of newline, tab, carriage return
/// and quote turned into the characters themselves, doubled ones first.
pub open spec fn unescape_text(s: Seq<char>) -> Seq<char> {
    replace_all(replace_all(replace_all(replace_all(replace_all(replace_all(replace_all(replace_all(s, "\\\\n"@, "\n"@), "\\\\t"@, "\t"@), "\\\\r"@, "\r"@), "\\\\\""@, "\""@), "\\n"@, "\n"@), "\\t"@, "\t"@), "\\r"@, "\r"@), "\\\""@, "\""@)
}

/// `b` has the shape of `a` with strings unescaped: a string becomes its
/// unescaped text; an array keeps its length and an object its keys, in order;
/// any other value stays as it is.
pub open spec fn unescaped(a: JsonValue, b: JsonValue) -> bool {
    match a {
        JsonValue::Str(s) => b matches JsonValue::Str(t) && t@ == unescape_text(s@),
        JsonValue::Array(xs) => b matches JsonValue::Array(ys) && ys@.len() == xs@.len(),
        JsonValue::Object(es) => match b {
            JsonValue::Object(fs) => fs@.len() == es@.len() && forall|i: int|
                0 <= i < es@.len() ==> #[trigger] fs@[i].0 == es@[i].0,
            _ => false,
        },
        _ => b == a,
    }
}

fn unescape_str(s: &str) -> (r: String)
    ensures
        r@ == unescape_text(s@),
{
    proof {
        reveal_strlit("\\\\n");
        reveal_strlit("\\\\t");
        reveal_strlit("\\\\r");
        reveal_strlit("\\\\\"");
        reveal_strlit("\\n");
        reveal_strlit("\\t");
        reveal_strlit("\\r");
        reveal_strlit("\\\"");
    }
    let t0 = replace_str(s, "\\\\n", "\n");
    let t1 = replace_str(t0.as_str(), "\\\\t", "\t");
    let t2 = replace_str(t1.as_str(), "\\\\r", "\r");
    let t3 = replace_str(t2.as_str(), "\\\\\"", "\"");
    let t4 = replace_str(t3.as_str(), "\\n", "\n");
    let t5 = replace_str(t4.as_str(), "\\t", "\t");
    let t6 = replace_str(t5.as_str(), "\\r", "\r");
    let t7 = replace_str(t6.as_str(), "\\\"", "\"");
    t7
}

/// `value` with every string unescaped: doubled and single escapes of
/// newline, tab, carriage return and quote become those characters.
pub fn unescape_json_values(value: &JsonValue) -> (r: JsonValue)
    ensures
        unescaped(*value, r),
        match (*value, r) {
            (JsonValue::Array(xs), JsonValue::Array(ys)) => forall|i: int|
                0 <= i < xs@.len() ==> #[trigger] unescaped(xs@[i], ys@[i]),
            (JsonValue::Object(es), JsonValue::Object(fs)) => forall|i: int|
                0 <= i < es@.len() ==> #[trigger] unescaped(es@[i].1, fs@[i].1),
            _ => true,
        },
    decreases value,
{
    match value {
        JsonValue::Str(s) => {
            let t = unescape_str(s.as_str());
            let r = JsonValue::Str(t);
            assert(unescaped(*value, r));
            r
        },
        JsonValue::Array(items) => {
            let mut out: Vec<JsonValue> = Vec::new();
            let mut i: usize = 0;
            while i < items.len()
                invariant
                    i <= items@.len(),
                    *value == JsonValue::Array(*items),
                    out@.len() == i,
                    forall|k: int| 0 <= k < i ==> #[trigger] unescaped(items@[k], out@[k]),
                decreases items.len() - i,
            {
                proof {
                    assert(decreases_to!(*value => value->Array_0));
                    assert(decreases_to!(value->Array_0 => value->Array_0@));
                    assert(decreases_to!(value->Array_0@ => items@[i as int]));
                }
                out.push(unescape_json_values(&items[i]));
                i = i + 1;
            }
            let r = JsonValue::Array(out);
            r
        },
        JsonValue::Object(entries) => {
            let mut out: Vec<(String, JsonValue)> = Vec::new();
            let mut i: usize = 0;
            while i < entries.len()
                invariant
                    i <= entries@.len(),
                    *value == JsonValue::Object(*entries),
                    out@.len() == i,
                    forall|k: int| 0 <= k < i ==> #[trigger] out@[k].0 == entries@[k].0,
                    forall|k: int| 0 <= k < i ==> #[trigger] unescaped(entries@[k].1, out@[k].1),
                decreases entries.len() - i,
            {
                proof {
                    assert(decreases_to!(*value => value->Object_0));
                    assert(decreases_to!(value->Object_0 => value->Object_0@));
                    assert(decreases_to!(value->Object_0@ => entries@[i as int]));
                    assert(decreases_to!(entries@[i as int] => entries@[i as int].1));
                }
                let key = entries[i].0.clone();
                let v = unescape_json_values(&entries[i].1);
                out.push((key, v));
                assert(out@[i as int].0 == entries@[i as int].0);
                assert(unescaped(entries@[i as int].1, out@[i as int].1));
                i = i + 1;
            }
            let r = JsonValue::Object(out);
            r
        },
        JsonValue::Null => JsonValue::Null,
        JsonValue::Bool(b) => JsonValue::Bool(*b),
        JsonValue::Number(n) => {
            let r = JsonValue::Number(n.clone());
            assert(unescaped(*value, r));
            r
        },
    }
}

} // verus!
