//! The typed MCP calls: the parameters a client sends and what it makes of
//! the results of `tools/list`, `tools/call` and `resources/read`.
use vstd::prelude::*;
use crate::capabilities::Tool;
use crate::json::{JsonValue, field_of, str_field_of, first_key_index};
use crate::message::{AgentError, Content, Annotations, content_text};
use crate::text::str_eq;

verus! {

/// The parameters of `tools/call`: `{"name": name, "arguments": arguments}`.
pub fn call_tool_params(name: &str, arguments: JsonValue) -> (r: JsonValue)
    ensures
        str_field_of(r, "name"@) == Some(name@),
        field_of(r, "arguments"@) == Some(arguments),
{
    proof {
        reveal_strlit("name");
        reveal_strlit("arguments");
        reveal_with_fuel(first_key_index, 3);
        assert("name"@[0] != "arguments"@[0]);
    }
    let mut es: Vec<(String, JsonValue)> = Vec::new();
    es.push(("name".to_owned(), JsonValue::Str(name.to_owned())));
    es.push(("arguments".to_owned(), arguments));
    assert(es@.skip(1)[0] == es@[1]);
    JsonValue::Object(es)
}

/// The entry is a usable tool: it has a string name.
pub open spec fn is_tool_entry(v: JsonValue) -> bool {
    str_field_of(v, "name"@) is Some
}

/// The tools a `tools/list` result lists: each entry's name and description
/// (empty where absent); a result without a `tools` list, or an entry
/// without a name, is a transport error.
pub fn parse_tools(result: &JsonValue) -> (r: Result<Vec<Tool>, AgentError>)
    ensures
        match field_of(*result, "tools"@) {
            Some(JsonValue::Array(items)) => {
                &&& (r is Ok <==> forall|i: int| 0 <= i < items@.len() ==> is_tool_entry(#[trigger] items@[i]))
                &&& (r matches Ok(v) ==> v@.len() == items@.len() && forall|i: int| 0 <= i < v@.len() ==> {
                    &&& Some((#[trigger] v@[i]).name@) == str_field_of(items@[i], "name"@)
                    &&& v@[i].description@ == match str_field_of(items@[i], "description"@) {
                        Some(d) => d,
                        None => Seq::<char>::empty(),
                    }
                })
            },
            _ => r is Err,
        },
{
    let items = match result.get("tools") {
        Some(JsonValue::Array(items)) => items,
        _ => {
            return Err(AgentError::Transport("tools/list result has no tools".to_owned()));
        },
    };
    let mut v: Vec<Tool> = Vec::new();
    let mut i: usize = 0;
    while i < items.len()
        invariant
            field_of(*result, "tools"@) == Some(JsonValue::Array(*items)),
            i <= items@.len(),
            v@.len() == i,
            forall|j: int| 0 <= j < i ==> is_tool_entry(#[trigger] items@[j]),
            forall|j: int| 0 <= j < i ==> {
                &&& Some((#[trigger] v@[j]).name@) == str_field_of(items@[j], "name"@)
                &&& v@[j].description@ == match str_field_of(items@[j], "description"@) {
                    Some(d) => d,
                    None => Seq::<char>::empty(),
                }
            },
        decreases items.len() - i,
    {
        let item = &items[i];
        let name = match item.get_str("name") {
            Some(n) => n.clone(),
            None => {
                proof {
                    let xs = field_of(*result, "tools"@)->Some_0->Array_0;
                    assert(xs@[i as int] == items@[i as int]);
                    assert(!is_tool_entry(xs@[i as int]));
                }
                return Err(AgentError::Transport("tools/list entry has no name".to_owned()));
            },
        };
        let description = match item.get_str("description") {
            Some(d) => d.clone(),
            None => String::new(),
        };
        let schema = match item.get("inputSchema") {
            Some(x) => x.clone(),
            None => JsonValue::Null,
        };
        v.push(Tool { name, description, input_schema: schema });
        i = i + 1;
    }
    Ok(v)
}

/// What a content entry of a tool result becomes: a text block, or an
/// image block with its data and MIME type.
pub open spec fn content_from(item: JsonValue, c: Content) -> bool {
    if str_field_of(item, "type"@) == Some("text"@) {
        str_field_of(item, "text"@) is Some && content_text(c) == str_field_of(item, "text"@)
    } else {
        c matches Content::Image { data, mime_type, .. } && str_field_of(item, "data"@) == Some(data@) && str_field_of(
            item,
            "mimeType"@,
        ) == Some(mime_type@)
    }
}

/// The entry is a text block with text, or an image block with data and
/// MIME type.
pub open spec fn is_content_entry(item: JsonValue) -> bool {
    if str_field_of(item, "type"@) == Some("text"@) {
        str_field_of(item, "text"@) is Some
    } else {
        str_field_of(item, "type"@) == Some("image"@) && str_field_of(item, "data"@) is Some && str_field_of(
            item,
            "mimeType"@,
        ) is Some
    }
}

/// The result flags a failed tool call.
pub open spec fn is_error_result(result: JsonValue) -> bool {
    field_of(result, "isError"@) == Some(JsonValue::Bool(true))
}

/// The content a `tools/call` result carries, in order. A result without a
/// `content` list, or with an entry that is neither text nor an image, is a
/// transport error; a result flagged `isError` is an execution error.
pub fn parse_tool_result(result: &JsonValue) -> (r: Result<Vec<Content>, AgentError>)
    ensures
        match field_of(*result, "content"@) {
            Some(JsonValue::Array(items)) => {
                &&& (r is Ok <==> (forall|i: int| 0 <= i < items@.len() ==> is_content_entry(#[trigger] items@[i])) && !is_error_result(*result))
                &&& (r matches Ok(v) ==> v@.len() == items@.len() && forall|i: int| 0 <= i < v@.len() ==> content_from(items@[i], #[trigger] v@[i]))
                &&& ((forall|i: int| 0 <= i < items@.len() ==> is_content_entry(#[trigger] items@[i])) && is_error_result(*result) ==> (r matches Err(e) && e is ExecutionError))
            },
            _ => r is Err,
        },
{
    proof {
        reveal_strlit("text");
        reveal_strlit("image");
        assert("text"@[0] != "image"@[0]);
    }
    let items = match result.get("content") {
        Some(JsonValue::Array(items)) => items,
        _ => {
            return Err(AgentError::Transport("tools/call result has no content".to_owned()));
        },
    };
    let mut v: Vec<Content> = Vec::new();
    let mut i: usize = 0;
    while i < items.len()
        invariant
            field_of(*result, "content"@) == Some(JsonValue::Array(*items)),
            "text"@ != "image"@,
            i <= items@.len(),
            v@.len() == i,
            forall|j: int| 0 <= j < i ==> is_content_entry(#[trigger] items@[j]),
            forall|j: int| 0 <= j < i ==> content_from(items@[j], #[trigger] v@[j]),
        decreases items.len() - i,
    {
        let item = &items[i];
        let is_text = match item.get_str("type") {
            Some(t) => str_eq(t.as_str(), "text"),
            None => false,
        };
        let is_image = match item.get_str("type") {
            Some(t) => str_eq(t.as_str(), "image"),
            None => false,
        };
        let c = if is_text {
            match item.get_str("text") {
                Some(t) => Content::Text { text: t.clone(), annotations: Annotations { audience: None, priority: None } },
                None => {
                    proof {
                        let xs = field_of(*result, "content"@)->Some_0->Array_0;
                        assert(xs@[i as int] == items@[i as int]);
                        assert(!is_content_entry(xs@[i as int]));
                    }
                    return Err(AgentError::Transport("text content without text".to_owned()));
                },
            }
        } else {
            let data = item.get_str("data");
            let mime = item.get_str("mimeType");
            match (data, mime) {
                (Some(d), Some(m)) => {
                    if !is_image {
                        proof {
                            let xs = field_of(*result, "content"@)->Some_0->Array_0;
                            assert(xs@[i as int] == items@[i as int]);
                            assert(!is_content_entry(xs@[i as int]));
                        }
                        return Err(AgentError::Transport("unknown content type".to_owned()));
                    }
                    Content::Image {
                        data: d.clone(),
                        mime_type: m.clone(),
                        annotations: Annotations { audience: None, priority: None },
                    }
                },
                _ => {
                    proof {
                        let xs = field_of(*result, "content"@)->Some_0->Array_0;
                        assert(xs@[i as int] == items@[i as int]);
                        assert(!is_content_entry(xs@[i as int]));
                    }
                    return Err(AgentError::Transport("unknown content type".to_owned()));
                },
            }
        };
        v.push(c);
        i = i + 1;
    }
    let failed = match result.get("isError") {
        Some(JsonValue::Bool(b)) => *b,
        _ => false,
    };
    if failed {
        return Err(AgentError::ExecutionError("The tool reported an error".to_owned()));
    }
    Ok(v)
}

/// The content of a `resources/read` result: the first entry's text, or its
/// base64 blob for a binary resource; anything else is a transport error.
pub fn parse_read_resource(result: &JsonValue) -> (r: Result<String, AgentError>)
    ensures
        match field_of(*result, "contents"@) {
            Some(JsonValue::Array(items)) => if items@.len() == 0 {
                r is Err
            } else {
                match (str_field_of(items@[0], "text"@), str_field_of(items@[0], "blob"@)) {
                    (Some(t), _) => r matches Ok(s) && s@ == t,
                    (None, Some(b)) => r matches Ok(s) && s@ == b,
                    (None, None) => r is Err,
                }
            },
            _ => r is Err,
        },
{
    let items = match result.get("contents") {
        Some(JsonValue::Array(items)) => items,
        _ => {
            return Err(AgentError::Transport("resources/read result has no contents".to_owned()));
        },
    };
    if items.len() == 0 {
        return Err(AgentError::Transport("resources/read result is empty".to_owned()));
    }
    match items[0].get_str("text") {
        Some(t) => Ok(t.clone()),
        None => match items[0].get_str("blob") {
            Some(b) => Ok(b.clone()),
            None => Err(AgentError::Transport("resource content is neither text nor blob".to_owned())),
        },
    }
}

} // verus!
