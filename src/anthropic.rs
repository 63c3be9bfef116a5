//! The Anthropic message format: the request's system block, tool list and
//! conversation, the reading of a response into an assistant message, and
//! the cache marks added to an OpenAI-shaped request for an Anthropic model.
use vstd::prelude::*;
use crate::capabilities::Tool;
use crate::json::{JsonValue, field_of, str_field_of, first_key_index};
use crate::message::{AgentError, Content, Message, MessageContent, Role, ToolCall, ToolRequest};
use crate::text::str_eq;

verus! {

fn entry(key: &str, value: JsonValue) -> (r: (String, JsonValue))
    ensures
        r.0@ == key@,
        r.1 == value,
{
    (key.to_owned(), value)
}

/// `{"type": "ephemeral"}`, which marks a prefix for caching.
fn ephemeral() -> (r: JsonValue)
    ensures
        str_field_of(r, "type"@) == Some("ephemeral"@),
{
    let mut e: Vec<(String, JsonValue)> = Vec::new();
    e.push(entry("type", JsonValue::Str("ephemeral".to_owned())));
    assert(first_key_index(e@, "type"@) == Some(0int));
    JsonValue::Object(e)
}

/// The system prompt as one cached text block.
pub fn system_to_anthropic_spec(system: &str) -> (r: JsonValue)
    ensures
        r matches JsonValue::Array(items) && items@.len() == 1 && str_field_of(items@[0], "type"@) == Some("text"@)
            && str_field_of(items@[0], "text"@) == Some(system@) && match field_of(items@[0], "cache_control"@) {
            Some(c) => str_field_of(c, "type"@) == Some("ephemeral"@),
            None => false,
        },
{
    proof {
        reveal_strlit("type");
        reveal_strlit("text");
        reveal_strlit("cache_control");
        reveal_with_fuel(first_key_index, 4);
    }
    let mut b: Vec<(String, JsonValue)> = Vec::new();
    b.push(entry("type", JsonValue::Str("text".to_owned())));
    b.push(entry("text", JsonValue::Str(system.to_owned())));
    b.push(entry("cache_control", ephemeral()));
    let ghost s = b@;
    assert(s.skip(1)[0] == s[1]);
    assert(s.skip(1).skip(1)[0] == s[2]);
    assert("type"@[1] != "text"@[1]);
    assert("type"@[0] != "cache_control"@[0]);
    assert("text"@[0] != "cache_control"@[0]);
    assert(first_key_index(s, "type"@) == Some(0int));
    assert(first_key_index(s, "text"@) == Some(1int));
    assert(first_key_index(s, "cache_control"@) == Some(2int));
    let mut items: Vec<JsonValue> = Vec::new();
    items.push(JsonValue::Object(b));
    JsonValue::Array(items)
}

/// Indices of the tools whose name no earlier tool has.
pub open spec fn first_named(tools: Seq<Tool>) -> Seq<int>
    decreases tools.len(),
{
    if tools.len() == 0 {
        Seq::empty()
    } else {
        let p = first_named(tools.drop_last());
        if exists|j: int| 0 <= j < tools.len() - 1 && tools[j].name@ == tools.last().name@ {
            p
        } else {
            p.push(tools.len() - 1)
        }
    }
}

/// The entries of a tool in Anthropic's shape: name, description, schema.
pub open spec fn is_tool_entry(es: Seq<(String, JsonValue)>, t: Tool) -> bool {
    &&& es.len() >= 3
    &&& es[0].0@ == "name"@
    &&& es[0].1 is Str
    &&& es[0].1->Str_0@ == t.name@
    &&& es[1].0@ == "description"@
    &&& es[1].1 is Str
    &&& es[1].1->Str_0@ == t.description@
    &&& es[2].0@ == "input_schema"@
}

proof fn lemma_tool_entry_fields(v: JsonValue, t: Tool)
    requires
        v is Object,
        is_tool_entry(v->Object_0@, t),
    ensures
        str_field_of(v, "name"@) == Some(t.name@),
        str_field_of(v, "description"@) == Some(t.description@),
{
    let es = v->Object_0@;
    reveal_strlit("name");
    reveal_strlit("description");
    reveal_with_fuel(first_key_index, 3);
    assert("name"@[0] != "description"@[0]);
    assert(es.skip(1)[0] == es[1]);
    assert(first_key_index(es, "name"@) == Some(0int));
    assert(first_key_index(es, "description"@) == Some(1int));
}

/// The tool list in Anthropic's shape: one entry per name, the first tool of
/// that name, in order, each with its name, description and input schema;
/// the last entry is marked for caching.
pub fn tools_to_anthropic_spec(tools: &Vec<Tool>) -> (r: Vec<JsonValue>)
    ensures
        r@.len() == first_named(tools@).len(),
        forall|k: int| 0 <= k < r@.len() ==> {
            &&& str_field_of(#[trigger] r@[k], "name"@) == Some(tools@[first_named(tools@)[k]].name@)
            &&& str_field_of(r@[k], "description"@) == Some(tools@[first_named(tools@)[k]].description@)
        },
        r@.len() > 0 ==> match field_of(r@.last(), "cache_control"@) {
            Some(c) => str_field_of(c, "type"@) == Some("ephemeral"@),
            None => false,
        },
{
    let mut r: Vec<JsonValue> = Vec::new();
    let mut i: usize = 0;
    assert(tools@.take(0) =~= Seq::<Tool>::empty());
    while i < tools.len()
        invariant
            i <= tools@.len(),
            r@.len() == first_named(tools@.take(i as int)).len(),
            forall|k: int| 0 <= k < r@.len() ==> (#[trigger] r@[k]) is Object && is_tool_entry(
                r@[k]->Object_0@,
                tools@[first_named(tools@.take(i as int))[k]],
            ) && r@[k]->Object_0@.len() == 3,
        decreases tools.len() - i,
    {
        let mut seen = false;
        let mut j: usize = 0;
        while j < i
            invariant
                i < tools@.len(),
                j <= i,
                seen == exists|m: int| 0 <= m < j && tools@[m].name@ == tools@[i as int].name@,
            decreases i - j,
        {
            if str_eq(tools[j].name.as_str(), tools[i].name.as_str()) {
                seen = true;
            }
            j = j + 1;
        }
        let ghost t = tools@.take(i + 1);
        proof {
            assert(t.drop_last() =~= tools@.take(i as int));
            assert(t.last() == tools@[i as int]);
            assert(forall|m: int| 0 <= m < i ==> t[m] == tools@[m]);
            if seen {
                let m = choose|m: int| 0 <= m < i && tools@[m].name@ == tools@[i as int].name@;
                assert(t[m].name@ == t.last().name@);
            } else {
                assert forall|m: int| 0 <= m < t.len() - 1 implies t[m].name@ != t.last().name@ by {
                    assert(t[m] == tools@[m]);
                }
            }
        }
        if !seen {
            let mut e: Vec<(String, JsonValue)> = Vec::new();
            e.push(entry("name", JsonValue::Str(tools[i].name.clone())));
            e.push(entry("description", JsonValue::Str(tools[i].description.clone())));
            e.push(entry("input_schema", tools[i].input_schema.clone()));
            let v = JsonValue::Object(e);
            assert(is_tool_entry(e@, tools@[i as int]));
            r.push(v);
            assert(first_named(t).last() == i as int);
        }
        i = i + 1;
    }
    assert(tools@.take(i as int) =~= tools@);
    let n = r.len();
    if n > 0 {
        let last = r.pop().unwrap();
        let mut es = match last {
            JsonValue::Object(es) => es,
            _ => Vec::new(),
        };
        let ghost before = es@;
        es.push(entry("cache_control", ephemeral()));
        proof {
            reveal_strlit("name");
            reveal_strlit("description");
            reveal_strlit("input_schema");
            reveal_strlit("cache_control");
            reveal_with_fuel(first_key_index, 5);
            assert("name"@[0] != "cache_control"@[0]);
            assert("description"@[0] != "cache_control"@[0]);
            assert("input_schema"@[0] != "cache_control"@[0]);
            let s = es@;
            assert(s.skip(1)[0] == s[1]);
            assert(s.skip(1).skip(1)[0] == s[2]);
            assert(s.skip(1).skip(1).skip(1)[0] == s[3]);
            assert(first_key_index(s, "cache_control"@) == Some(3int));
            assert(is_tool_entry(s, tools@[first_named(tools@)[n - 1]]));
        }
        r.push(JsonValue::Object(es));
    }
    assert forall|k: int| 0 <= k < r@.len() implies {
        &&& str_field_of(#[trigger] r@[k], "name"@) == Some(tools@[first_named(tools@)[k]].name@)
        &&& str_field_of(r@[k], "description"@) == Some(tools@[first_named(tools@)[k]].description@)
    } by {
        lemma_tool_entry_fields(r@[k], tools@[first_named(tools@)[k]]);
    }
    r
}

/// A `tool_use` block lacks its id, name or input.
pub open spec fn is_broken_tool_use(b: JsonValue) -> bool {
    str_field_of(b, "type"@) == Some("tool_use"@) && (str_field_of(b, "id"@) is None || str_field_of(b, "name"@)
        is None || field_of(b, "input"@) is None)
}

/// The block becomes message content: a `text` block with its text, or a
/// `tool_use` block.
pub open spec fn yields_content(b: JsonValue) -> bool {
    (str_field_of(b, "type"@) == Some("text"@) && str_field_of(b, "text"@) is Some) || str_field_of(b, "type"@)
        == Some("tool_use"@)
}

/// Indices of the blocks that become message content.
pub open spec fn content_blocks(bs: Seq<JsonValue>) -> Seq<int>
    decreases bs.len(),
{
    if bs.len() == 0 {
        Seq::empty()
    } else if yields_content(bs.last()) {
        content_blocks(bs.drop_last()).push(bs.len() - 1)
    } else {
        content_blocks(bs.drop_last())
    }
}

/// `c` is what block `b` becomes: its text, or a request to call the named
/// tool under the block's id.
pub open spec fn block_becomes(b: JsonValue, c: MessageContent) -> bool {
    if str_field_of(b, "type"@) == Some("text"@) {
        c matches MessageContent::Text(t) && Some(t@) == str_field_of(b, "text"@)
    } else {
        c matches MessageContent::ToolRequest(q) && Some(q.id@) == str_field_of(b, "id"@) && (q.tool_call matches Ok(call)
            && Some(call.name@) == str_field_of(b, "name"@))
    }
}

/// The assistant message an Anthropic response holds: one block of content
/// for each `text` block with text and each `tool_use` block, in order;
/// other blocks are skipped. A response without a `content` array, or with a
/// `tool_use` block lacking its id, name or input, is an execution error.
pub fn parse_anthropic_response(response: &JsonValue) -> (r: Result<Message, AgentError>)
    ensures
        match field_of(*response, "content"@) {
            Some(JsonValue::Array(bs)) => {
                (r is Err <==> exists|i: int| 0 <= i < bs@.len() && is_broken_tool_use(#[trigger] bs@[i]))
                && (r matches Ok(m) ==> {
                    &&& m.role == Role::Assistant
                    &&& m.content@.len() == content_blocks(bs@).len()
                    &&& forall|k: int| 0 <= k < m.content@.len() ==> block_becomes(bs@[content_blocks(bs@)[k]], #[trigger] m.content@[k])
                })
                && (r matches Err(e) ==> e is ExecutionError)
            },
            _ => r matches Err(e) && e is ExecutionError,
        },
{
    proof {
        reveal_strlit("text");
        reveal_strlit("tool_use");
        assert("text"@[1] != "tool_use"@[1]);
    }
    let blocks = match response.get("content") {
        Some(JsonValue::Array(bs)) => bs,
        _ => {
            return Err(AgentError::ExecutionError("Invalid response format: missing content array".to_owned()));
        },
    };
    let mut message = Message::assistant();
    let mut i: usize = 0;
    assert(blocks@.take(0) =~= Seq::<JsonValue>::empty());
    while i < blocks.len()
        invariant
            field_of(*response, "content"@) == Some(JsonValue::Array(*blocks)),
            "text"@ != "tool_use"@,
            i <= blocks@.len(),
            message.role == Role::Assistant,
            message.content@.len() == content_blocks(blocks@.take(i as int)).len(),
            forall|k: int| 0 <= k < message.content@.len() ==> block_becomes(
                blocks@.take(i as int)[content_blocks(blocks@.take(i as int))[k]],
                #[trigger] message.content@[k],
            ),
            forall|k: int| 0 <= k < content_blocks(blocks@.take(i as int)).len() ==> 0 <= #[trigger] content_blocks(blocks@.take(i as int))[k] < i,
            forall|j: int| 0 <= j < i ==> !is_broken_tool_use(#[trigger] blocks@[j]),
        decreases blocks.len() - i,
    {
        let ghost t = blocks@.take(i + 1);
        let ghost prev = blocks@.take(i as int);
        proof {
            assert(t.drop_last() =~= prev);
            assert(t.last() == blocks@[i as int]);
            assert(forall|m: int| 0 <= m < i ==> t[m] == prev[m]);
        }
        let block = &blocks[i];
        let kind = block.get_str("type");
        let is_text = match kind {
            Some(k) => str_eq(k.as_str(), "text"),
            None => false,
        };
        let is_tool = match kind {
            Some(k) => str_eq(k.as_str(), "tool_use"),
            None => false,
        };
        if is_text {
            match block.get_str("text") {
                Some(text) => {
                    let ghost before = message.content@;
                    message.content.push(MessageContent::Text(text.clone()));
                    assert(message.content@.drop_last() == before);
                },
                None => {},
            }
        } else if is_tool {
            let id = match block.get_str("id") {
                Some(x) => x,
                None => {
                    assert(is_broken_tool_use(blocks@[i as int]));
                    proof {
                        let bs = field_of(*response, "content"@)->Some_0->Array_0;
                        assert(bs@[i as int] == blocks@[i as int]);
                        assert(is_broken_tool_use(bs@[i as int]));
                    }
                    return Err(AgentError::ExecutionError("Missing tool_use id".to_owned()));
                },
            };
            let name = match block.get_str("name") {
                Some(x) => x,
                None => {
                    assert(is_broken_tool_use(blocks@[i as int]));
                    proof {
                        let bs = field_of(*response, "content"@)->Some_0->Array_0;
                        assert(bs@[i as int] == blocks@[i as int]);
                        assert(is_broken_tool_use(bs@[i as int]));
                    }
                    return Err(AgentError::ExecutionError("Missing tool_use name".to_owned()));
                },
            };
            let input = match block.get("input") {
                Some(x) => x,
                None => {
                    assert(is_broken_tool_use(blocks@[i as int]));
                    proof {
                        let bs = field_of(*response, "content"@)->Some_0->Array_0;
                        assert(bs@[i as int] == blocks@[i as int]);
                        assert(is_broken_tool_use(bs@[i as int]));
                    }
                    return Err(AgentError::ExecutionError("Missing tool_use input".to_owned()));
                },
            };
            let call = ToolCall { name: name.clone(), arguments: input.clone() };
            let ghost before = message.content@;
            message.content.push(MessageContent::ToolRequest(ToolRequest { id: id.clone(), tool_call: Ok(call) }));
            assert(message.content@.drop_last() == before);
        }
        proof {
            assert forall|k: int| 0 <= k < message.content@.len() implies block_becomes(
                t[content_blocks(t)[k]],
                #[trigger] message.content@[k],
            ) by {
                if k < content_blocks(prev).len() {
                    assert(content_blocks(t)[k] == content_blocks(prev)[k]);
                }
            }
        }
        i = i + 1;
    }
    assert(blocks@.take(i as int) =~= blocks@);
    Ok(message)
}

/// The block is sent to Anthropic: text, a well-formed tool request, or a
/// successful tool response (images and errors are not sent).
pub open spec fn is_sent(c: MessageContent) -> bool {
    match c {
        MessageContent::Text(_) => true,
        MessageContent::ToolRequest(q) => q.tool_call is Ok,
        MessageContent::ToolResponse(p) => p.tool_result is Ok,
        _ => false,
    }
}

/// Positions of the blocks that are sent.
pub open spec fn sent_blocks(cs: Seq<MessageContent>) -> Seq<int>
    decreases cs.len(),
{
    if cs.len() == 0 {
        Seq::empty()
    } else if is_sent(cs.last()) {
        sent_blocks(cs.drop_last()).push(cs.len() - 1)
    } else {
        sent_blocks(cs.drop_last())
    }
}

/// Positions of the messages with at least one block that is sent.
pub open spec fn sent_messages(ms: Seq<Message>) -> Seq<int>
    decreases ms.len(),
{
    if ms.len() == 0 {
        Seq::empty()
    } else if sent_blocks(ms.last().content@).len() > 0 {
        sent_messages(ms.drop_last()).push(ms.len() - 1)
    } else {
        sent_messages(ms.drop_last())
    }
}

/// Anthropic's name of a role.
pub open spec fn role_name(r: Role) -> Seq<char> {
    match r {
        Role::User => "user"@,
        Role::Assistant => "assistant"@,
    }
}

/// The texts of the text blocks of a tool result, joined by newlines.
pub open spec fn result_text(cs: Seq<Content>) -> Seq<char>
    decreases cs.len(),
{
    if cs.len() == 0 {
        Seq::empty()
    } else {
        let p = result_text(cs.drop_last());
        match cs.last() {
            Content::Text { text, .. } => if sent_text_count(cs.drop_last()) == 0 {
                text@
            } else {
                p + "\n"@ + text@
            },
            _ => p,
        }
    }
}

/// Number of text blocks.
pub open spec fn sent_text_count(cs: Seq<Content>) -> nat
    decreases cs.len(),
{
    if cs.len() == 0 {
        0
    } else {
        sent_text_count(cs.drop_last()) + if cs.last() is Text {
            1nat
        } else {
            0nat
        }
    }
}

/// `x` is block `c` in Anthropic's shape: a `text` block with its text, a
/// `tool_use` block with the request's id and tool name, or a `tool_result`
/// block with the response's id and the result's texts.
pub open spec fn is_block_json(c: MessageContent, es: Seq<(String, JsonValue)>) -> bool {
    &&& es.len() >= 2
    &&& es[0].0@ == "type"@
    &&& es[0].1 is Str
    &&& es[1].1 is Str
    &&& match c {
        MessageContent::Text(t) => es[0].1->Str_0@ == "text"@ && es[1].0@ == "text"@ && es[1].1->Str_0@ == t@,
        MessageContent::ToolRequest(q) => es[0].1->Str_0@ == "tool_use"@ && es[1].0@ == "id"@ && es[1].1->Str_0@
            == q.id@ && es.len() >= 3 && es[2].0@ == "name"@ && es[2].1 is Str && (q.tool_call matches Ok(call)
            && es[2].1->Str_0@ == call.name@),
        MessageContent::ToolResponse(p) => es[0].1->Str_0@ == "tool_result"@ && es[1].0@ == "tool_use_id"@
            && es[1].1->Str_0@ == p.id@ && es.len() >= 3 && es[2].0@ == "content"@ && es[2].1 is Str && (
        p.tool_result matches Ok(v) && es[2].1->Str_0@ == result_text(v@)),
        _ => false,
    }
}

proof fn lemma_no_text_empty(cs: Seq<Content>)
    requires
        sent_text_count(cs) == 0,
    ensures
        result_text(cs) == Seq::<char>::empty(),
    decreases cs.len(),
{
    if cs.len() > 0 {
        lemma_no_text_empty(cs.drop_last());
    }
}

fn result_texts(v: &Vec<Content>) -> (r: String)
    ensures
        r@ == result_text(v@),
{
    let mut out = String::new();
    let mut n: usize = 0;
    let mut i: usize = 0;
    assert(v@.take(0) =~= Seq::<Content>::empty());
    while i < v.len()
        invariant
            i <= v@.len(),
            out@ == result_text(v@.take(i as int)),
            n as nat == sent_text_count(v@.take(i as int)),
            n <= i,
        decreases v.len() - i,
    {
        proof {
            let t = v@.take(i + 1);
            assert(t.drop_last() =~= v@.take(i as int));
            assert(t.last() == v@[i as int]);
        }
        let ghost before = out@;
        proof {
            if n == 0 {
                lemma_no_text_empty(v@.take(i as int));
            }
        }
        match &v[i] {
            Content::Text { text, .. } => {
                if n > 0 {
                    out.append("\n");
                }
                out.append(text.as_str());
                n = n + 1;
                proof {
                    if n > 1 {
                        assert(out@ =~= before + "\n"@ + text@);
                    }
                }
            },
            _ => {},
        }
        i = i + 1;
    }
    assert(v@.take(i as int) =~= v@);
    out
}

/// Block `c` in Anthropic's shape, where it is sent.
pub fn block_to_anthropic(c: &MessageContent) -> (r: Option<Vec<(String, JsonValue)>>)
    ensures
        is_sent(*c) <==> r is Some,
        r matches Some(es) ==> is_block_json(*c, es@),
{
    match c {
        MessageContent::Text(t) => {
            let mut es: Vec<(String, JsonValue)> = Vec::new();
            es.push(entry("type", JsonValue::Str("text".to_owned())));
            es.push(entry("text", JsonValue::Str(t.clone())));
            Some(es)
        },
        MessageContent::ToolRequest(q) => match &q.tool_call {
            Ok(call) => {
                let mut es: Vec<(String, JsonValue)> = Vec::new();
                es.push(entry("type", JsonValue::Str("tool_use".to_owned())));
                es.push(entry("id", JsonValue::Str(q.id.clone())));
                es.push(entry("name", JsonValue::Str(call.name.clone())));
                es.push(entry("input", call.arguments.clone()));
                Some(es)
            },
            Err(_) => None,
        },
        MessageContent::ToolResponse(p) => match &p.tool_result {
            Ok(v) => {
                let mut es: Vec<(String, JsonValue)> = Vec::new();
                es.push(entry("type", JsonValue::Str("tool_result".to_owned())));
                es.push(entry("tool_use_id", JsonValue::Str(p.id.clone())));
                es.push(entry("content", JsonValue::Str(result_texts(v))));
                Some(es)
            },
            Err(_) => None,
        },
        _ => None,
    }
}

/// The sent blocks of a message, in Anthropic's shape.
fn blocks_of(m: &Message) -> (r: Vec<Vec<(String, JsonValue)>>)
    ensures
        r@.len() == sent_blocks(m.content@).len(),
        forall|j: int| 0 <= j < r@.len() ==> is_block_json(m.content@[sent_blocks(m.content@)[j]], #[trigger] r@[j]@),
{
    let mut r: Vec<Vec<(String, JsonValue)>> = Vec::new();
    let mut i: usize = 0;
    assert(m.content@.take(0) =~= Seq::<MessageContent>::empty());
    while i < m.content.len()
        invariant
            i <= m.content@.len(),
            r@.len() == sent_blocks(m.content@.take(i as int)).len(),
            forall|j: int| 0 <= j < r@.len() ==> is_block_json(m.content@[sent_blocks(m.content@.take(i as int))[j]], #[trigger] r@[j]@),
            forall|j: int| 0 <= j < sent_blocks(m.content@.take(i as int)).len() ==> 0 <= #[trigger] sent_blocks(m.content@.take(i as int))[j] < i,
        decreases m.content.len() - i,
    {
        let ghost t = m.content@.take(i + 1);
        let ghost prev = m.content@.take(i as int);
        proof {
            assert(t.drop_last() =~= prev);
            assert(t.last() == m.content@[i as int]);
        }
        match block_to_anthropic(&m.content[i]) {
            Some(es) => {
                r.push(es);
            },
            None => {},
        }
        proof {
            assert forall|j: int| 0 <= j < r@.len() implies is_block_json(m.content@[sent_blocks(t)[j]], #[trigger] r@[j]@) by {
                if j < sent_blocks(prev).len() {
                    assert(sent_blocks(t)[j] == sent_blocks(prev)[j]);
                }
            }
        }
        i = i + 1;
    }
    assert(m.content@.take(i as int) =~= m.content@);
    r
}

/// `x` is the stand-in message sent when nothing else is: a user message
/// with one text block, "Ignore", marked for caching.
pub open spec fn is_placeholder_message(x: JsonValue) -> bool {
    &&& x is Object
    &&& x->Object_0@.len() == 2
    &&& x->Object_0@[0].0@ == "role"@
    &&& x->Object_0@[0].1 == JsonValue::Str(x->Object_0@[0].1->Str_0)
    &&& x->Object_0@[0].1->Str_0@ == "user"@
    &&& x->Object_0@[1].0@ == "content"@
    &&& x->Object_0@[1].1 is Array
    &&& x->Object_0@[1].1->Array_0@.len() == 1
    &&& x->Object_0@[1].1->Array_0@[0] is Object
    &&& is_block_json(MessageContent::Text(x->Object_0@[1].1->Array_0@[0]->Object_0@[1].1->Str_0), x->Object_0@[1].1->Array_0@[0]->Object_0@)
    &&& x->Object_0@[1].1->Array_0@[0]->Object_0@[1].1->Str_0@ == "Ignore"@
    &&& x->Object_0@[1].1->Array_0@[0]->Object_0@.len() == 3
    &&& x->Object_0@[1].1->Array_0@[0]->Object_0@[2].0@ == "cache_control"@
}

/// `x` is message `m` in Anthropic's shape: its role, then its sent blocks.
pub open spec fn is_message_json(m: Message, x: JsonValue) -> bool {
    &&& x is Object
    &&& x->Object_0@.len() == 2
    &&& x->Object_0@[0].0@ == "role"@
    &&& x->Object_0@[0].1 == JsonValue::Str(x->Object_0@[0].1->Str_0)
    &&& x->Object_0@[0].1->Str_0@ == role_name(m.role)
    &&& x->Object_0@[1].0@ == "content"@
    &&& x->Object_0@[1].1 is Array
    &&& x->Object_0@[1].1->Array_0@.len() == sent_blocks(m.content@).len()
    &&& forall|j: int| 0 <= j < sent_blocks(m.content@).len() ==> {
        &&& (#[trigger] x->Object_0@[1].1->Array_0@[j]) is Object
        &&& is_block_json(m.content@[sent_blocks(m.content@)[j]], x->Object_0@[1].1->Array_0@[j]->Object_0@)
    }
}

fn block_values(blocks: Vec<Vec<(String, JsonValue)>>, Ghost(m): Ghost<Message>) -> (r: Vec<JsonValue>)
    requires
        blocks@.len() == sent_blocks(m.content@).len(),
        forall|j: int| 0 <= j < blocks@.len() ==> is_block_json(m.content@[sent_blocks(m.content@)[j]], #[trigger] blocks@[j]@),
    ensures
        r@.len() == blocks@.len(),
        forall|j: int| 0 <= j < r@.len() ==> {
            &&& (#[trigger] r@[j]) is Object
            &&& is_block_json(m.content@[sent_blocks(m.content@)[j]], r@[j]->Object_0@)
        },
{
    let ghost all = blocks@;
    let mut rest = blocks;
    let mut r: Vec<JsonValue> = Vec::new();
    assert(all.skip(0) =~= all);
    while rest.len() > 0
        invariant
            all.len() == sent_blocks(m.content@).len(),
            forall|j: int| 0 <= j < all.len() ==> is_block_json(m.content@[sent_blocks(m.content@)[j]], #[trigger] all[j]@),
            r@.len() + rest@.len() == all.len(),
            rest@ == all.skip(r@.len() as int),
            forall|j: int| 0 <= j < r@.len() ==> {
                &&& (#[trigger] r@[j]) is Object
                &&& is_block_json(m.content@[sent_blocks(m.content@)[j]], r@[j]->Object_0@)
            },
        decreases rest.len(),
    {
        let ghost k = r@.len();
        let b = rest.remove(0);
        assert(b == all[k as int]);
        r.push(JsonValue::Object(b));
        assert(rest@ =~= all.skip(r@.len() as int));
    }
    r
}

/// The conversation in Anthropic's shape: one message per message with a
/// sent block, with its role and those blocks; without any, a single user
/// message saying "Ignore". The last block of each of the last two user
/// messages is marked for caching.
pub fn messages_to_anthropic_spec(messages: &Vec<Message>) -> (r: Vec<JsonValue>)
    ensures
        sent_messages(messages@).len() == 0 ==> r@.len() == 1 && is_placeholder_message(r@[0]),
        sent_messages(messages@).len() > 0 ==> {
            &&& r@.len() == sent_messages(messages@).len()
            &&& forall|k: int| 0 <= k < r@.len() ==> is_message_json(messages@[sent_messages(messages@)[k]], #[trigger] r@[k])
        },
{
    let mut parts: Vec<(Role, Vec<Vec<(String, JsonValue)>>)> = Vec::new();
    let mut i: usize = 0;
    assert(messages@.take(0) =~= Seq::<Message>::empty());
    while i < messages.len()
        invariant
            i <= messages@.len(),
            parts@.len() == sent_messages(messages@.take(i as int)).len(),
            forall|k: int| 0 <= k < sent_messages(messages@.take(i as int)).len() ==> 0 <= #[trigger] sent_messages(messages@.take(i as int))[k] < i,
            forall|k: int| 0 <= k < parts@.len() ==> {
                let m = messages@[sent_messages(messages@.take(i as int))[k]];
                &&& (#[trigger] parts@[k]).0 == m.role
                &&& parts@[k].1@.len() == sent_blocks(m.content@).len()
                &&& sent_blocks(m.content@).len() > 0
                &&& forall|j: int| 0 <= j < parts@[k].1@.len() ==> is_block_json(m.content@[sent_blocks(m.content@)[j]], #[trigger] parts@[k].1@[j]@)
            },
        decreases messages.len() - i,
    {
        let ghost t = messages@.take(i + 1);
        let ghost prev = messages@.take(i as int);
        proof {
            assert(t.drop_last() =~= prev);
            assert(t.last() == messages@[i as int]);
        }
        let blocks = blocks_of(&messages[i]);
        if blocks.len() > 0 {
            parts.push((messages[i].role, blocks));
        }
        proof {
            assert forall|k: int| 0 <= k < sent_messages(t).len() implies sent_messages(t)[k] == if k < sent_messages(prev).len() {
                sent_messages(prev)[k]
            } else {
                i as int
            } by {}
        }
        i = i + 1;
    }
    assert(messages@.take(i as int) =~= messages@);
    let ghost sm = sent_messages(messages@);
    if parts.len() == 0 {
        let mut b: Vec<(String, JsonValue)> = Vec::new();
        b.push(entry("type", JsonValue::Str("text".to_owned())));
        b.push(entry("text", JsonValue::Str("Ignore".to_owned())));
        b.push(entry("cache_control", ephemeral()));
        let mut content: Vec<JsonValue> = Vec::new();
        content.push(JsonValue::Object(b));
        let mut m: Vec<(String, JsonValue)> = Vec::new();
        m.push(entry("role", JsonValue::Str("user".to_owned())));
        m.push(entry("content", JsonValue::Array(content)));
        let x = JsonValue::Object(m);
        assert(is_placeholder_message(x));
        let mut r: Vec<JsonValue> = Vec::new();
        r.push(x);
        return r;
    }
    let n = parts.len();
    let mut users: usize = 0;
    let mut k: usize = n;
    while k > 0 && users < 2
        invariant
            k <= n,
            n == parts@.len(),
            n == sm.len(),
            forall|q: int| 0 <= q < n ==> {
                let m = messages@[sm[q]];
                &&& (#[trigger] parts@[q]).0 == m.role
                &&& parts@[q].1@.len() == sent_blocks(m.content@).len()
                &&& sent_blocks(m.content@).len() > 0
                &&& forall|j: int| 0 <= j < parts@[q].1@.len() ==> is_block_json(m.content@[sent_blocks(m.content@)[j]], #[trigger] parts@[q].1@[j]@)
            },
        decreases k,
    {
        k = k - 1;
        if parts[k].0 == Role::User {
            let ghost before = parts@;
            let (role, mut blocks) = parts.remove(k);
            let last = blocks.len() - 1;
            let mut b = blocks.remove(last);
            let ghost b0 = b@;
            b.push(entry("cache_control", ephemeral()));
            blocks.push(b);
            proof {
                let m = messages@[sm[k as int]];
                assert(is_block_json(m.content@[sent_blocks(m.content@)[last as int]], b0));
                assert(is_block_json(m.content@[sent_blocks(m.content@)[last as int]], b@));
            }
            parts.insert(k, (role, blocks));
            proof {
                assert forall|q: int| 0 <= q < n implies {
                    let m = messages@[sm[q]];
                    &&& (#[trigger] parts@[q]).0 == m.role
                    &&& parts@[q].1@.len() == sent_blocks(m.content@).len()
                    &&& sent_blocks(m.content@).len() > 0
                    &&& forall|j: int| 0 <= j < parts@[q].1@.len() ==> is_block_json(m.content@[sent_blocks(m.content@)[j]], #[trigger] parts@[q].1@[j]@)
                } by {
                    if q != k {
                        assert(parts@[q] == before[q]);
                    } else {
                        let m = messages@[sm[q]];
                        assert forall|j: int| 0 <= j < parts@[q].1@.len() implies is_block_json(m.content@[sent_blocks(m.content@)[j]], #[trigger] parts@[q].1@[j]@) by {
                            if j < last {
                                assert(parts@[q].1@[j] == before[q].1@[j]);
                            }
                        }
                    }
                }
            }
            users = users + 1;
        }
    }
    let ghost all = parts@;
    let mut rest = parts;
    let mut r: Vec<JsonValue> = Vec::new();
    assert(all.skip(0) =~= all);
    while rest.len() > 0
        invariant
            all.len() == sm.len(),
            r@.len() + rest@.len() == all.len(),
            rest@ == all.skip(r@.len() as int),
            forall|q: int| 0 <= q < all.len() ==> {
                let m = messages@[sm[q]];
                &&& (#[trigger] all[q]).0 == m.role
                &&& all[q].1@.len() == sent_blocks(m.content@).len()
                &&& forall|j: int| 0 <= j < all[q].1@.len() ==> is_block_json(m.content@[sent_blocks(m.content@)[j]], #[trigger] all[q].1@[j]@)
            },
            forall|q: int| 0 <= q < r@.len() ==> is_message_json(messages@[sm[q]], #[trigger] r@[q]),
        decreases rest.len(),
    {
        let ghost q = r@.len() as int;
        let (role, blocks) = rest.remove(0);
        assert((role, blocks) == all[q]);
        let content = block_values(blocks, Ghost(messages@[sm[q]]));
        let name = match role {
            Role::User => "user".to_owned(),
            Role::Assistant => "assistant".to_owned(),
        };
        let mut m: Vec<(String, JsonValue)> = Vec::new();
        m.push(entry("role", JsonValue::Str(name)));
        m.push(entry("content", JsonValue::Array(content)));
        let x = JsonValue::Object(m);
        assert(is_message_json(messages@[sm[q]], x));
        r.push(x);
        assert(rest@ =~= all.skip(r@.len() as int));
    }
    r
}

/// The message has role `role`.
pub open spec fn has_role(m: JsonValue, role: Seq<char>) -> bool {
    str_field_of(m, "role"@) == Some(role)
}

/// Number of user messages among `ms[from..]`.
pub open spec fn users_from(ms: Seq<JsonValue>, from: int) -> nat
    decreases ms.len() - from,
{
    if from < 0 || from >= ms.len() {
        0
    } else {
        users_from(ms, from + 1) + if has_role(ms[from], "user"@) {
            1nat
        } else {
            0nat
        }
    }
}

/// Index of the first system message.
pub open spec fn first_system(ms: Seq<JsonValue>, from: int) -> Option<int>
    decreases ms.len() - from,
{
    if from < 0 || from >= ms.len() {
        None
    } else if has_role(ms[from], "system"@) {
        Some(from)
    } else {
        first_system(ms, from + 1)
    }
}

/// `v` is a one-block content list: the text `text`, marked for caching.
pub open spec fn is_cached_text(v: JsonValue, text: Seq<char>) -> bool {
    &&& v is Array
    &&& v->Array_0@.len() == 1
    &&& v->Array_0@[0] is Object
    &&& is_block_json(MessageContent::Text(v->Array_0@[0]->Object_0@[1].1->Str_0), v->Array_0@[0]->Object_0@)
    &&& v->Array_0@[0]->Object_0@[1].1->Str_0@ == text
    &&& v->Array_0@[0]->Object_0@.len() == 3
    &&& v->Array_0@[0]->Object_0@[2].0@ == "cache_control"@
}

fn cached_text(text: String) -> (r: JsonValue)
    ensures
        is_cached_text(r, text@),
{
    let mut b: Vec<(String, JsonValue)> = Vec::new();
    b.push(entry("type", JsonValue::Str("text".to_owned())));
    b.push(("text".to_owned(), JsonValue::Str(text)));
    b.push(entry("cache_control", ephemeral()));
    let mut items: Vec<JsonValue> = Vec::new();
    items.push(JsonValue::Object(b));
    JsonValue::Array(items)
}

/// `after` is `before` with its content, the text `text`, turned into a
/// cached text block; every other member stays.
pub open spec fn content_cached(before: JsonValue, after: JsonValue, text: Seq<char>) -> bool {
    &&& before is Object
    &&& after is Object
    &&& first_key_index(before->Object_0@, "content"@) is Some
    &&& {
        let j = first_key_index(before->Object_0@, "content"@)->Some_0;
        &&& after->Object_0@.len() == before->Object_0@.len()
        &&& after->Object_0@[j].0 == before->Object_0@[j].0
        &&& is_cached_text(after->Object_0@[j].1, text)
        &&& forall|q: int| 0 <= q < before->Object_0@.len() && q != j ==> after->Object_0@[q] == before->Object_0@[q]
    }
}

/// The message with its text content made a cached block, where its content
/// is text; else unchanged.
fn cache_content(m: JsonValue) -> (r: JsonValue)
    ensures
        match str_field_of(m, "content"@) {
            Some(t) => content_cached(m, r, t),
            None => r == m,
        },
{
    match m {
        JsonValue::Object(mut entries) => {
            proof {
                crate::json::lemma_first_key_index_bounds(entries@, "content"@);
            }
            let mut j: usize = 0;
            while j < entries.len() && !str_eq(entries[j].0.as_str(), "content")
                invariant
                    j <= entries@.len(),
                    forall|q: int| 0 <= q < j ==> entries@[q].0@ != "content"@,
                    match first_key_index(entries@, "content"@) {
                        Some(k) => 0 <= k < entries@.len() && entries@[k].0@ == "content"@ && forall|q: int|
                            0 <= q < k ==> entries@[q].0@ != "content"@,
                        None => forall|q: int| 0 <= q < entries@.len() ==> entries@[q].0@ != "content"@,
                    },
                decreases entries.len() - j,
            {
                j = j + 1;
            }
            if j == entries.len() {
                return JsonValue::Object(entries);
            }
            assert(first_key_index(entries@, "content"@) == Some(j as int));
            let is_text = match &entries[j].1 {
                JsonValue::Str(_) => true,
                _ => false,
            };
            if !is_text {
                return JsonValue::Object(entries);
            }
            let ghost before = entries@;
            let (key, value) = entries.remove(j);
            match value {
                JsonValue::Str(text) => {
                    entries.insert(j, (key, cached_text(text)));
                    proof {
                        assert forall|q: int| 0 <= q < before.len() && q != j implies entries@[q] == before[q] by {
                            if q < j {
                                assert(entries@[q] == before[q]);
                            } else {
                                assert(entries@[q] == before[q]);
                            }
                        }
                    }
                    JsonValue::Object(entries)
                },
                other => {
                    entries.insert(j, (key, other));
                    JsonValue::Object(entries)
                },
            }
        },
        other => other,
    }
}

/// `v` is a system message whose content is the text `text` as a cached
/// block.
pub open spec fn is_cached_system(v: JsonValue, text: Seq<char>) -> bool {
    &&& v is Object
    &&& v->Object_0@.len() == 2
    &&& v->Object_0@[0].0@ == "role"@
    &&& v->Object_0@[0].1 == JsonValue::Str(v->Object_0@[0].1->Str_0)
    &&& v->Object_0@[0].1->Str_0@ == "system"@
    &&& v->Object_0@[1].0@ == "content"@
    &&& is_cached_text(v->Object_0@[1].1, text)
}

/// What the rewrite makes of message `k` of `ms`: each of the last two user
/// messages with text content gets it as a cached block; the first system
/// message with text content becomes a system message with that text as a
/// cached block; any other message stays.
pub open spec fn rewritten(ms: Seq<JsonValue>, k: int, after: JsonValue) -> bool {
    if has_role(ms[k], "user"@) && users_from(ms, k + 1) < 2 {
        match str_field_of(ms[k], "content"@) {
            Some(t) => content_cached(ms[k], after, t),
            None => after == ms[k],
        }
    } else if first_system(ms, 0) == Some(k) {
        match str_field_of(ms[k], "content"@) {
            Some(t) => is_cached_system(after, t),
            None => after == ms[k],
        }
    } else {
        after == ms[k]
    }
}

proof fn lemma_users_from_monotone(ms: Seq<JsonValue>, a: int, b: int)
    requires
        0 <= a <= b <= ms.len(),
    ensures
        users_from(ms, a) >= users_from(ms, b),
    decreases b - a,
{
    if a < b {
        lemma_users_from_monotone(ms, a + 1, b);
    }
}

proof fn lemma_first_system(ms: Seq<JsonValue>, from: int)
    requires
        0 <= from <= ms.len(),
    ensures
        match first_system(ms, from) {
            Some(k) => from <= k < ms.len() && has_role(ms[k], "system"@) && forall|q: int| from <= q < k ==> !has_role(ms[q], "system"@),
            None => forall|q: int| from <= q < ms.len() ==> !has_role(ms[q], "system"@),
        },
    decreases ms.len() - from,
{
    if from < ms.len() && !has_role(ms[from], "system"@) {
        lemma_first_system(ms, from + 1);
    }
}

fn is_role(m: &JsonValue, role: &str) -> (r: bool)
    ensures
        r == has_role(*m, role@),
{
    match m.get_str("role") {
        Some(x) => str_eq(x.as_str(), role),
        None => false,
    }
}

fn rewrite_messages(ms: Vec<JsonValue>) -> (r: Vec<JsonValue>)
    ensures
        r@.len() == ms@.len(),
        forall|k: int| 0 <= k < ms@.len() ==> rewritten(ms@, k, #[trigger] r@[k]),
{
    proof {
        reveal_strlit("user");
        reveal_strlit("system");
        assert("user"@[0] != "system"@[0]);
    }
    let ghost orig = ms@;
    let n = ms.len();
    proof {
        lemma_first_system(orig, 0);
    }
    let mut sys: usize = 0;
    while sys < n && !is_role(&ms[sys], "system")
        invariant
            orig == ms@,
            n == orig.len(),
            sys <= n,
            forall|q: int| 0 <= q < sys ==> !has_role(orig[q], "system"@),
            match first_system(orig, 0) {
                Some(f) => 0 <= f < orig.len() && has_role(orig[f], "system"@) && forall|q: int| 0 <= q < f ==> !has_role(orig[q], "system"@),
                None => forall|q: int| 0 <= q < orig.len() ==> !has_role(orig[q], "system"@),
            },
        decreases n - sys,
    {
        sys = sys + 1;
    }
    assert(sys < n ==> first_system(orig, 0) == Some(sys as int));
    assert(sys == n ==> first_system(orig, 0) is None);
    let mut rs = ms;
    let mut k: usize = n;
    let mut users: usize = 0;
    while k > 0 && users < 2
        invariant
            n == orig.len(),
            rs@.len() == n,
            k <= n,
            users as nat == users_from(orig, k as int),
            users <= 2,
            "user"@ != "system"@,
            sys < n ==> first_system(orig, 0) == Some(sys as int) && has_role(orig[sys as int], "system"@),
            sys == n ==> first_system(orig, 0) is None,
            forall|q: int| 0 <= q < k ==> rs@[q] == orig[q],
            forall|q: int| k <= q < n && has_role(orig[q], "user"@) ==> rewritten(orig, q, #[trigger] rs@[q]),
            forall|q: int| k <= q < n && !has_role(orig[q], "user"@) ==> #[trigger] rs@[q] == orig[q],
        decreases k,
    {
        k = k - 1;
        let ghost before = rs@;
        if is_role(&rs[k], "user") {
            let m = rs.remove(k);
            let c = cache_content(m);
            rs.insert(k, c);
            proof {
                assert(forall|q: int| 0 <= q < n && q != k ==> rs@[q] == before[q]);
                assert(rewritten(orig, k as int, rs@[k as int]));
            }
            users = users + 1;
        }
    }
    proof {
        assert forall|q: int| 0 <= q < k && has_role(orig[q], "user"@) implies users_from(orig, q + 1) >= 2 by {
            lemma_users_from_monotone(orig, q + 1, k as int);
        }
    }
    if sys < n {
        let m = rs.remove(sys);
        let text = match m.get_str("content") {
            Some(t) => Some(t.clone()),
            None => None,
        };
        match text {
            Some(t) => {
                let mut o: Vec<(String, JsonValue)> = Vec::new();
                o.push(entry("role", JsonValue::Str("system".to_owned())));
                o.push(entry("content", cached_text(t)));
                rs.insert(sys, JsonValue::Object(o));
            },
            None => {
                rs.insert(sys, m);
            },
        }
    }
    proof {
        assert forall|q: int| 0 <= q < n implies rewritten(orig, q, #[trigger] rs@[q]) by {
            if q != sys {
                if has_role(orig[q], "user"@) {
                    if q < k {
                        assert(users_from(orig, q + 1) >= 2);
                    }
                }
            }
        }
    }
    rs
}

/// A chat request in OpenAI's shape adjusted for an Anthropic model behind
/// OpenRouter, so that prompt caching applies: in its `messages`, the last
/// two user messages and the first system message have their text content
/// turned into a cached text block. A request without a `messages` list is
/// returned unchanged.
pub fn update_request_for_anthropic(payload: JsonValue) -> (r: JsonValue)
    ensures
        match payload {
            JsonValue::Object(es) => match first_key_index(es@, "messages"@) {
                Some(j) => match es@[j].1 {
                    JsonValue::Array(ms) => r is Object && r->Object_0@.len() == es@.len() && r->Object_0@[j].0
                        == es@[j].0 && (r->Object_0@[j].1 matches JsonValue::Array(rs) && rs@.len() == ms@.len()
                        && forall|k: int| 0 <= k < ms@.len() ==> rewritten(ms@, k, #[trigger] rs@[k])) && forall|q: int|
                        0 <= q < es@.len() && q != j ==> r->Object_0@[q] == es@[q],
                    _ => r == payload,
                },
                None => r == payload,
            },
            _ => r == payload,
        },
{
    match payload {
        JsonValue::Object(mut entries) => {
            proof {
                crate::json::lemma_first_key_index_bounds(entries@, "messages"@);
            }
            let mut j: usize = 0;
            while j < entries.len() && !str_eq(entries[j].0.as_str(), "messages")
                invariant
                    j <= entries@.len(),
                    forall|q: int| 0 <= q < j ==> entries@[q].0@ != "messages"@,
                    match first_key_index(entries@, "messages"@) {
                        Some(k) => 0 <= k < entries@.len() && entries@[k].0@ == "messages"@ && forall|q: int|
                            0 <= q < k ==> entries@[q].0@ != "messages"@,
                        None => forall|q: int| 0 <= q < entries@.len() ==> entries@[q].0@ != "messages"@,
                    },
                decreases entries.len() - j,
            {
                j = j + 1;
            }
            if j == entries.len() {
                return JsonValue::Object(entries);
            }
            assert(first_key_index(entries@, "messages"@) == Some(j as int));
            let is_list = match &entries[j].1 {
                JsonValue::Array(_) => true,
                _ => false,
            };
            if !is_list {
                return JsonValue::Object(entries);
            }
            let ghost before = entries@;
            let (key, value) = entries.remove(j);
            match value {
                JsonValue::Array(ms) => {
                    let rs = rewrite_messages(ms);
                    entries.insert(j, (key, JsonValue::Array(rs)));
                    assert(forall|q: int| 0 <= q < before.len() && q != j ==> entries@[q] == before[q]);
                    JsonValue::Object(entries)
                },
                other => {
                    entries.insert(j, (key, other));
                    JsonValue::Object(entries)
                },
            }
        },
        other => other,
    }
}

} // verus!
