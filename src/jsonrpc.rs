//! JSON-RPC 2.0 envelopes as the MCP transports carry them: telling an
//! incoming value's kind, what the reader does with it, and what a response
//! means for the caller.
use vstd::prelude::*;
use crate::json::{JsonValue, field_of, str_field_of};
use crate::message::AgentError;
use crate::text::{decimal, digits, str_eq, to_decimal};

verus! {

/// The error object of a response.
#[derive(Clone, Debug, PartialEq)]
pub struct ErrorData {
    pub code: i64,
    pub message: String,
}

/// A JSON-RPC envelope.
#[derive(Debug, PartialEq)]
pub enum JsonRpcMessage {
    /// A call expecting a response with the same id.
    Request { id: u64, method: String, params: Option<JsonValue> },
    /// A message without an id; nothing answers it.
    Notification { method: String, params: Option<JsonValue> },
    /// The answer to the request `id`: a result or an error.
    Response { id: u64, outcome: Result<JsonValue, ErrorData> },
}

/// The value of a decimal numeral of digits only.
pub open spec fn numeral_value(s: Seq<char>) -> int
    decreases s.len(),
{
    if s.len() == 0 {
        0
    } else {
        numeral_value(s.drop_last()) * 10 + (s.last() as int - '0' as int)
    }
}

/// A non-empty run of decimal digits.
pub open spec fn is_numeral(s: Seq<char>) -> bool {
    s.len() > 0 && forall|i: int| 0 <= i < s.len() ==> '0' <= #[trigger] s[i] && s[i] <= '9'
}

/// The integer a JSON number's text denotes, where it is a non-negative
/// integer that fits 64 bits.
pub fn parse_u64(s: &str) -> (r: Option<u64>)
    ensures
        match r {
            Some(n) => is_numeral(s@) && n as int == numeral_value(s@),
            None => !is_numeral(s@) || numeral_value(s@) > u64::MAX,
        },
{
    let len = s.unicode_len();
    if len == 0 {
        return None;
    }
    let mut v: u64 = 0;
    let mut i: usize = 0;
    assert(s@.take(0) =~= Seq::<char>::empty());
    while i < len
        invariant
            len == s@.len(),
            i <= len,
            forall|j: int| 0 <= j < i ==> '0' <= #[trigger] s@[j] && s@[j] <= '9',
            v as int == numeral_value(s@.take(i as int)),
        decreases len - i,
    {
        let c = s.get_char(i);
        if c < '0' || c > '9' {
            return None;
        }
        let d = (c as u32 - '0' as u32) as u64;
        proof {
            let t = s@.take(i + 1);
            assert(t.drop_last() =~= s@.take(i as int));
            assert(t.last() == c);
        }
        if v > (u64::MAX - d) / 10 {
            proof {
                lemma_numeral_grows(s@, i as int + 1);
            }
            return None;
        }
        v = v * 10 + d;
        i = i + 1;
    }
    assert(s@.take(i as int) =~= s@);
    Some(v)
}

proof fn lemma_numeral_grows(s: Seq<char>, k: int)
    requires
        0 < k <= s.len(),
        forall|j: int| 0 <= j < k ==> '0' <= #[trigger] s[j] && s[j] <= '9',
        numeral_value(s.take(k)) > u64::MAX,
    ensures
        is_numeral(s) ==> numeral_value(s) > u64::MAX,
    decreases s.len() - k,
{
    if k < s.len() && is_numeral(s) {
        let t = s.take(k + 1);
        assert(t.drop_last() =~= s.take(k));
        assert(numeral_value(t) == numeral_value(s.take(k)) * 10 + (s[k] as int - '0' as int));
        lemma_numeral_grows(s, k + 1);
    } else if k == s.len() {
        assert(s.take(k) =~= s);
    }
}

/// The numeric id a value holds.
pub open spec fn id_of(v: Option<JsonValue>) -> Option<int> {
    match v {
        Some(JsonValue::Number(n)) => if is_numeral(n@) && numeral_value(n@) <= u64::MAX {
            Some(numeral_value(n@))
        } else {
            None
        },
        _ => None,
    }
}

fn read_id(v: Option<&JsonValue>) -> (r: Option<u64>)
    ensures
        id_of(match v {
            Some(x) => Some(*x),
            None => None,
        }) == match r {
            Some(n) => Some(n as int),
            None => None,
        },
{
    match v {
        Some(JsonValue::Number(n)) => parse_u64(n.as_str()),
        _ => None,
    }
}

/// The kind of envelope a JSON value is, by the members it has: a `method`
/// with a numeric `id` is a request, a `method` without an `id` a
/// notification, a numeric `id` with a `result` or an `error` a response.
pub open spec fn envelope_kind(v: JsonValue) -> int {
    if str_field_of(v, "jsonrpc"@) != Some("2.0"@) {
        0
    } else if str_field_of(v, "method"@) is Some {
        if field_of(v, "id"@) is None {
            2
        } else if id_of(field_of(v, "id"@)) is Some {
            1
        } else {
            0
        }
    } else if id_of(field_of(v, "id"@)) is Some && (field_of(v, "result"@) is Some || field_of(v, "error"@) is Some) {
        3
    } else {
        0
    }
}

/// The envelope that an incoming JSON value is. Anything else is a
/// transport error.
pub fn parse_message(v: &JsonValue) -> (r: Result<JsonRpcMessage, AgentError>)
    ensures
        envelope_kind(*v) == 0 <==> r is Err,
        envelope_kind(*v) == 1 ==> (r matches Ok(JsonRpcMessage::Request { id, method, .. })
            && Some(id as int) == id_of(field_of(*v, "id"@)) && Some(method@) == str_field_of(*v, "method"@)),
        envelope_kind(*v) == 2 ==> (r matches Ok(JsonRpcMessage::Notification { method, .. })
            && Some(method@) == str_field_of(*v, "method"@)),
        envelope_kind(*v) == 3 ==> (r matches Ok(JsonRpcMessage::Response { id, outcome })
            && Some(id as int) == id_of(field_of(*v, "id"@)) && (outcome is Err <==> field_of(*v, "error"@) is Some)),
        r matches Err(e) ==> e is Transport,
{
    let version_ok = match v.get_str("jsonrpc") {
        Some(ver) => str_eq(ver.as_str(), "2.0"),
        None => false,
    };
    if !version_ok {
        return Err(AgentError::Transport("Not a JSON-RPC 2.0 message".to_owned()));
    }
    let id_field = v.get("id");
    let id = read_id(id_field);
    match v.get_str("method") {
        Some(method) => {
            let params = match v.get("params") {
                Some(p) => Some(p.clone()),
                None => None,
            };
            match id_field {
                None => Ok(JsonRpcMessage::Notification { method: method.clone(), params }),
                Some(_) => match id {
                    Some(n) => Ok(JsonRpcMessage::Request { id: n, method: method.clone(), params }),
                    None => Err(AgentError::Transport("Request id is not a number".to_owned())),
                },
            }
        },
        None => {
            let n = match id {
                Some(n) => n,
                None => {
                    return Err(AgentError::Transport("Message has neither method nor id".to_owned()));
                },
            };
            match v.get("error") {
                Some(e) => {
                    let code = match e.get("code") {
                        Some(JsonValue::Number(c)) => match parse_u64(c.as_str()) {
                            Some(x) => if x <= 0x7fff_ffff {
                                x as i64
                            } else {
                                0
                            },
                            None => if starts_with_minus(c.as_str()) {
                                negative_code(c.as_str())
                            } else {
                                0
                            },
                        },
                        _ => 0,
                    };
                    let message = match e.get_str("message") {
                        Some(m) => m.clone(),
                        None => String::new(),
                    };
                    Ok(JsonRpcMessage::Response { id: n, outcome: Err(ErrorData { code, message }) })
                },
                None => match v.get("result") {
                    Some(res) => Ok(JsonRpcMessage::Response { id: n, outcome: Ok(res.clone()) }),
                    None => Err(AgentError::Transport("Response has neither result nor error".to_owned())),
                },
            }
        },
    }
}

fn starts_with_minus(s: &str) -> (r: bool)
    ensures
        r == (s@.len() > 0 && s@[0] == '-'),
{
    s.unicode_len() > 0 && s.get_char(0) == '-'
}

/// The code of a negative numeral `-<digits>`, where it fits 32 bits; else 0.
fn negative_code(s: &str) -> (r: i64)
    requires
        s@.len() > 0,
        s@[0] == '-',
    ensures
        r == if is_numeral(s@.skip(1)) && numeral_value(s@.skip(1)) <= 0x8000_0000 {
            -numeral_value(s@.skip(1))
        } else {
            0
        },
{
    let rest = s.substring_char(1, s.unicode_len());
    assert(rest@ =~= s@.skip(1));
    match parse_u64(rest) {
        Some(x) => if x <= 0x8000_0000 {
            -(x as i64)
        } else {
            0
        },
        None => 0,
    }
}

/// What the reader does with an incoming envelope.
#[derive(Clone, Copy, Debug, PartialEq, Eq, Structural)]
pub enum Incoming {
    /// Hand it to the caller waiting under this id.
    Deliver(u64),
    /// Pass it to the notification channel.
    Forward,
}

/// A response goes to the caller waiting under its id; anything else goes
/// to the notification channel.
pub fn incoming_action(m: &JsonRpcMessage) -> (r: Incoming)
    ensures
        match m {
            JsonRpcMessage::Response { id, .. } => r == Incoming::Deliver(*id),
            _ => r == Incoming::Forward,
        },
{
    match m {
        JsonRpcMessage::Response { id, .. } => Incoming::Deliver(*id),
        _ => Incoming::Forward,
    }
}

/// JSON-RPC's reserved codes: parse error, invalid request, unknown method,
/// invalid params.
pub const PARSE_ERROR: i64 = -32700;
pub const INVALID_REQUEST: i64 = -32600;
pub const METHOD_NOT_FOUND: i64 = -32601;
pub const INVALID_PARAMS: i64 = -32602;

/// The local error for a response's error object: bad parameters are the
/// caller's, an unknown method is not found, a malformed exchange is the
/// wire's, and anything else failed while running.
pub fn error_to_agent_error(e: ErrorData) -> (r: AgentError)
    ensures
        e.code == INVALID_PARAMS ==> r == AgentError::InvalidParameters(e.message),
        e.code == METHOD_NOT_FOUND ==> r == AgentError::ToolNotFound(e.message),
        (e.code == PARSE_ERROR || e.code == INVALID_REQUEST) ==> r == AgentError::Transport(e.message),
        !(e.code == INVALID_PARAMS || e.code == METHOD_NOT_FOUND || e.code == PARSE_ERROR || e.code
            == INVALID_REQUEST) ==> r == AgentError::ExecutionError(e.message),
{
    if e.code == INVALID_PARAMS {
        AgentError::InvalidParameters(e.message)
    } else if e.code == METHOD_NOT_FOUND {
        AgentError::ToolNotFound(e.message)
    } else if e.code == PARSE_ERROR || e.code == INVALID_REQUEST {
        AgentError::Transport(e.message)
    } else {
        AgentError::ExecutionError(e.message)
    }
}

/// What a response means to its caller: its result, or its error in the
/// local taxonomy.
pub fn response_outcome(outcome: Result<JsonValue, ErrorData>) -> (r: Result<JsonValue, AgentError>)
    ensures
        match outcome {
            Ok(v) => r == Ok::<JsonValue, AgentError>(v),
            Err(e) => r is Err,
        },
{
    match outcome {
        Ok(v) => Ok(v),
        Err(e) => Err(error_to_agent_error(e)),
    }
}

/// A request envelope `{"jsonrpc": "2.0", "id": id, "method": method,
/// "params": params}`.
pub fn request_json(id: u64, method: &str, params: JsonValue) -> (r: JsonValue)
    ensures
        str_field_of(r, "jsonrpc"@) == Some("2.0"@),
        str_field_of(r, "method"@) == Some(method@),
        id_of(field_of(r, "id"@)) == Some(id as int),
        field_of(r, "params"@) == Some(params),
{
    proof {
        reveal_strlit("jsonrpc");
        reveal_strlit("id");
        reveal_strlit("method");
        reveal_strlit("params");
        reveal_with_fuel(crate::json::first_key_index, 5);
        assert("jsonrpc"@[0] != "id"@[0]);
        assert("jsonrpc"@[0] != "method"@[0]);
        assert("jsonrpc"@[0] != "params"@[0]);
        assert("id"@[0] != "method"@[0]);
        assert("id"@[0] != "params"@[0]);
        assert("method"@[0] != "params"@[0]);
    }
    let n = to_decimal(id);
    proof {
        lemma_decimal_numeral(id as nat);
    }
    let mut es: Vec<(String, JsonValue)> = Vec::new();
    es.push(("jsonrpc".to_owned(), JsonValue::Str("2.0".to_owned())));
    es.push(("id".to_owned(), JsonValue::Number(n)));
    es.push(("method".to_owned(), JsonValue::Str(method.to_owned())));
    es.push(("params".to_owned(), params));
    let ghost s = es@;
    assert(s.skip(1)[0] == s[1]);
    assert(s.skip(1).skip(1)[0] == s[2]);
    assert(s.skip(1).skip(1).skip(1)[0] == s[3]);
    JsonValue::Object(es)
}

proof fn lemma_digit_value(d: int)
    requires
        0 <= d < 10,
    ensures
        digits()[d] as int - '0' as int == d,
        '0' <= digits()[d] && digits()[d] <= '9',
{
    reveal_strlit("0123456789");
    if d == 0 {
        assert(digits()[0] == '0');
    } else if d == 1 {
        assert(digits()[1] == '1');
    } else if d == 2 {
        assert(digits()[2] == '2');
    } else if d == 3 {
        assert(digits()[3] == '3');
    } else if d == 4 {
        assert(digits()[4] == '4');
    } else if d == 5 {
        assert(digits()[5] == '5');
    } else if d == 6 {
        assert(digits()[6] == '6');
    } else if d == 7 {
        assert(digits()[7] == '7');
    } else if d == 8 {
        assert(digits()[8] == '8');
    } else if d == 9 {
        assert(digits()[9] == '9');
    }
}

proof fn lemma_decimal_numeral(n: nat)
    ensures
        is_numeral(decimal(n)),
        numeral_value(decimal(n)) == n,
    decreases n,
{
    lemma_digit_value((n % 10) as int);
    if n >= 10 {
        lemma_decimal_numeral(n / 10);
        let d = decimal(n / 10).push(digits()[(n % 10) as int]);
        assert(d.drop_last() =~= decimal(n / 10));
        assert(d.last() == digits()[(n % 10) as int]);
        assert(numeral_value(d) == numeral_value(decimal(n / 10)) * 10 + (d.last() as int - '0' as int));
        assert(n == (n / 10) * 10 + n % 10);
        assert(is_numeral(d)) by {
            assert forall|i: int| 0 <= i < d.len() implies '0' <= #[trigger] d[i] && d[i] <= '9' by {
                if i < d.len() - 1 {
                    assert(d[i] == decimal(n / 10)[i]);
                }
            }
        }
    } else {
        lemma_digit_value(n as int);
        let d = decimal(n);
        assert(d.drop_last() =~= Seq::<char>::empty());
        assert(numeral_value(d) == numeral_value(d.drop_last()) * 10 + (d.last() as int - '0' as int));
    }
}

} // verus!
