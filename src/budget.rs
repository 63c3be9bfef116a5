//! The context budgeter: ranks the extensions' resources, trims them to fit
//! the model's token budget and attaches the survivors as a status pair.
use vstd::prelude::*;
use crate::json::JsonValue;
use crate::message::{Content, Message, MessageContent, Role, ToolCall, content_text};
use crate::text::str_eq;

verus! {

/// A resource of an extension with its fetched content. `priority` is in
/// thousandths (so priorities closer than a thousandth are equal);
/// `token_count` is what the tokenizer counted for `content`.
#[derive(Clone, Debug)]
pub struct ResourceItem {
    pub extension: String,
    pub name: String,
    pub uri: String,
    pub content: String,
    pub priority: u32,
    pub timestamp: i64,
    pub token_count: u64,
}

/// Resource `a` ranks before resource `b`: higher priority first, then the
/// newer one, then the one listed first.
pub open spec fn ranks_before(rs: Seq<ResourceItem>, a: int, b: int) -> bool {
    rs[a].priority > rs[b].priority || (rs[a].priority == rs[b].priority && (rs[a].timestamp
        > rs[b].timestamp || (rs[a].timestamp == rs[b].timestamp && a < b)))
}

/// Index `k` appears in `order`.
pub open spec fn lists(order: Seq<usize>, k: int) -> bool {
    exists|i: int| 0 <= i < order.len() && order[i] == k
}

/// `order` lists every index of `rs` once, best ranked first.
pub open spec fn is_ranking(rs: Seq<ResourceItem>, order: Seq<usize>) -> bool {
    &&& order.len() == rs.len()
    &&& forall|i: int| 0 <= i < order.len() ==> (#[trigger] order[i]) < rs.len()
    &&& forall|i: int, j: int|
        0 <= i < j < order.len() ==> ranks_before(rs, #[trigger] order[i] as int, #[trigger] order[j] as int)
    &&& forall|k: int| 0 <= k < rs.len() ==> #[trigger] lists(order, k)
}

fn ranks_before_exec(rs: &Vec<ResourceItem>, a: usize, b: usize) -> (r: bool)
    requires
        a < rs@.len(),
        b < rs@.len(),
    ensures
        r == ranks_before(rs@, a as int, b as int),
{
    let pa = rs[a].priority;
    let pb = rs[b].priority;
    if pa != pb {
        return pa > pb;
    }
    let ta = rs[a].timestamp;
    let tb = rs[b].timestamp;
    if ta != tb {
        return ta > tb;
    }
    a < b
}

/// The resources' indices, best ranked first: by priority, highest first;
/// equal priorities by timestamp, newest first.
pub fn rank_resources(rs: &Vec<ResourceItem>) -> (order: Vec<usize>)
    ensures
        is_ranking(rs@, order@),
{
    let mut order: Vec<usize> = Vec::new();
    let mut k: usize = 0;
    while k < rs.len()
        invariant
            k <= rs@.len(),
            order@.len() == k,
            forall|i: int| 0 <= i < order@.len() ==> (#[trigger] order@[i]) < k,
            forall|i: int, j: int|
                0 <= i < j < order@.len() ==> ranks_before(rs@, #[trigger] order@[i] as int, #[trigger] order@[j] as int),
            forall|m: int| 0 <= m < k ==> #[trigger] lists(order@, m),
        decreases rs.len() - k,
    {
        let mut p: usize = 0;
        while p < order.len() && !ranks_before_exec(rs, k, order[p])
            invariant
                k < rs@.len(),
                p <= order@.len(),
                forall|i: int| 0 <= i < order@.len() ==> (#[trigger] order@[i]) < k,
                forall|i: int| 0 <= i < p ==> ranks_before(rs@, #[trigger] order@[i] as int, k as int),
            decreases order.len() - p,
        {
            p = p + 1;
        }
        let ghost old_order = order@;
        order.insert(p, k);
        assert forall|i: int, j: int|
            0 <= i < j < order@.len() implies ranks_before(rs@, #[trigger] order@[i] as int, #[trigger] order@[j] as int) by {
            if j < p {
                assert(order@[i] == old_order[i] && order@[j] == old_order[j]);
            } else if j == p {
                assert(order@[i] == old_order[i]);
            } else if i == p {
                assert(order@[j] == old_order[j - 1]);
                assert(ranks_before(rs@, k as int, old_order[p as int] as int));
                if j - 1 > p {
                    assert(ranks_before(rs@, old_order[p as int] as int, old_order[j - 1] as int));
                }
            } else if i < p {
                assert(order@[i] == old_order[i] && order@[j] == old_order[j - 1]);
            } else {
                assert(order@[i] == old_order[i - 1] && order@[j] == old_order[j - 1]);
            }
        }
        assert forall|m: int| 0 <= m < k + 1 implies #[trigger] lists(order@, m) by {
            if m == k {
                assert(order@[p as int] == k);
            } else {
                assert(lists(old_order, m));
                let i0 = choose|i: int| 0 <= i < old_order.len() && old_order[i] == m;
                if i0 < p {
                    assert(order@[i0] == m);
                } else {
                    assert(order@[i0 + 1] == m);
                }
            }
        }
        k = k + 1;
    }
    order
}

/// Resources of equal priority are ranked newest first.
pub proof fn lemma_equal_priority_newer_first(rs: Seq<ResourceItem>, order: Seq<usize>, i: int, j: int)
    requires
        is_ranking(rs, order),
        0 <= i < order.len(),
        0 <= j < order.len(),
        rs[order[i] as int].priority == rs[order[j] as int].priority,
        rs[order[i] as int].timestamp > rs[order[j] as int].timestamp,
    ensures
        i < j,
{
    if j < i {
        assert(ranks_before(rs, order[j] as int, order[i] as int));
    }
}

/// The token counts of the resources, in the order given.
pub open spec fn tokens_in(rs: Seq<ResourceItem>, order: Seq<usize>) -> Seq<int> {
    order.map_values(|k: usize| rs[k as int].token_count as int)
}

/// `a - b`, or 0 where `b` exceeds `a`.
pub open spec fn sat_sub(a: int, b: int) -> int {
    if b <= a {
        a - b
    } else {
        0
    }
}

/// How many resources stay when, starting from an estimate of `current`
/// tokens, the last one is dropped until the estimate is within `target`.
pub open spec fn kept_count(tokens: Seq<int>, current: int, target: int) -> nat
    decreases tokens.len(),
{
    if current <= target || tokens.len() == 0 {
        tokens.len()
    } else {
        kept_count(tokens.drop_last(), sat_sub(current, tokens.last()), target)
    }
}

/// The resources that fit: those best ranked, dropping from the worst end
/// until the estimate is within `target`.
pub open spec fn fitting(rs: Seq<ResourceItem>, order: Seq<usize>, approx_count: int, target: int) -> Seq<usize> {
    order.take(kept_count(tokens_in(rs, order), approx_count, target) as int)
}

/// Index order of the resources that fit in the budget, best ranked first.
/// `approx_count` estimates the tokens of the whole request, resources
/// included.
pub fn select_resources(rs: &Vec<ResourceItem>, approx_count: u64, target_limit: u64) -> (kept: Vec<usize>)
    ensures
        exists|order: Seq<usize>|
            is_ranking(rs@, order) && kept@ == fitting(rs@, order, approx_count as int, target_limit as int),
{
    let mut order = rank_resources(rs);
    let ghost full = order@;
    let mut current = approx_count;
    let ghost goal = kept_count(tokens_in(rs@, full), approx_count as int, target_limit as int);
    assert(full.take(full.len() as int) =~= full);
    while current > target_limit && order.len() > 0
        invariant
            order@.len() <= full.len(),
            order@ == full.take(order@.len() as int),
            is_ranking(rs@, full),
            kept_count(tokens_in(rs@, order@), current as int, target_limit as int) == goal,
        decreases order.len(),
    {
        let ghost before = order@;
        let k = order.pop().unwrap();
        let t = rs[k].token_count;
        assert(tokens_in(rs@, before).drop_last() =~= tokens_in(rs@, order@));
        current = if t <= current { current - t } else { 0 };
        assert(order@ =~= full.take(order@.len() as int));
    }
    order
}

/// The delimiter around a resource's content in the status text.
pub open spec fn fence() -> Seq<char> {
    "\n```\n"@
}

/// One resource in the status text: its name, then its content fenced.
pub open spec fn status_entry(r: ResourceItem) -> Seq<char> {
    r.name@ + fence() + r.content@ + fence()
}

/// The status text of the resources at `kept`, entries separated by a newline.
pub open spec fn status_text(rs: Seq<ResourceItem>, kept: Seq<usize>) -> Seq<char>
    decreases kept.len(),
{
    if kept.len() == 0 {
        Seq::empty()
    } else if kept.len() == 1 {
        status_entry(rs[kept[0] as int])
    } else {
        status_text(rs, kept.drop_last()) + "\n"@ + status_entry(rs[kept.last() as int])
    }
}

/// The status text of the resources at `kept`, in that order.
pub fn format_status(rs: &Vec<ResourceItem>, kept: &Vec<usize>) -> (r: String)
    requires
        forall|i: int| 0 <= i < kept@.len() ==> (#[trigger] kept@[i]) < rs@.len(),
    ensures
        r@ == status_text(rs@, kept@),
        r@.len() == 0 <==> kept@.len() == 0,
{
    let mut out = String::new();
    let mut i: usize = 0;
    assert(kept@.take(0) =~= Seq::<usize>::empty());
    while i < kept.len()
        invariant
            i <= kept@.len(),
            forall|j: int| 0 <= j < kept@.len() ==> (#[trigger] kept@[j]) < rs@.len(),
            out@ == status_text(rs@, kept@.take(i as int)),
            i > 0 ==> out@.len() > 0,
        decreases kept.len() - i,
    {
        let ghost before = out@;
        if i > 0 {
            out.append("\n");
        }
        let item = &rs[kept[i]];
        out.append(item.name.as_str());
        out.append("\n```\n");
        out.append(item.content.as_str());
        out.append("\n```\n");
        proof {
            let t = kept@.take(i + 1);
            assert(t.drop_last() =~= kept@.take(i as int));
            assert(t.last() == kept@[i as int]);
            reveal_strlit("\n```\n");
            if i == 0 {
                assert(out@ =~= status_entry(rs@[kept@[0] as int]));
            } else {
                assert(out@ =~= before + "\n"@ + status_entry(rs@[kept@[i as int] as int]));
            }
        }
        i = i + 1;
    }
    assert(kept@.take(kept@.len() as int) =~= kept@);
    out
}

/// Id of the synthesized status request and response.
pub open spec fn status_id() -> Seq<char> {
    "000"@
}

/// The assistant's synthesized request for the status.
pub open spec fn is_status_request(m: Message) -> bool {
    &&& m.role == Role::Assistant
    &&& m.content@.len() == 1
    &&& match m.content@[0] {
        MessageContent::ToolRequest(q) => q.id@ == status_id() && match q.tool_call {
            Ok(c) => c.name@ == "status"@,
            Err(_) => false,
        },
        _ => false,
    }
}

/// The user's synthesized response carrying the status `text`.
pub open spec fn is_status_response(m: Message, text: Seq<char>) -> bool {
    &&& m.role == Role::User
    &&& m.content@.len() == 1
    &&& match m.content@[0] {
        MessageContent::ToolResponse(p) => p.id@ == status_id() && match p.tool_result {
            Ok(v) => v@.len() == 1 && content_text(v@[0]) == Some(text),
            Err(_) => false,
        },
        _ => false,
    }
}

/// The history ends with a status response.
pub open spec fn ends_with_status(s: Seq<Message>) -> bool {
    &&& s.len() > 0
    &&& s.last().content@.len() > 0
    &&& s.last().content@[0] matches MessageContent::ToolResponse(p) && p.id@ == status_id()
}

/// The history without its trailing status pair, if it ends with one.
pub open spec fn without_status(s: Seq<Message>) -> Seq<Message> {
    if ends_with_status(s) {
        if s.len() >= 2 {
            s.take(s.len() - 2)
        } else {
            Seq::empty()
        }
    } else {
        s
    }
}

/// The history to send to the model: `messages`, then `pending`, then, where
/// any resource was kept, a status pair carrying the kept resources.
pub fn prepare_inference(
    messages: Vec<Message>,
    pending: Vec<Message>,
    rs: &Vec<ResourceItem>,
    kept: &Vec<usize>,
    created: i64,
) -> (r: Vec<Message>)
    requires
        forall|i: int| 0 <= i < kept@.len() ==> (#[trigger] kept@[i]) < rs@.len(),
    ensures
        kept@.len() == 0 ==> r@ == messages@ + pending@,
        kept@.len() > 0 ==> {
            &&& r@.len() == messages@.len() + pending@.len() + 2
            &&& r@.take(r@.len() - 2) == messages@ + pending@
            &&& is_status_request(r@[r@.len() - 2])
            &&& is_status_response(r@[r@.len() - 1], status_text(rs@, kept@))
        },
{
    let mut out = messages;
    let mut pending = pending;
    let ghost base = out@ + pending@;
    out.append(&mut pending);
    if kept.len() == 0 {
        return out;
    }
    let status = format_status(rs, kept);
    let request = Message::new(Role::Assistant, created).with_tool_request(
        "000",
        Ok(ToolCall::new("status", JsonValue::Object(Vec::new()))),
    );
    let mut results: Vec<Content> = Vec::new();
    results.push(Content::text(status.as_str()));
    let response = Message::new(Role::User, created).with_tool_response("000", Ok(results));
    out.push(request);
    out.push(response);
    assert(out@.take(out@.len() - 2) =~= base);
    out
}

/// Removes the trailing status pair before the next turn is budgeted.
pub fn strip_status(messages: &mut Vec<Message>)
    ensures
        final(messages)@ == without_status(old(messages)@),
{
    let n = messages.len();
    if n == 0 {
        return;
    }
    let last = &messages[n - 1];
    if last.content.len() == 0 {
        return;
    }
    let is_status = match &last.content[0] {
        MessageContent::ToolResponse(p) => str_eq(p.id.as_str(), "000"),
        _ => false,
    };
    if is_status {
        messages.pop();
        messages.pop();
        if n >= 2 {
            assert(messages@ =~= old(messages)@.take(n - 2));
        } else {
            assert(messages@ =~= Seq::<Message>::empty());
        }
    }
}

/// The status pair that budgeting appends is removed, and only it, before the
/// next turn: what carries over is the conversation itself.
pub proof fn lemma_status_pair_not_carried(base: Seq<Message>, request: Message, response: Message, text: Seq<char>)
    requires
        is_status_request(request),
        is_status_response(response, text),
    ensures
        without_status(base.push(request).push(response)) == base,
{
    let s = base.push(request).push(response);
    assert(s.take(s.len() - 2) =~= base);
}

/// A request already within budget keeps every resource.
pub proof fn lemma_within_budget_keeps_all(rs: Seq<ResourceItem>, order: Seq<usize>, approx_count: int, target: int)
    requires
        approx_count <= target,
    ensures
        fitting(rs, order, approx_count, target) == order,
{
    assert(order.take(order.len() as int) =~= order);
}

} // verus!
