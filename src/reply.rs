//! The decisions of the reply loop: which tool requests of an assistant
//! message to dispatch, and the single user message that answers them.
//! The driver performs the provider call and the dispatch itself and hands
//! the outcomes back.
use vstd::prelude::*;
use crate::message::{AgentError, Content, Message, MessageContent, Role, ToolRequest, ToolResponse};
use crate::budget::{ResourceItem, prepare_inference, strip_status, without_status, is_status_request, is_status_response, status_text};

verus! {

/// The tool-request blocks of `s`, in order.
pub open spec fn requests_of(s: Seq<MessageContent>) -> Seq<ToolRequest>
    decreases s.len(),
{
    if s.len() == 0 {
        Seq::empty()
    } else {
        let p = requests_of(s.drop_last());
        match s.last() {
            MessageContent::ToolRequest(q) => p.push(q),
            _ => p,
        }
    }
}

/// Positions in `s` of the tool requests whose call is well formed.
pub open spec fn dispatch_positions(s: Seq<MessageContent>) -> Seq<usize>
    decreases s.len(),
{
    if s.len() == 0 {
        Seq::empty()
    } else {
        let p = dispatch_positions(s.drop_last());
        match s.last() {
            MessageContent::ToolRequest(q) => if q.tool_call is Ok {
                p.push((s.len() - 1) as usize)
            } else {
                p
            },
            _ => p,
        }
    }
}

/// Number of requests in `qs` whose call is well formed.
pub open spec fn count_ok(qs: Seq<ToolRequest>) -> nat
    decreases qs.len(),
{
    if qs.len() == 0 {
        0
    } else {
        count_ok(qs.drop_last()) + if qs.last().tool_call is Ok {
            1nat
        } else {
            0nat
        }
    }
}

/// What answers request `q`: the dispatched outcome where its call was well
/// formed, else the error that the call carried.
pub open spec fn answer_for(q: ToolRequest, output: Result<Vec<Content>, AgentError>) -> Result<
    Vec<Content>,
    AgentError,
> {
    match q.tool_call {
        Ok(_) => output,
        Err(e) => Err(e),
    }
}

/// `response` answers the requests of `request`: one tool response per tool
/// request, in the same order and with the same ids.
pub open spec fn answers(response: Message, request: Message) -> bool {
    let qs = requests_of(request.content@);
    &&& response.role == Role::User
    &&& response.content@.len() == qs.len()
    &&& forall|k: int|
        0 <= k < qs.len() ==> match #[trigger] response.content@[k] {
            MessageContent::ToolResponse(p) => p.id@ == qs[k].id@,
            _ => false,
        }
}

proof fn lemma_requests_of_take(s: Seq<MessageContent>, i: int)
    requires
        0 <= i < s.len(),
    ensures
        requests_of(s.take(i + 1)) == match s[i] {
            MessageContent::ToolRequest(q) => requests_of(s.take(i)).push(q),
            _ => requests_of(s.take(i)),
        },
        dispatch_positions(s.take(i + 1)) == match s[i] {
            MessageContent::ToolRequest(q) => if q.tool_call is Ok {
                dispatch_positions(s.take(i)).push(i as usize)
            } else {
                dispatch_positions(s.take(i))
            },
            _ => dispatch_positions(s.take(i)),
        },
{
    assert(s.take(i + 1).drop_last() =~= s.take(i));
}

proof fn lemma_count_ok_len(qs: Seq<ToolRequest>)
    ensures
        count_ok(qs) <= qs.len(),
    decreases qs.len(),
{
    if qs.len() > 0 {
        lemma_count_ok_len(qs.drop_last());
    }
}

proof fn lemma_dispatch_len(s: Seq<MessageContent>)
    ensures
        dispatch_positions(s).len() == count_ok(requests_of(s)),
    decreases s.len(),
{
    if s.len() > 0 {
        lemma_dispatch_len(s.drop_last());
        match s.last() {
            MessageContent::ToolRequest(q) => {
                assert(requests_of(s).drop_last() == requests_of(s.drop_last()));
            },
            _ => {},
        }
    }
}

proof fn lemma_count_ok_prefix(s: Seq<MessageContent>, j: int)
    requires
        0 <= j <= s.len(),
    ensures
        count_ok(requests_of(s.take(j))) <= count_ok(requests_of(s)),
    decreases s.len(),
{
    if j == s.len() {
        assert(s.take(j) =~= s);
    } else {
        assert(s.take(j) =~= s.drop_last().take(j));
        lemma_count_ok_prefix(s.drop_last(), j);
        match s.last() {
            MessageContent::ToolRequest(q) => {
                assert(requests_of(s).drop_last() =~= requests_of(s.drop_last()));
            },
            _ => {},
        }
    }
}

/// Every request listed by `requests_of` stands in the blocks.
proof fn lemma_requests_of_member(s: Seq<MessageContent>, k: int)
    requires
        0 <= k < requests_of(s).len(),
    ensures
        exists|i: int| 0 <= i < s.len() && s[i] == MessageContent::ToolRequest(requests_of(s)[k]),
    decreases s.len(),
{
    let p = requests_of(s.drop_last());
    match s.last() {
        MessageContent::ToolRequest(q) => {
            if k == p.len() {
                assert(s[s.len() - 1] == MessageContent::ToolRequest(requests_of(s)[k]));
            } else {
                lemma_requests_of_member(s.drop_last(), k);
                let i = choose|i: int|
                    0 <= i < s.drop_last().len() && s.drop_last()[i] == MessageContent::ToolRequest(
                        p[k],
                    );
                assert(s[i] == s.drop_last()[i]);
            }
        },
        _ => {
            lemma_requests_of_member(s.drop_last(), k);
            let i = choose|i: int|
                0 <= i < s.drop_last().len() && s.drop_last()[i] == MessageContent::ToolRequest(
                    p[k],
                );
            assert(s[i] == s.drop_last()[i]);
        },
    }
}

/// Positions, in the assistant's message, of the tool requests to dispatch:
/// those whose call is well formed, in order.
pub fn tool_calls_to_dispatch(response: &Message) -> (r: Vec<usize>)
    ensures
        r@ == dispatch_positions(response.content@),
        r@.len() == count_ok(requests_of(response.content@)),
{
    let mut r: Vec<usize> = Vec::new();
    let mut i: usize = 0;
    assert(response.content@.take(0) =~= Seq::<MessageContent>::empty());
    while i < response.content.len()
        invariant
            i <= response.content@.len(),
            r@ == dispatch_positions(response.content@.take(i as int)),
        decreases response.content.len() - i,
    {
        proof {
            lemma_requests_of_take(response.content@, i as int);
        }
        if let MessageContent::ToolRequest(q) = &response.content[i] {
            if q.tool_call.is_ok() {
                r.push(i);
            }
        }
        i = i + 1;
    }
    assert(response.content@.take(i as int) =~= response.content@);
    proof {
        lemma_dispatch_len(response.content@);
    }
    r
}

/// The user message answering every tool request of `response`, in request
/// order: the k-th dispatched call's outcome is `outputs[k]`; a request whose
/// call was malformed is answered with that error.
pub fn tool_response_message(
    response: &Message,
    outputs: Vec<Result<Vec<Content>, AgentError>>,
    created: i64,
) -> (r: Message)
    requires
        outputs@.len() == count_ok(requests_of(response.content@)),
    ensures
        answers(r, *response),
        r.created == created,
        requests_of(r.content@).len() == 0,
        forall|k: int|
            0 <= k < requests_of(response.content@).len() ==> match #[trigger] r.content@[k] {
                MessageContent::ToolResponse(p) => p.tool_result == answer_for(
                    requests_of(response.content@)[k],
                    outputs@[count_ok(requests_of(response.content@).take(k)) as int],
                ),
                _ => false,
            },
{
    let ghost s = response.content@;
    let ghost all = outputs@;
    let mut rest = outputs;
    let mut out = Message::new(Role::User, created);
    let mut i: usize = 0;
    assert(s.take(0) =~= Seq::<MessageContent>::empty());
    assert(all.skip(0) =~= all);
    while i < response.content.len()
        invariant
            s == response.content@,
            all.len() == count_ok(requests_of(s)),
            i <= s.len(),
            out.role == Role::User,
            out.created == created,
            out.content@.len() == requests_of(s.take(i as int)).len(),
            count_ok(requests_of(s.take(i as int))) <= all.len(),
            rest@ == all.skip(count_ok(requests_of(s.take(i as int))) as int),
            requests_of(out.content@).len() == 0,
            forall|k: int|
                0 <= k < out.content@.len() ==> match #[trigger] out.content@[k] {
                    MessageContent::ToolResponse(p) => p.id@ == requests_of(s.take(i as int))[k].id@
                        && p.tool_result == answer_for(
                        requests_of(s.take(i as int))[k],
                        all[count_ok(requests_of(s.take(i as int)).take(k)) as int],
                    ),
                    _ => false,
                },
        decreases s.len() - i,
    {
        proof {
            lemma_requests_of_take(s, i as int);
        }
        let ghost prev = requests_of(s.take(i as int));
        let ghost old_content = out.content@;
        if let MessageContent::ToolRequest(q) = &response.content[i] {
            let ghost next = prev.push(*q);
            assert(next.take(prev.len() as int) =~= prev);
            assert(next.drop_last() =~= prev);
            let result = match &q.tool_call {
                Ok(_) => {
                    proof {
                        lemma_count_ok_prefix(s, i as int + 1);
                        assert(next.drop_last() =~= prev);
                    }
                    rest.remove(0)
                },
                Err(e) => Err(e.duplicate()),
            };
            let ghost c = MessageContent::ToolResponse(ToolResponse { id: q.id, tool_result: result });
            out.content.push(MessageContent::ToolResponse(ToolResponse { id: q.id.clone(), tool_result: result }));
            proof {
                assert(out.content@.drop_last() =~= old_content);
                assert forall|k: int| 0 <= k < out.content@.len() implies match #[trigger] out.content@[k] {
                    MessageContent::ToolResponse(p) => p.id@ == next[k].id@ && p.tool_result
                        == answer_for(next[k], all[count_ok(next.take(k)) as int]),
                    _ => false,
                } by {
                    if k < old_content.len() {
                        assert(out.content@[k] == old_content[k]);
                        assert(next.take(k) =~= prev.take(k));
                    } else {
                        assert(next.take(k) =~= prev);
                    }
                }
                if q.tool_call is Ok {
                    assert(rest@ =~= all.skip(count_ok(next) as int));
                }
            }
        }
        i = i + 1;
    }
    assert(s.take(i as int) =~= s);
    out
}

/// Every tool response that the loop yields answers a tool request, with the
/// same id, in the assistant message of the same turn.
pub proof fn lemma_responses_answer_requests(response: Message, request: Message, k: int)
    requires
        answers(response, request),
        0 <= k < response.content@.len(),
    ensures
        exists|i: int|
            0 <= i < request.content@.len() && match #[trigger] request.content@[i] {
                MessageContent::ToolRequest(q) => match response.content@[k] {
                    MessageContent::ToolResponse(p) => p.id@ == q.id@,
                    _ => false,
                },
                _ => false,
            },
{
    let qs = requests_of(request.content@);
    lemma_requests_of_member(request.content@, k);
    let i = choose|i: int|
        0 <= i < request.content@.len() && request.content@[i] == MessageContent::ToolRequest(qs[k]);
    assert(match response.content@[k] {
        MessageContent::ToolResponse(p) => p.id@ == qs[k].id@,
        _ => false,
    });
}

/// Where a reply stands.
#[derive(Clone, Copy, Debug, PartialEq, Eq, Structural)]
pub enum ReplyPhase {
    /// The history must be budgeted before the next completion.
    Budgeting,
    /// The budgeted history awaits the provider's completion.
    Completing,
    /// The tool calls of the last assistant message are being dispatched.
    Dispatching,
    /// The last assistant message requested no tool: the reply is over.
    Done,
}

/// A reply in progress: the working history and where the turn stands. The
/// driver budgets, calls the provider, yields each message that this state
/// appends, dispatches the calls it is given, and hands the outcomes back.
pub struct ReplyLoop {
    messages: Vec<Message>,
    phase: ReplyPhase,
    retried: bool,
}

impl ReplyLoop {
    /// The working history: the conversation, followed while completing by
    /// the status pair.
    pub closed spec fn history(&self) -> Seq<Message> {
        self.messages@
    }

    pub closed spec fn phase_spec(&self) -> ReplyPhase {
        self.phase
    }

    /// The one retry after a context-length error has been spent.
    pub closed spec fn retried_spec(&self) -> bool {
        self.retried
    }

    /// A reply to the conversation `history`.
    pub fn new(history: Vec<Message>) -> (r: ReplyLoop)
        ensures
            r.history() == history@,
            r.phase_spec() == ReplyPhase::Budgeting,
            !r.retried_spec(),
    {
        ReplyLoop { messages: history, phase: ReplyPhase::Budgeting, retried: false }
    }

    /// Where the reply stands.
    pub fn phase(&self) -> (r: ReplyPhase)
        ensures
            r == self.phase_spec(),
    {
        self.phase
    }

    /// The working history, to hand to the provider.
    pub fn messages(&self) -> (r: &Vec<Message>)
        ensures
            r@ == self.history(),
    {
        &self.messages
    }

    /// The last message appended: what the driver yields after each event.
    pub fn last_message(&self) -> (r: Option<&Message>)
        ensures
            self.history().len() == 0 ==> r is None,
            self.history().len() > 0 ==> r == Some(&self.history().last()),
    {
        let n = self.messages.len();
        if n == 0 {
            None
        } else {
            Some(&self.messages[n - 1])
        }
    }

    /// Budgets the history: the status pair with the resources at `kept`
    /// goes at its end, and the provider is called next.
    pub fn budget(&mut self, rs: &Vec<ResourceItem>, kept: &Vec<usize>, created: i64)
        requires
            old(self).phase_spec() == ReplyPhase::Budgeting,
            forall|i: int| 0 <= i < kept@.len() ==> (#[trigger] kept@[i]) < rs@.len(),
        ensures
            final(self).phase_spec() == ReplyPhase::Completing,
            final(self).retried_spec() == old(self).retried_spec(),
            kept@.len() == 0 ==> final(self).history() == old(self).history(),
            kept@.len() > 0 ==> {
                let h = final(self).history();
                &&& h.len() == old(self).history().len() + 2
                &&& h.take(h.len() - 2) == old(self).history()
                &&& is_status_request(h[h.len() - 2])
                &&& is_status_response(h[h.len() - 1], status_text(rs@, kept@))
            },
    {
        let mut history: Vec<Message> = Vec::new();
        std::mem::swap(&mut history, &mut self.messages);
        let out = prepare_inference(history, Vec::new(), rs, kept, created);
        assert(old(self).messages@ + Seq::<Message>::empty() =~= old(self).messages@);
        self.messages = out;
        self.phase = ReplyPhase::Completing;
    }

    /// The provider answered with `response`: the status pair is dropped, the
    /// response appended, and the positions of the calls to dispatch are
    /// returned. Without any tool request the reply is done.
    pub fn on_completion(&mut self, response: Message) -> (r: Vec<usize>)
        requires
            old(self).phase_spec() == ReplyPhase::Completing,
        ensures
            final(self).history() == without_status(old(self).history()).push(response),
            r@ == dispatch_positions(response.content@),
            requests_of(response.content@).len() == 0 ==> final(self).phase_spec() == ReplyPhase::Done,
            requests_of(response.content@).len() > 0 ==> final(self).phase_spec() == ReplyPhase::Dispatching,
            final(self).retried_spec() == old(self).retried_spec(),
    {
        strip_status(&mut self.messages);
        let positions = tool_calls_to_dispatch(&response);
        let has_request = has_tool_request(&response);
        self.messages.push(response);
        self.phase = if has_request { ReplyPhase::Dispatching } else { ReplyPhase::Done };
        positions
    }

    /// The dispatched calls finished with `outputs`, in dispatch order: the
    /// message answering every request is appended, and the next turn is
    /// budgeted.
    pub fn on_tool_outputs(&mut self, outputs: Vec<Result<Vec<Content>, AgentError>>, created: i64)
        requires
            old(self).phase_spec() == ReplyPhase::Dispatching,
            old(self).history().len() > 0,
            outputs@.len() == count_ok(requests_of(old(self).history().last().content@)),
        ensures
            final(self).phase_spec() == ReplyPhase::Budgeting,
            final(self).retried_spec() == old(self).retried_spec(),
            final(self).history().len() == old(self).history().len() + 1,
            final(self).history().drop_last() == old(self).history(),
            answers(final(self).history().last(), old(self).history().last()),
            requests_of(final(self).history().last().content@).len() == 0,
            forall|k: int|
                0 <= k < requests_of(old(self).history().last().content@).len() ==> match #[trigger] final(self).history().last().content@[k] {
                    MessageContent::ToolResponse(p) => p.tool_result == answer_for(
                        requests_of(old(self).history().last().content@)[k],
                        outputs@[count_ok(requests_of(old(self).history().last().content@).take(k)) as int],
                    ),
                    _ => false,
                },
    {
        let n = self.messages.len();
        let reply = tool_response_message(&self.messages[n - 1], outputs, created);
        self.messages.push(reply);
        assert(self.messages@.drop_last() =~= old(self).messages@);
        self.phase = ReplyPhase::Budgeting;
    }

    /// The provider refused the request as too long. The first time, the
    /// status pair is rebuilt without the worst-ranked of the `kept`
    /// resources and the list that now stays is returned; a second refusal
    /// is the error.
    pub fn on_context_exceeded(
        &mut self,
        rs: &Vec<ResourceItem>,
        kept: Vec<usize>,
        message: String,
        created: i64,
    ) -> (r: Result<Vec<usize>, AgentError>)
        requires
            old(self).phase_spec() == ReplyPhase::Completing,
            forall|i: int| 0 <= i < kept@.len() ==> (#[trigger] kept@[i]) < rs@.len(),
        ensures
            old(self).retried_spec() ==> r == Err::<Vec<usize>, AgentError>(AgentError::ContextLengthExceeded(message))
                && final(self).history() == old(self).history() && final(self).phase_spec() == old(self).phase_spec(),
            !old(self).retried_spec() ==> (r matches Ok(k) && {
                &&& k@ == if kept@.len() > 0 { kept@.drop_last() } else { kept@ }
                &&& final(self).retried_spec()
                &&& final(self).phase_spec() == ReplyPhase::Completing
                &&& k@.len() == 0 ==> final(self).history() == without_status(old(self).history())
                &&& k@.len() > 0 ==> {
                    let h = final(self).history();
                    &&& h.len() == without_status(old(self).history()).len() + 2
                    &&& h.take(h.len() - 2) == without_status(old(self).history())
                    &&& is_status_request(h[h.len() - 2])
                    &&& is_status_response(h[h.len() - 1], status_text(rs@, k@))
                }
            }),
    {
        if self.retried {
            return Err(AgentError::ContextLengthExceeded(message));
        }
        let mut kept = kept;
        if kept.len() > 0 {
            kept.pop();
        }
        strip_status(&mut self.messages);
        self.retried = true;
        self.phase = ReplyPhase::Budgeting;
        self.budget(rs, &kept, created);
        Ok(kept)
    }
}

/// Whether the message holds a tool request.
pub fn has_tool_request(m: &Message) -> (r: bool)
    ensures
        r == (requests_of(m.content@).len() > 0),
{
    let mut i: usize = 0;
    assert(m.content@.take(0) =~= Seq::<MessageContent>::empty());
    while i < m.content.len()
        invariant
            i <= m.content@.len(),
            requests_of(m.content@.take(i as int)).len() == 0,
        decreases m.content.len() - i,
    {
        proof {
            lemma_requests_of_take(m.content@, i as int);
        }
        if let MessageContent::ToolRequest(_) = &m.content[i] {
            proof {
                lemma_requests_of_prefix_len(m.content@, i as int + 1);
            }
            return true;
        }
        i = i + 1;
    }
    assert(m.content@.take(i as int) =~= m.content@);
    false
}

proof fn lemma_requests_of_prefix_len(s: Seq<MessageContent>, j: int)
    requires
        0 <= j <= s.len(),
    ensures
        requests_of(s.take(j)).len() <= requests_of(s).len(),
    decreases s.len(),
{
    if j == s.len() {
        assert(s.take(j) =~= s);
    } else {
        assert(s.take(j) =~= s.drop_last().take(j));
        lemma_requests_of_prefix_len(s.drop_last(), j);
    }
}

} // verus!
