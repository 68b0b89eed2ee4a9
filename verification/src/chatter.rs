//! The bookkeeping of a load test against the chat endpoint: how the
//! requests to send are cut into conversations, how a conversation grows,
//! what is kept of a streamed reply and when reading it stops, and how the
//! token counts of the replies are summed up.
//!
//! Whether a conversation goes on after a request is the caller's draw; what
//! arrives on a stream, and when, is the caller's to await and to measure.
//! What is kept here is what follows from them.

use vstd::prelude::*;
use vstd::string::*;

verus! {

/// What the stream of a reply brings next.
#[derive(Debug, PartialEq, Eq)]
pub enum ReplyEvent {
    /// The stream has opened.
    Open,
    /// A message has arrived, with this text.
    Message(String),
    /// The stream has ended of itself.
    Ended,
    /// The stream has failed.
    Failed,
}

/// What to do with the stream of a reply after an event.
#[derive(Clone, Copy, Debug, PartialEq, Eq, Structural)]
pub enum ReplyStep {
    /// Go on reading.
    Read,
    /// Close the stream, and read what it still hands out.
    Close,
    /// Close the stream and read no more.
    CloseAndStop,
}

/// A reply as a mathematical value: how many messages were accepted, and
/// their texts one after the other.
pub struct ReplyView {
    pub tokens: usize,
    pub text: Seq<char>,
}

impl ReplyView {
    /// Whether `event` is a message that a reply with this many messages
    /// accepts under `limit`.
    pub open spec fn accepts(self, event: ReplyEvent, limit: usize) -> bool {
        event is Message && self.tokens < limit
    }

    /// The reply after `event`: a message below the limit counts and adds its
    /// text; everything else changes nothing.
    pub open spec fn after(self, event: ReplyEvent, limit: usize) -> ReplyView {
        match event {
            ReplyEvent::Message(text) => if self.tokens < limit {
                ReplyView { tokens: (self.tokens + 1) as usize, text: self.text + text@ }
            } else {
                self
            },
            _ => self,
        }
    }

    /// What to do after `event`: a message that arrives at the limit closes
    /// the stream and ends the reading, a failure closes the stream, and
    /// after everything else the reading goes on.
    pub open spec fn step(self, event: ReplyEvent, limit: usize) -> ReplyStep {
        match event {
            ReplyEvent::Message(_) => if self.tokens < limit {
                ReplyStep::Read
            } else {
                ReplyStep::CloseAndStop
            },
            ReplyEvent::Failed => ReplyStep::Close,
            _ => ReplyStep::Read,
        }
    }

    /// Whether the reply is reported: it is when a message was accepted.
    pub open spec fn is_reported(self) -> bool {
        self.tokens != 0
    }

    /// The reply after the events that are read of `events`, in their order:
    /// reading stops with the event after which the step is to stop.
    pub open spec fn after_all(self, events: Seq<ReplyEvent>, limit: usize) -> ReplyView
        decreases events.len(),
    {
        if events.len() == 0 || self.step(events.first(), limit) == ReplyStep::CloseAndStop {
            self
        } else {
            self.after(events.first(), limit).after_all(events.drop_first(), limit)
        }
    }

    /// The limit holds: however many messages a stream brings, and whatever
    /// else, a reply that starts within the limit never accepts more
    /// messages than the limit allows, and never more than were brought. The
    /// text only grows.
    pub proof fn lemma_limit_holds(self, events: Seq<ReplyEvent>, limit: usize)
        requires
            self.tokens <= limit,
        ensures
            self.after_all(events, limit).tokens <= limit,
            self.tokens <= self.after_all(events, limit).tokens <= self.tokens + events.len(),
            self.text.is_prefix_of(self.after_all(events, limit).text),
            self.is_reported() ==> self.after_all(events, limit).is_reported(),
        decreases events.len(),
    {
        if events.len() != 0 && self.step(events.first(), limit) != ReplyStep::CloseAndStop {
            let next = self.after(events.first(), limit);
            next.lemma_limit_holds(events.drop_first(), limit);
        }
    }
}

/// How many of `events` are messages.
pub open spec fn messages_in(events: Seq<ReplyEvent>) -> nat
    decreases events.len(),
{
    if events.len() == 0 {
        0
    } else {
        messages_in(events.drop_first()) + if events.first() is Message {
            1nat
        } else {
            0nat
        }
    }
}

/// A reply counts what it accepts: a message is accepted exactly when the
/// step after it is to go on reading, and then it counts once and its text
/// is added at the end. A failure closes the stream and changes nothing of
/// the reply, and neither does the opening or the end of the stream.
pub proof fn law_reply_counts_what_it_accepts(reply: ReplyView, event: ReplyEvent, limit: usize)
    ensures
        event is Message ==> (reply.accepts(event, limit) <==> reply.step(event, limit)
            == ReplyStep::Read),
        reply.accepts(event, limit) ==> reply.after(event, limit).tokens == reply.tokens + 1
            && reply.after(event, limit).text == reply.text + event->Message_0@,
        !reply.accepts(event, limit) ==> reply.after(event, limit) == reply,
        event is Failed ==> reply.step(event, limit) == ReplyStep::Close,
        event is Open || event is Ended ==> reply.step(event, limit) == ReplyStep::Read,
{
}

/// A stream is read up to the limit: of the messages that a stream brings, a
/// reply within the limit accepts as many as the limit leaves room for, and
/// all of them where there is room for all. It is reported exactly when it
/// accepted one.
pub proof fn law_reply_reads_up_to_the_limit(reply: ReplyView, events: Seq<ReplyEvent>, limit: usize)
    requires
        reply.tokens <= limit,
    ensures
        reply.after_all(events, limit).tokens == if reply.tokens + messages_in(events) <= limit {
            reply.tokens + messages_in(events)
        } else {
            limit as int
        },
        reply.after_all(events, limit).is_reported() <==> reply.is_reported() || (limit > 0
            && messages_in(events) > 0),
    decreases events.len(),
{
    if events.len() != 0 && reply.step(events.first(), limit) != ReplyStep::CloseAndStop {
        law_reply_reads_up_to_the_limit(
            reply.after(events.first(), limit),
            events.drop_first(),
            limit,
        );
    }
}

/// What is kept of one streamed reply.
pub struct Reply {
    tokens: usize,
    text: String,
}

impl View for Reply {
    type V = ReplyView;

    closed spec fn view(&self) -> ReplyView {
        ReplyView { tokens: self.tokens, text: self.text@ }
    }
}

impl Reply {
    /// The reply of which nothing has arrived.
    pub fn new() -> (reply: Reply)
        ensures
            reply@ == (ReplyView { tokens: 0, text: Seq::empty() }),
    {
        Reply { tokens: 0, text: String::new() }
    }

    /// How many messages were accepted.
    pub fn tokens(&self) -> (tokens: usize)
        ensures
            tokens == self@.tokens,
    {
        self.tokens
    }

    /// Whether a message that arrives now is accepted under `limit`. The
    /// text of a message that is not accepted is never looked at.
    pub fn accepts_message(&self, limit: usize) -> (accepted: bool)
        ensures
            accepted == (self@.tokens < limit),
    {
        self.tokens < limit
    }

    /// Takes in the next event of the stream and says what to do with the
    /// stream. A message below the limit is accepted: it counts, and its text
    /// is added to the reply. A message at the limit closes the stream and
    /// ends the reading. A failure closes the stream. A reply within the
    /// limit stays within it.
    pub fn on_event(&mut self, event: &ReplyEvent, limit: usize) -> (step: ReplyStep)
        ensures
            final(self)@ == old(self)@.after(*event, limit),
            step == old(self)@.step(*event, limit),
            old(self)@.tokens <= limit ==> final(self)@.tokens <= limit,
    {
        match event {
            ReplyEvent::Message(text) => {
                if self.tokens < limit {
                    self.tokens = self.tokens + 1;
                    self.text.append(text.as_str());
                    ReplyStep::Read
                } else {
                    ReplyStep::CloseAndStop
                }
            },
            ReplyEvent::Failed => ReplyStep::Close,
            ReplyEvent::Open => ReplyStep::Read,
            ReplyEvent::Ended => ReplyStep::Read,
        }
    }

    /// Whether the reply is reported with its timings: it is when at least
    /// one message was accepted.
    pub fn is_reported(&self) -> (reported: bool)
        ensures
            reported == self@.is_reported(),
    {
        self.tokens != 0
    }

    /// The text of the reply: the texts of the accepted messages, one after
    /// the other.
    pub fn into_text(self) -> (text: String)
        ensures
            text@ == self@.text,
    {
        self.text
    }
}

/// One turn of a conversation.
#[derive(Clone, Debug, PartialEq, Eq)]
pub enum Turn {
    /// What the system tells the assistant.
    System(String),
    /// What the user says.
    User(String),
    /// What the assistant replied.
    Assistant(String),
}

/// Whether `turns` have the shape of a conversation that awaits a reply: the
/// system's turn first, the user's turn at every odd place and last, and an
/// assistant's turn at every even place after the first.
pub open spec fn awaits_reply(turns: Seq<Turn>) -> bool {
    &&& turns.len() >= 2
    &&& turns.len() % 2 == 0
    &&& turns[0] is System
    &&& forall|i: int| 0 <= i < turns.len() && i % 2 == 1 ==> #[trigger] turns[i] is User
    &&& forall|i: int|
        2 <= i < turns.len() && i % 2 == 0 ==> #[trigger] turns[i] is Assistant
}

/// The turns that open a conversation: what the system says, and the prompt
/// that the user starts with.
pub fn opening(system: String, start: String) -> (turns: Vec<Turn>)
    ensures
        turns@ == seq![Turn::System(system), Turn::User(start)],
        awaits_reply(turns@),
{
    let mut turns: Vec<Turn> = Vec::new();
    turns.push(Turn::System(system));
    turns.push(Turn::User(start));
    assert(turns@ =~= seq![Turn::System(system), Turn::User(start)]);
    turns
}

/// Takes a conversation on by one exchange: the assistant's reply, and the
/// prompt with which the user goes on. A conversation that awaited a reply
/// awaits the next one.
pub fn answered(turns: &mut Vec<Turn>, reply: String, next: String)
    ensures
        final(turns)@ == old(turns)@.push(Turn::Assistant(reply)).push(Turn::User(next)),
        awaits_reply(old(turns)@) ==> awaits_reply(final(turns)@),
{
    turns.push(Turn::Assistant(reply));
    turns.push(Turn::User(next));
}

/// The sum of a sequence of counts.
pub open spec fn sum_of(counts: Seq<usize>) -> nat
    decreases counts.len(),
{
    if counts.len() == 0 {
        0
    } else {
        sum_of(counts.drop_last()) + counts.last() as nat
    }
}

/// A plan as a mathematical value: the conversations that are complete, each
/// by the number of its requests, and the number of requests in the
/// conversation that is still going on.
pub struct ChainPlanView {
    pub chains: Seq<usize>,
    pub open: usize,
}

impl ChainPlanView {
    /// The validity of a plan: no complete conversation is empty.
    pub open spec fn wf(self) -> bool {
        forall|i: int| 0 <= i < self.chains.len() ==> #[trigger] self.chains[i] >= 1
    }

    /// How many requests have been planned.
    pub open spec fn requests(self) -> nat {
        sum_of(self.chains) + self.open as nat
    }

    /// The plan after one more request, which ends its conversation or does
    /// not.
    pub open spec fn add_request(self, ends_chain: bool) -> ChainPlanView {
        if ends_chain {
            ChainPlanView { chains: self.chains.push((self.open + 1) as usize), open: 0 }
        } else {
            ChainPlanView { chains: self.chains, open: (self.open + 1) as usize }
        }
    }

    /// The conversations of the plan when no more request follows: the
    /// complete ones, and the one that was going on if it has a request.
    pub open spec fn finished(self) -> Seq<usize> {
        if self.open > 0 {
            self.chains.push(self.open)
        } else {
            self.chains
        }
    }

    /// Every request is planned once: one more request makes the plan one
    /// request larger and keeps it valid, and finishing the plan yields
    /// conversations, none of them empty, that hold exactly the requests
    /// planned.
    pub proof fn lemma_requests_are_kept(self, ends_chain: bool)
        requires
            self.wf(),
            self.open < usize::MAX,
        ensures
            self.add_request(ends_chain).wf(),
            self.add_request(ends_chain).requests() == self.requests() + 1,
            sum_of(self.finished()) == self.requests(),
            forall|i: int| 0 <= i < self.finished().len() ==> #[trigger] self.finished()[i] >= 1,
    {
        assert(self.chains.push((self.open + 1) as usize).drop_last() =~= self.chains);
        assert(self.chains.push(self.open).drop_last() =~= self.chains);
    }
}

/// The plan of a load test: the requests to send, cut into conversations.
pub struct ChainPlan {
    chains: Vec<usize>,
    open: usize,
}

impl View for ChainPlan {
    type V = ChainPlanView;

    closed spec fn view(&self) -> ChainPlanView {
        ChainPlanView { chains: self.chains@, open: self.open }
    }
}

impl ChainPlan {
    /// The validity of the plan. Every operation keeps it.
    pub open spec fn wf(&self) -> bool {
        self@.wf()
    }

    /// The plan with no request.
    pub fn new() -> (plan: ChainPlan)
        ensures
            plan.wf(),
            plan@ == (ChainPlanView { chains: Seq::empty(), open: 0 }),
    {
        ChainPlan { chains: Vec::new(), open: 0 }
    }

    /// How many requests the conversation that is going on has so far.
    pub fn open(&self) -> (open: usize)
        ensures
            open == self@.open,
    {
        self.open
    }

    /// Plans one more request. The request joins the conversation that is
    /// going on; with `ends_chain` it is the last of that conversation, and
    /// the next request starts a new one.
    pub fn add_request(&mut self, ends_chain: bool)
        requires
            old(self).wf(),
            old(self)@.open < usize::MAX,
        ensures
            final(self).wf(),
            final(self)@ == old(self)@.add_request(ends_chain),
    {
        proof {
            self@.lemma_requests_are_kept(ends_chain);
        }
        let chain: usize = self.open + 1;
        if ends_chain {
            self.chains.push(chain);
            self.open = 0;
        } else {
            self.open = chain;
        }
    }

    /// Ends the plan and returns its conversations in order, each by the
    /// number of its requests.
    pub fn finish(self) -> (chains: Vec<usize>)
        requires
            self.wf(),
        ensures
            chains@ == self@.finished(),
    {
        let mut chains: Vec<usize> = self.chains;
        if self.open > 0 {
            chains.push(self.open);
        }
        chains
    }
}

/// Whether `sorted` holds the counts of `counts` in ascending order.
pub open spec fn is_ascending_order_of(sorted: Seq<usize>, counts: Seq<usize>) -> bool {
    &&& sorted.to_multiset() == counts.to_multiset()
    &&& forall|i: int, j: int| 0 <= i <= j < sorted.len() ==> sorted[i] <= sorted[j]
}

/// What a number of token counts come to.
#[derive(Clone, Copy, Debug, PartialEq, Eq, Structural)]
pub struct CountSummary {
    /// The sum of the counts.
    pub total: u128,
    /// How many counts there are.
    pub count: usize,
    /// The smallest count.
    pub min: usize,
    /// The largest count.
    pub max: usize,
    /// The count in the middle of the ascending order; of an even number of
    /// counts, the upper one of the two in the middle.
    pub median: usize,
}

impl CountSummary {
    /// Whether this is the summary of `counts`, whose ascending order is
    /// `sorted`.
    pub open spec fn sums_up(self, counts: Seq<usize>, sorted: Seq<usize>) -> bool {
        &&& is_ascending_order_of(sorted, counts)
        &&& sorted.len() == counts.len()
        &&& self.count == counts.len()
        &&& self.total == sum_of(counts)
        &&& self.min == sorted[0]
        &&& self.max == sorted[sorted.len() - 1]
        &&& self.median == sorted[sorted.len() as int / 2]
    }
}

/// `slice::sort_unstable` puts the counts in ascending order: afterwards the
/// vector holds the same counts, each as often as before, and none stands
/// before a smaller one.
#[verifier::external_body]
fn sort_counts(counts: &mut Vec<usize>)
    ensures
        is_ascending_order_of(final(counts)@, old(counts)@),
        final(counts)@.len() == old(counts)@.len(),
{
    counts.sort_unstable();
}

/// The sum of `counts`.
fn total_of(counts: &Vec<usize>) -> (total: u128)
    ensures
        total == sum_of(counts@),
{
    let mut total: u128 = 0;
    let mut i: usize = 0;
    while i < counts.len()
        invariant
            i <= counts.len(),
            total == sum_of(counts@.take(i as int)),
            total <= i * 0x1_0000_0000_0000_0000,
        decreases counts.len() - i,
    {
        assert(counts@.take(i + 1).drop_last() =~= counts@.take(i as int));
        assert(i * 0x1_0000_0000_0000_0000 + 0x1_0000_0000_0000_0000 == (i + 1)
            * 0x1_0000_0000_0000_0000) by (nonlinear_arith);
        assert((i + 1) * 0x1_0000_0000_0000_0000 <= 0x1_0000_0000_0000_0000
            * 0x1_0000_0000_0000_0000) by (nonlinear_arith)
            requires
                i + 1 <= 0x1_0000_0000_0000_0000,
        ;
        total = total + counts[i] as u128;
        i = i + 1;
    }
    assert(counts@.take(i as int) =~= counts@);
    total
}

/// Sums up the token counts of the replies: their sum and number, the
/// smallest, the largest, and the one in the middle.
pub fn summarize_counts(counts: Vec<usize>) -> (summary: CountSummary)
    requires
        counts.len() > 0,
    ensures
        exists|sorted: Seq<usize>| summary.sums_up(counts@, sorted),
{
    let total: u128 = total_of(&counts);
    let mut sorted: Vec<usize> = counts;
    sort_counts(&mut sorted);
    let summary = CountSummary {
        total,
        count: sorted.len(),
        min: sorted[0],
        max: sorted[sorted.len() - 1],
        median: sorted[sorted.len() / 2],
    };
    assert(summary.sums_up(counts@, sorted@));
    summary
}

/// The summary says what its names say: the smallest count is one of the
/// counts and none is smaller, the largest is one of the counts and none is
/// larger, and the median is one of the counts and lies between the two.
pub proof fn law_summary_bounds(summary: CountSummary, counts: Seq<usize>, sorted: Seq<usize>)
    requires
        counts.len() > 0,
        summary.sums_up(counts, sorted),
    ensures
        counts.contains(summary.min),
        counts.contains(summary.max),
        counts.contains(summary.median),
        summary.min <= summary.median <= summary.max,
        forall|i: int| 0 <= i < counts.len() ==> summary.min <= #[trigger] counts[i] <= summary.max,
{
    let last = sorted.len() - 1;
    let mid = sorted.len() as int / 2;
    lemma_same_counts(sorted, counts, sorted[0]);
    lemma_same_counts(sorted, counts, sorted[last]);
    lemma_same_counts(sorted, counts, sorted[mid]);
    assert(sorted[0] <= sorted[mid] <= sorted[last]);
    assert forall|i: int| 0 <= i < counts.len() implies summary.min <= #[trigger] counts[i]
        <= summary.max by {
        lemma_same_counts(counts, sorted, counts[i]);
        let k = choose|k: int| 0 <= k < sorted.len() && sorted[k] == counts[i];
        assert(sorted[0] <= sorted[k] <= sorted[last]);
    }
}

/// Sequences that hold the same counts, each as often, hold a count or lack
/// it together.
proof fn lemma_same_counts(held: Seq<usize>, other: Seq<usize>, count: usize)
    requires
        held.to_multiset() == other.to_multiset(),
        held.contains(count),
    ensures
        other.contains(count),
{
    vstd::seq_lib::to_multiset_contains(held, count);
    vstd::seq_lib::to_multiset_contains(other, count);
}

/// The ascending order of counts is one order only: two sequences that both
/// hold the same counts in ascending order are the same, so a summary is
/// determined by the counts it sums up.
pub proof fn law_summary_is_determined(
    first: CountSummary,
    second: CountSummary,
    counts: Seq<usize>,
    sorted: Seq<usize>,
    other: Seq<usize>,
)
    requires
        counts.len() > 0,
        first.sums_up(counts, sorted),
        second.sums_up(counts, other),
    ensures
        sorted == other,
        first == second,
{
    let leq = |x: usize, y: usize| x <= y;
    assert(vstd::relations::total_ordering(leq));
    assert(vstd::relations::sorted_by(sorted, leq));
    assert(vstd::relations::sorted_by(other, leq));
    vstd::seq_lib::lemma_sorted_unique(sorted, other, leq);
}

} // verus!
