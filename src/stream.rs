//! Assembly of a streamed completion.
//!
//! The transport hands over raw byte chunks. They are cut into lines; a line
//! that reads `data: <payload>` after trimming carries a JSON delta, and
//! `data: [DONE]` ends the stream. Deltas add text to the answer and fragments
//! to the tool calls, merged by the index the provider gives each call.
use vstd::prelude::*;
use vstd::utf8::{decode_utf8, valid_utf8};
use crate::text::{push_str, trim, trimmed};
use vstd::slice::slice_subrange;
use crate::types::{copy_tool_call, AssistantMessage, FinishReason, FunctionCall, LLMResponse, ToolCall};

verus! {

/// What `String::from_utf8_lossy` makes of some bytes.
pub uninterp spec fn lossy_utf8(b: Seq<u8>) -> Seq<char>;

/// Relies on `String::from_utf8_lossy`: valid UTF-8 is decoded as it is,
/// invalid sequences become replacement characters.
#[verifier::external_body]
fn decode_lossy(b: &[u8]) -> (r: String)
    ensures
        r@ == lossy_utf8(b@),
        valid_utf8(b@) ==> r@ == decode_utf8(b@),
{
    String::from_utf8_lossy(b).into_owned()
}

/// The prefix of an event line that carries data.
pub open spec fn data_prefix() -> Seq<char> {
    "data: "@
}

/// The payload that ends a stream.
pub open spec fn done_payload() -> Seq<char> {
    "[DONE]"@
}

/// Whether the trimmed line starts with `data: `.
pub open spec fn is_data_line(line: Seq<char>) -> bool {
    let t = trimmed(line);
    t.len() >= 6 && t.subrange(0, 6) == data_prefix()
}

/// What follows `data: ` in the trimmed line.
pub open spec fn payload_of(line: Seq<char>) -> Seq<char> {
    let t = trimmed(line);
    t.subrange(6, t.len() as int)
}

/// One line of an event stream, classified.
#[derive(Clone, Debug)]
pub enum Frame {
    /// A data line; its payload should be a JSON delta.
    Data(String),
    /// The terminal `data: [DONE]` line.
    Done,
    /// Any other line (blank, comment, other field).
    Ignored,
}

/// Classifies one line of an event stream.
pub fn classify_line(line: &str) -> (r: Frame)
    ensures
        r is Ignored <==> !is_data_line(line@),
        r is Done <==> is_data_line(line@) && payload_of(line@) == done_payload(),
        r is Data ==> is_data_line(line@) && r->Data_0@ == payload_of(line@)
            && payload_of(line@) != done_payload(),
{
    let t = trim(line);
    let n = t.unicode_len();
    if n < 6 {
        return Frame::Ignored;
    }
    let head = t.substring_char(0, 6).to_owned();
    let prefix = "data: ".to_owned();
    if !(head == prefix) {
        return Frame::Ignored;
    }
    let payload = t.substring_char(6, n).to_owned();
    let done = "[DONE]".to_owned();
    if payload == done {
        Frame::Done
    } else {
        Frame::Data(payload)
    }
}

/// The fields of a tool call, as text.
pub ghost struct CallView {
    pub id: Seq<char>,
    pub call_type: Seq<char>,
    pub name: Seq<char>,
    pub arguments: Seq<char>,
}

impl View for ToolCall {
    type V = CallView;

    open spec fn view(&self) -> CallView {
        CallView {
            id: self.id@,
            call_type: self.call_type@,
            name: self.function.name@,
            arguments: self.function.arguments@,
        }
    }
}

/// A piece of a tool call carried by one delta.
#[derive(Clone, Debug)]
pub struct ToolCallDelta {
    /// Position of the call in the assistant turn; fragments with the same
    /// index belong to one call. A fragment without index is a call of its own.
    pub index: Option<u64>,
    pub id: Option<String>,
    pub call_type: Option<String>,
    pub name: Option<String>,
    /// A piece of the JSON-encoded arguments.
    pub arguments: Option<String>,
}

/// One parsed delta of a stream.
#[derive(Clone, Debug)]
pub struct StreamDelta {
    /// New text of the answer.
    pub content: Option<String>,
    pub tool_calls: Vec<ToolCallDelta>,
    pub finish_reason: Option<FinishReason>,
}

/// The text that a delta adds.
pub open spec fn text_of(d: StreamDelta) -> Seq<char> {
    match d.content {
        Some(c) => c@,
        None => Seq::empty(),
    }
}

/// The argument text that a fragment adds.
pub open spec fn fragment_args(f: ToolCallDelta) -> Seq<char> {
    match f.arguments {
        Some(a) => a@,
        None => Seq::empty(),
    }
}

/// A field given by a fragment replaces the one before, unless it is empty.
pub open spec fn pick(given: Option<String>, before: Seq<char>) -> Seq<char> {
    match given {
        Some(s) => if s@.len() > 0 { s@ } else { before },
        None => before,
    }
}

/// The call that a fragment starts.
pub open spec fn started_call(f: ToolCallDelta) -> CallView {
    CallView {
        id: pick(f.id, Seq::empty()),
        call_type: pick(f.call_type, "function"@),
        name: pick(f.name, Seq::empty()),
        arguments: fragment_args(f),
    }
}

/// The call `c` with a later fragment merged in.
pub open spec fn extended_call(c: CallView, f: ToolCallDelta) -> CallView {
    CallView {
        id: pick(f.id, c.id),
        call_type: pick(f.call_type, c.call_type),
        name: pick(f.name, c.name),
        arguments: c.arguments + fragment_args(f),
    }
}

/// The first of the first `n` slots that holds the call with index `k`.
pub open spec fn first_slot(slots: Seq<(Option<u64>, CallView)>, k: u64, n: nat) -> Option<int>
    decreases n,
{
    if n == 0 {
        None
    } else {
        match first_slot(slots, k, (n - 1) as nat) {
            Some(j) => Some(j),
            None => if slots[n - 1].0 == Some(k) { Some(n - 1) } else { None },
        }
    }
}

/// The slot that holds the call with index `k`, if any.
pub open spec fn slot_of(slots: Seq<(Option<u64>, CallView)>, k: u64) -> Option<int> {
    first_slot(slots, k, slots.len())
}

/// The calls after one more fragment.
pub open spec fn merge_fragment(slots: Seq<(Option<u64>, CallView)>, f: ToolCallDelta) -> Seq<(Option<u64>, CallView)> {
    match f.index {
        Some(k) => match slot_of(slots, k) {
            Some(j) => slots.update(j, (slots[j].0, extended_call(slots[j].1, f))),
            None => slots.push((Some(k), started_call(f))),
        },
        None => slots.push((None, started_call(f))),
    }
}

/// The calls after some fragments, in order.
pub open spec fn merge_fragments(slots: Seq<(Option<u64>, CallView)>, fs: Seq<ToolCallDelta>) -> Seq<(Option<u64>, CallView)>
    decreases fs.len(),
{
    if fs.len() == 0 {
        slots
    } else {
        merge_fragment(merge_fragments(slots, fs.drop_last()), fs.last())
    }
}

/// The calls after some deltas, in order.
pub open spec fn merge_deltas(slots: Seq<(Option<u64>, CallView)>, ds: Seq<StreamDelta>) -> Seq<(Option<u64>, CallView)>
    decreases ds.len(),
{
    if ds.len() == 0 {
        slots
    } else {
        merge_fragments(merge_deltas(slots, ds.drop_last()), ds.last().tool_calls@)
    }
}

/// The text of some deltas, concatenated.
pub open spec fn streamed_text(ds: Seq<StreamDelta>) -> Seq<char>
    decreases ds.len(),
{
    if ds.len() == 0 {
        Seq::empty()
    } else {
        streamed_text(ds.drop_last()) + text_of(ds.last())
    }
}

/// The argument pieces for index `k` among some fragments, concatenated.
pub open spec fn fragments_args(fs: Seq<ToolCallDelta>, k: u64) -> Seq<char>
    decreases fs.len(),
{
    if fs.len() == 0 {
        Seq::empty()
    } else {
        fragments_args(fs.drop_last(), k) + if fs.last().index == Some(k) {
            fragment_args(fs.last())
        } else {
            Seq::empty()
        }
    }
}

/// The argument pieces for index `k` in some deltas, concatenated.
pub open spec fn streamed_args(ds: Seq<StreamDelta>, k: u64) -> Seq<char>
    decreases ds.len(),
{
    if ds.len() == 0 {
        Seq::empty()
    } else {
        streamed_args(ds.drop_last(), k) + fragments_args(ds.last().tool_calls@, k)
    }
}

/// The arguments assembled so far for the call with index `k` (empty when
/// there is none).
pub open spec fn slot_args(slots: Seq<(Option<u64>, CallView)>, k: u64) -> Seq<char> {
    match slot_of(slots, k) {
        Some(j) => slots[j].1.arguments,
        None => Seq::empty(),
    }
}

/// The reason reported last among some deltas, `start` when none reports one.
pub open spec fn last_reason(start: FinishReason, ds: Seq<StreamDelta>) -> FinishReason
    decreases ds.len(),
{
    if ds.len() == 0 {
        start
    } else {
        match ds.last().finish_reason {
            Some(r) => r,
            None => last_reason(start, ds.drop_last()),
        }
    }
}

/// The view of the assembled calls.
pub open spec fn slots_view(v: Seq<(Option<u64>, ToolCall)>) -> Seq<(Option<u64>, CallView)> {
    v.map_values(|s: (Option<u64>, ToolCall)| (s.0, s.1@))
}

/// The first of the first `n` bytes that is a line feed.
pub open spec fn first_newline(b: Seq<u8>, n: nat) -> Option<int>
    decreases n,
{
    if n == 0 {
        None
    } else {
        match first_newline(b, (n - 1) as nat) {
            Some(p) => Some(p),
            None => if b[n - 1] == 10u8 { Some(n - 1) } else { None },
        }
    }
}

/// Where the first complete line of `b` ends, if it has one.
pub open spec fn newline_at(b: Seq<u8>) -> Option<int> {
    first_newline(b, b.len())
}

proof fn lemma_newline_at(b: Seq<u8>, p: nat)
    requires
        p <= b.len(),
        forall|i: int| 0 <= i < p ==> b[i] != 10u8,
    ensures
        first_newline(b, p) is None,
        p < b.len() && b[p as int] == 10u8 ==> first_newline(b, p + 1) == Some(p as int),
    decreases p,
{
    if p > 0 {
        lemma_newline_at(b, (p - 1) as nat);
    }
}

proof fn lemma_first_newline_stable(b: Seq<u8>, n: nat, m: nat)
    requires
        n <= m <= b.len(),
        first_newline(b, n) is Some,
    ensures
        first_newline(b, m) == first_newline(b, n),
    decreases m - n,
{
    if m > n {
        lemma_first_newline_stable(b, n, (m - 1) as nat);
    }
}

proof fn lemma_first_slot_stable(s: Seq<(Option<u64>, CallView)>, k: u64, n: nat, m: nat)
    requires
        n <= m <= s.len(),
        first_slot(s, k, n) is Some,
    ensures
        first_slot(s, k, m) == first_slot(s, k, n),
    decreases m - n,
{
    if m > n {
        lemma_first_slot_stable(s, k, n, (m - 1) as nat);
    }
}

fn pick_field(given: &Option<String>, before: &String) -> (r: String)
    ensures
        r@ == pick(*given, before@),
{
    match given {
        Some(s) => if s.as_str().unicode_len() > 0 { s.clone() } else { before.clone() },
        None => before.clone(),
    }
}

fn fragment_text(f: &ToolCallDelta) -> (r: String)
    ensures
        r@ == fragment_args(*f),
{
    match &f.arguments {
        Some(a) => a.clone(),
        None => String::new(),
    }
}

fn start_call(f: &ToolCallDelta) -> (r: ToolCall)
    ensures
        r@ == started_call(*f),
{
    let empty = String::new();
    let function = "function".to_owned();
    ToolCall {
        id: pick_field(&f.id, &empty),
        call_type: pick_field(&f.call_type, &function),
        function: FunctionCall {
            name: pick_field(&f.name, &empty),
            arguments: fragment_text(f),
        },
    }
}

fn extend_call(c: &ToolCall, f: &ToolCallDelta) -> (r: ToolCall)
    ensures
        r@ == extended_call(c@, *f),
{
    let mut arguments = c.function.arguments.clone();
    let more = fragment_text(f);
    push_str(&mut arguments, more.as_str());
    ToolCall {
        id: pick_field(&f.id, &c.id),
        call_type: pick_field(&f.call_type, &c.call_type),
        function: FunctionCall {
            name: pick_field(&f.name, &c.function.name),
            arguments,
        },
    }
}

/// What a stream has assembled: the text, the calls with their indices, and
/// the finish reason.
pub ghost struct StreamState {
    pub content: Seq<char>,
    pub slots: Seq<(Option<u64>, CallView)>,
    pub finish_reason: FinishReason,
}

/// The state of a stream before any delta.
pub open spec fn initial_state() -> StreamState {
    StreamState { content: Seq::empty(), slots: Seq::empty(), finish_reason: FinishReason::Stop }
}

/// The state after one more delta.
pub open spec fn applied(s: StreamState, d: StreamDelta) -> StreamState {
    StreamState {
        content: s.content + text_of(d),
        slots: merge_fragments(s.slots, d.tool_calls@),
        finish_reason: match d.finish_reason {
            Some(f) => f,
            None => s.finish_reason,
        },
    }
}

/// The state after some deltas, in order.
pub open spec fn replay(s: StreamState, ds: Seq<StreamDelta>) -> StreamState
    decreases ds.len(),
{
    if ds.len() == 0 {
        s
    } else {
        applied(replay(s, ds.drop_last()), ds.last())
    }
}

/// Incremental state of one streamed completion.
pub struct StreamAssembler {
    pending: Vec<u8>,
    content: String,
    slots: Vec<(Option<u64>, ToolCall)>,
    finish_reason: FinishReason,
    done: bool,
}

impl StreamAssembler {
    /// Bytes received and not yet cut into lines.
    pub closed spec fn pending(&self) -> Seq<u8> {
        self.pending@
    }

    /// The answer text so far.
    pub closed spec fn content(&self) -> Seq<char> {
        self.content@
    }

    /// The tool calls so far, each with the index it was given.
    pub closed spec fn slots(&self) -> Seq<(Option<u64>, CallView)> {
        slots_view(self.slots@)
    }

    /// The finish reason so far.
    pub closed spec fn finish_reason(&self) -> FinishReason {
        self.finish_reason
    }

    /// What has been assembled so far.
    pub open spec fn state(&self) -> StreamState {
        StreamState { content: self.content(), slots: self.slots(), finish_reason: self.finish_reason() }
    }

    /// Whether the terminal frame has been seen.
    pub closed spec fn done(&self) -> bool {
        self.done
    }

    /// An empty assembler: no text, no calls, finish reason `Stop`.
    pub fn new() -> (r: Self)
        ensures
            r.pending() == Seq::<u8>::empty(),
            r.content() == Seq::<char>::empty(),
            r.slots() == Seq::<(Option<u64>, CallView)>::empty(),
            r.finish_reason() == FinishReason::Stop,
            r.state() == initial_state(),
            !r.done(),
    {
        let r = StreamAssembler {
            pending: Vec::new(),
            content: String::new(),
            slots: Vec::new(),
            finish_reason: FinishReason::Stop,
            done: false,
        };
        assert(r.slots() =~= Seq::<(Option<u64>, CallView)>::empty());
        r
    }

    /// Whether the terminal frame has been seen.
    pub fn is_done(&self) -> (r: bool)
        ensures
            r == self.done(),
    {
        self.done
    }

    /// Adds received bytes.
    pub fn push_bytes(&mut self, chunk: &[u8])
        ensures
            final(self).pending() == old(self).pending() + chunk@,
            final(self).content() == old(self).content(),
            final(self).slots() == old(self).slots(),
            final(self).finish_reason() == old(self).finish_reason(),
            final(self).done() == old(self).done(),
    {
        let ghost before = self.pending@;
        let mut i: usize = 0;
        while i < chunk.len()
            invariant
                i <= chunk@.len(),
                self.pending@ == before + chunk@.subrange(0, i as int),
                self.content == old(self).content,
                self.slots == old(self).slots,
                self.finish_reason == old(self).finish_reason,
                self.done == old(self).done,
            decreases chunk@.len() - i,
        {
            self.pending.push(chunk[i]);
            i += 1;
            assert(self.pending@ =~= before + chunk@.subrange(0, i as int));
        }
        assert(chunk@.subrange(0, chunk@.len() as int) =~= chunk@);
    }

    /// Takes the next complete line from the received bytes and classifies
    /// it. Returns `None` when no complete line is left, or once the terminal
    /// frame has been seen; that frame marks the stream done.
    pub fn next_frame(&mut self) -> (r: Option<Frame>)
        ensures
            final(self).content() == old(self).content(),
            final(self).slots() == old(self).slots(),
            final(self).finish_reason() == old(self).finish_reason(),
            old(self).done() ==> r is None && final(self).pending() == old(self).pending()
                && final(self).done(),
            !old(self).done() ==> match newline_at(old(self).pending()) {
                None => r is None && final(self).pending() == old(self).pending()
                    && !final(self).done(),
                Some(p) => {
                    let line = lossy_utf8(old(self).pending().subrange(0, p));
                    &&& r is Some
                    &&& final(self).pending() == old(self).pending().subrange(p + 1, old(self).pending().len() as int)
                    &&& (r->Some_0 is Ignored <==> !is_data_line(line))
                    &&& (r->Some_0 is Done <==> is_data_line(line) && payload_of(line) == done_payload())
                    &&& (r->Some_0 is Data ==> is_data_line(line) && payload_of(line) != done_payload()
                        && r->Some_0->Data_0@ == payload_of(line))
                    &&& final(self).done() == r->Some_0 is Done
                },
            },
    {
        if self.done {
            return None;
        }
        let mut p: usize = 0;
        while p < self.pending.len() && self.pending[p] != 10u8
            invariant
                p <= self.pending@.len(),
                forall|i: int| 0 <= i < p ==> self.pending@[i] != 10u8,
            decreases self.pending@.len() - p,
        {
            p += 1;
        }
        if p == self.pending.len() {
            proof { lemma_newline_at(self.pending@, self.pending@.len() as nat); }
            return None;
        }
        proof {
            lemma_newline_at(self.pending@, p as nat);
            lemma_first_newline_stable(self.pending@, (p + 1) as nat, self.pending@.len() as nat);
        }
        let ghost before = self.pending@;
        let mut line = self.pending.split_off(p + 1);
        std::mem::swap(&mut line, &mut self.pending);
        let bytes = slice_subrange(line.as_slice(), 0, p);
        assert(bytes@ =~= before.subrange(0, p as int));
        let text = decode_lossy(bytes);
        let frame = classify_line(text.as_str());
        if let Frame::Done = frame {
            self.done = true;
        }
        Some(frame)
    }

    /// Adds one delta: its text is appended to the answer, its fragments are
    /// merged into the calls, and its finish reason, when it has one, replaces
    /// the one so far. Returns the new text, to be handed to the caller's
    /// incremental callback.
    pub fn apply(&mut self, delta: StreamDelta) -> (r: Option<String>)
        ensures
            r == delta.content,
            final(self).state() == applied(old(self).state(), delta),
            final(self).content() == old(self).content() + text_of(delta),
            final(self).slots() == merge_fragments(old(self).slots(), delta.tool_calls@),
            final(self).finish_reason() == match delta.finish_reason {
                Some(f) => f,
                None => old(self).finish_reason(),
            },
            final(self).pending() == old(self).pending(),
            final(self).done() == old(self).done(),
    {
        let StreamDelta { content, tool_calls, finish_reason } = delta;
        let r = match content {
            Some(c) => {
                push_str(&mut self.content, c.as_str());
                Some(c)
            },
            None => None,
        };
        let ghost start = self.slots();
        let mut i: usize = 0;
        while i < tool_calls.len()
            invariant
                i <= tool_calls@.len(),
                self.slots() == merge_fragments(start, tool_calls@.subrange(0, i as int)),
                self.content@ == old(self).content@ + text_of(delta),
                self.pending == old(self).pending,
                self.done == old(self).done,
                self.finish_reason == old(self).finish_reason,
            decreases tool_calls@.len() - i,
        {
            self.merge(&tool_calls[i]);
            proof {
                let s = tool_calls@.subrange(0, i as int + 1);
                assert(s.drop_last() =~= tool_calls@.subrange(0, i as int));
            }
            i += 1;
        }
        assert(tool_calls@.subrange(0, tool_calls@.len() as int) =~= tool_calls@);
        if let Some(f) = finish_reason {
            self.finish_reason = f;
        }
        r
    }

    fn holds_index(&self, j: usize, k: u64) -> (r: bool)
        requires
            j < self.slots@.len(),
        ensures
            r == (self.slots@[j as int].0 == Some(k)),
    {
        match self.slots[j].0 {
            Some(x) => x == k,
            None => false,
        }
    }

    fn merge(&mut self, f: &ToolCallDelta)
        ensures
            final(self).slots() == merge_fragment(old(self).slots(), *f),
            final(self).content == old(self).content,
            final(self).pending == old(self).pending,
            final(self).done == old(self).done,
            final(self).finish_reason == old(self).finish_reason,
    {
        let ghost sv = self.slots();
        match f.index {
            Some(k) => {
                let mut j: usize = 0;
                while j < self.slots.len() && !self.holds_index(j, k)
                    invariant
                        j <= self.slots@.len(),
                        sv == slots_view(self.slots@),
                        first_slot(sv, k, j as nat) is None,
                    decreases self.slots@.len() - j,
                {
                    j += 1;
                }
                if j < self.slots.len() {
                    assert(slot_of(sv, k) == Some(j as int)) by {
                        lemma_first_slot_stable(sv, k, (j + 1) as nat, sv.len());
                    }
                    let c = extend_call(&self.slots[j].1, f);
                    let tag = self.slots[j].0;
                    self.slots.set(j, (tag, c));
                    assert(self.slots() =~= merge_fragment(sv, *f));
                } else {
                    let c = start_call(f);
                    self.slots.push((Some(k), c));
                    assert(self.slots() =~= merge_fragment(sv, *f));
                }
            },
            None => {
                let c = start_call(f);
                self.slots.push((None, c));
                assert(self.slots() =~= merge_fragment(sv, *f));
            },
        }
    }

    /// The assembled response: the text, the calls in the order they were
    /// started (none at all when there are none), and the last finish reason.
    pub fn finish(self) -> (r: LLMResponse)
        ensures
            r.message.content@ == self.content(),
            r.finish_reason == self.finish_reason(),
            self.slots().len() == 0 ==> r.message.tool_calls is None,
            self.slots().len() > 0 ==> r.message.tool_calls is Some
                && r.message.tool_calls->Some_0@.map_values(|c: ToolCall| c@)
                == self.slots().map_values(|s: (Option<u64>, CallView)| s.1),
    {
        let StreamAssembler { pending: _, content, slots, finish_reason, done: _ } = self;
        let n = slots.len();
        let ghost sv = slots_view(slots@);
        let mut calls: Vec<ToolCall> = Vec::new();
        let mut i: usize = 0;
        while i < n
            invariant
                n == slots@.len(),
                i <= n,
                sv == slots_view(slots@),
                calls@.map_values(|c: ToolCall| c@) =~= sv.subrange(0, i as int).map_values(
                    |s: (Option<u64>, CallView)| s.1,
                ),
            decreases n - i,
        {
            let ghost prev = calls@;
            let c = copy_tool_call(&slots[i].1);
            calls.push(c);
            assert(sv[i as int].1 == c@);
            assert(sv.subrange(0, i as int + 1) =~= sv.subrange(0, i as int).push(sv[i as int]));
            assert(calls@ =~= prev.push(c));
            assert(calls@.map_values(|c: ToolCall| c@) =~= prev.map_values(|c: ToolCall| c@).push(c@));
            assert(sv.subrange(0, i as int + 1).map_values(|s: (Option<u64>, CallView)| s.1)
                =~= sv.subrange(0, i as int).map_values(|s: (Option<u64>, CallView)| s.1).push(sv[i as int].1));
            i += 1;
            assert(calls@.map_values(|c: ToolCall| c@) =~= sv.subrange(0, i as int).map_values(
                |s: (Option<u64>, CallView)| s.1,
            ));
        }
        assert(sv.subrange(0, n as int) =~= sv);
        let tool_calls = if n == 0 { None } else { Some(calls) };
        LLMResponse {
            message: AssistantMessage { content, tool_calls },
            finish_reason,
        }
    }
}

proof fn lemma_first_slot_found(s: Seq<(Option<u64>, CallView)>, k: u64, n: nat)
    requires
        n <= s.len(),
        first_slot(s, k, n) is Some,
    ensures
        0 <= first_slot(s, k, n)->Some_0 < n,
        s[first_slot(s, k, n)->Some_0].0 == Some(k),
    decreases n,
{
    if first_slot(s, k, (n - 1) as nat) is Some {
        lemma_first_slot_found(s, k, (n - 1) as nat);
    }
}

proof fn lemma_first_slot_push(s: Seq<(Option<u64>, CallView)>, x: (Option<u64>, CallView), k: u64, n: nat)
    requires
        n <= s.len(),
    ensures
        first_slot(s.push(x), k, n) == first_slot(s, k, n),
    decreases n,
{
    if n > 0 {
        lemma_first_slot_push(s, x, k, (n - 1) as nat);
    }
}

proof fn lemma_first_slot_update(s: Seq<(Option<u64>, CallView)>, j: int, v: CallView, k: u64, n: nat)
    requires
        0 <= j < s.len(),
        n <= s.len(),
    ensures
        first_slot(s.update(j, (s[j].0, v)), k, n) == first_slot(s, k, n),
    decreases n,
{
    if n > 0 {
        lemma_first_slot_update(s, j, v, k, (n - 1) as nat);
    }
}

proof fn lemma_slot_args_push(s: Seq<(Option<u64>, CallView)>, x: (Option<u64>, CallView), k: u64)
    ensures
        slot_args(s.push(x), k) == if slot_of(s, k) is None && x.0 == Some(k) {
            x.1.arguments
        } else {
            slot_args(s, k)
        },
{
    lemma_first_slot_push(s, x, k, s.len());
    if slot_of(s, k) is Some {
        lemma_first_slot_found(s, k, s.len());
    }
}

proof fn lemma_slot_args_merge(slots: Seq<(Option<u64>, CallView)>, f: ToolCallDelta, k: u64)
    ensures
        slot_args(merge_fragment(slots, f), k) == slot_args(slots, k) + if f.index == Some(k) {
            fragment_args(f)
        } else {
            Seq::empty()
        },
{
    let merged = merge_fragment(slots, f);
    if slot_of(slots, k) is Some {
        lemma_first_slot_found(slots, k, slots.len());
    }
    match f.index {
        Some(i) => match slot_of(slots, i) {
            Some(j) => {
                lemma_first_slot_found(slots, i, slots.len());
                lemma_first_slot_update(slots, j, extended_call(slots[j].1, f), k, slots.len());
            },
            None => {
                lemma_slot_args_push(slots, (Some(i), started_call(f)), k);
            },
        },
        None => {
            lemma_slot_args_push(slots, (None, started_call(f)), k);
        },
    }
    assert(slot_args(merged, k) =~= slot_args(slots, k) + if f.index == Some(k) {
        fragment_args(f)
    } else {
        Seq::empty()
    });
}

proof fn lemma_slot_args_fragments(slots: Seq<(Option<u64>, CallView)>, fs: Seq<ToolCallDelta>, k: u64)
    ensures
        slot_args(merge_fragments(slots, fs), k) == slot_args(slots, k) + fragments_args(fs, k),
    decreases fs.len(),
{
    if fs.len() == 0 {
        assert(slot_args(slots, k) + fragments_args(fs, k) =~= slot_args(slots, k));
    } else {
        lemma_slot_args_fragments(slots, fs.drop_last(), k);
        lemma_slot_args_merge(merge_fragments(slots, fs.drop_last()), fs.last(), k);
        assert(slot_args(merge_fragments(slots, fs), k) =~= slot_args(slots, k) + fragments_args(fs, k));
    }
}

proof fn lemma_slot_args_deltas(slots: Seq<(Option<u64>, CallView)>, ds: Seq<StreamDelta>, k: u64)
    ensures
        slot_args(merge_deltas(slots, ds), k) == slot_args(slots, k) + streamed_args(ds, k),
    decreases ds.len(),
{
    if ds.len() == 0 {
        assert(slot_args(slots, k) + streamed_args(ds, k) =~= slot_args(slots, k));
    } else {
        lemma_slot_args_deltas(slots, ds.drop_last(), k);
        lemma_slot_args_fragments(merge_deltas(slots, ds.drop_last()), ds.last().tool_calls@, k);
        assert(slot_args(merge_deltas(slots, ds), k) =~= slot_args(slots, k) + streamed_args(ds, k));
    }
}

/// Streamed tool-call arguments reassemble: starting from no calls, after any
/// sequence of deltas the call with index `k` holds exactly the argument
/// pieces given for `k`, concatenated in the order they came. Two streams
/// that split the same arguments differently therefore assemble the same
/// arguments, as the whole text would have given them.
pub proof fn lemma_stream_arguments(ds1: Seq<StreamDelta>, ds2: Seq<StreamDelta>, k: u64)
    requires
        streamed_args(ds1, k) == streamed_args(ds2, k),
    ensures
        slot_args(merge_deltas(Seq::empty(), ds1), k) == streamed_args(ds1, k),
        slot_args(merge_deltas(Seq::empty(), ds1), k) == slot_args(merge_deltas(Seq::empty(), ds2), k),
{
    let e = Seq::<(Option<u64>, CallView)>::empty();
    lemma_slot_args_deltas(e, ds1, k);
    lemma_slot_args_deltas(e, ds2, k);
    assert(slot_args(e, k) == Seq::<char>::empty());
    assert(Seq::<char>::empty() + streamed_args(ds1, k) =~= streamed_args(ds1, k));
    assert(Seq::<char>::empty() + streamed_args(ds2, k) =~= streamed_args(ds2, k));
}

/// A stream reassembles: from the initial state, after any sequence of
/// deltas the text is the deltas' texts concatenated (which is also what
/// `apply` handed out, piece by piece, for the incremental callback), each
/// call holds the argument pieces given for its index concatenated in order,
/// and the finish reason is the last one reported (`Stop` when none is).
pub proof fn lemma_stream_replay(ds: Seq<StreamDelta>, k: u64)
    ensures
        replay(initial_state(), ds).content == streamed_text(ds),
        replay(initial_state(), ds).slots == merge_deltas(Seq::empty(), ds),
        replay(initial_state(), ds).finish_reason == last_reason(FinishReason::Stop, ds),
        slot_args(replay(initial_state(), ds).slots, k) == streamed_args(ds, k),
    decreases ds.len(),
{
    if ds.len() == 0 {
        assert(streamed_text(ds) =~= Seq::<char>::empty());
    } else {
        lemma_stream_replay(ds.drop_last(), k);
    }
    lemma_stream_arguments(ds, ds, k);
}

/// The call with index `k` among `slots`, if there is one.
pub open spec fn slot_call(slots: Seq<(Option<u64>, CallView)>, k: u64) -> Option<CallView> {
    match slot_of(slots, k) {
        Some(j) => Some(slots[j].1),
        None => None,
    }
}

/// The call with index `k` after one more fragment: the fragment starts it
/// or extends it when it has index `k`, and leaves it otherwise.
pub open spec fn fold_fragment(acc: Option<CallView>, f: ToolCallDelta, k: u64) -> Option<CallView> {
    if f.index == Some(k) {
        Some(
            match acc {
                Some(c) => extended_call(c, f),
                None => started_call(f),
            },
        )
    } else {
        acc
    }
}

/// The call with index `k` after some fragments, in order.
pub open spec fn fragments_call(acc: Option<CallView>, fs: Seq<ToolCallDelta>, k: u64) -> Option<CallView>
    decreases fs.len(),
{
    if fs.len() == 0 {
        acc
    } else {
        fold_fragment(fragments_call(acc, fs.drop_last(), k), fs.last(), k)
    }
}

/// The fragments of some deltas, in order.
pub open spec fn all_fragments(ds: Seq<StreamDelta>) -> Seq<ToolCallDelta>
    decreases ds.len(),
{
    if ds.len() == 0 {
        Seq::empty()
    } else {
        all_fragments(ds.drop_last()) + ds.last().tool_calls@
    }
}

/// The fragments with index `k`, in order.
pub open spec fn for_index(fs: Seq<ToolCallDelta>, k: u64) -> Seq<ToolCallDelta>
    decreases fs.len(),
{
    if fs.len() == 0 {
        Seq::empty()
    } else if fs.last().index == Some(k) {
        for_index(fs.drop_last(), k).push(fs.last())
    } else {
        for_index(fs.drop_last(), k)
    }
}

/// The argument pieces of some fragments, concatenated.
pub open spec fn pieces(fs: Seq<ToolCallDelta>) -> Seq<char>
    decreases fs.len(),
{
    if fs.len() == 0 {
        Seq::empty()
    } else {
        pieces(fs.drop_last()) + fragment_args(fs.last())
    }
}

proof fn lemma_slot_call_merge(slots: Seq<(Option<u64>, CallView)>, f: ToolCallDelta, k: u64)
    ensures
        slot_call(merge_fragment(slots, f), k) == fold_fragment(slot_call(slots, k), f, k),
{
    if slot_of(slots, k) is Some {
        lemma_first_slot_found(slots, k, slots.len());
    }
    match f.index {
        Some(i) => match slot_of(slots, i) {
            Some(j) => {
                lemma_first_slot_found(slots, i, slots.len());
                lemma_first_slot_update(slots, j, extended_call(slots[j].1, f), k, slots.len());
            },
            None => {
                lemma_first_slot_push(slots, (Some(i), started_call(f)), k, slots.len());
            },
        },
        None => {
            lemma_first_slot_push(slots, (None, started_call(f)), k, slots.len());
        },
    }
}

proof fn lemma_slot_call_fragments(slots: Seq<(Option<u64>, CallView)>, fs: Seq<ToolCallDelta>, k: u64)
    ensures
        slot_call(merge_fragments(slots, fs), k) == fragments_call(slot_call(slots, k), fs, k),
    decreases fs.len(),
{
    if fs.len() > 0 {
        lemma_slot_call_fragments(slots, fs.drop_last(), k);
        lemma_slot_call_merge(merge_fragments(slots, fs.drop_last()), fs.last(), k);
    }
}

proof fn lemma_fragments_call_concat(acc: Option<CallView>, a: Seq<ToolCallDelta>, b: Seq<ToolCallDelta>, k: u64)
    ensures
        fragments_call(acc, a + b, k) == fragments_call(fragments_call(acc, a, k), b, k),
    decreases b.len(),
{
    if b.len() == 0 {
        assert(a + b =~= a);
    } else {
        lemma_fragments_call_concat(acc, a, b.drop_last(), k);
        assert((a + b).drop_last() =~= a + b.drop_last());
        assert((a + b).last() == b.last());
    }
}

proof fn lemma_slot_call_deltas(slots: Seq<(Option<u64>, CallView)>, ds: Seq<StreamDelta>, k: u64)
    ensures
        slot_call(merge_deltas(slots, ds), k) == fragments_call(slot_call(slots, k), all_fragments(ds), k),
    decreases ds.len(),
{
    if ds.len() > 0 {
        lemma_slot_call_deltas(slots, ds.drop_last(), k);
        lemma_slot_call_fragments(merge_deltas(slots, ds.drop_last()), ds.last().tool_calls@, k);
        lemma_fragments_call_concat(slot_call(slots, k), all_fragments(ds.drop_last()), ds.last().tool_calls@, k);
    }
}

proof fn lemma_fragments_call_for_index(acc: Option<CallView>, fs: Seq<ToolCallDelta>, k: u64)
    ensures
        fragments_call(acc, fs, k) == fragments_call(acc, for_index(fs, k), k),
    decreases fs.len(),
{
    if fs.len() > 0 {
        lemma_fragments_call_for_index(acc, fs.drop_last(), k);
        if fs.last().index == Some(k) {
            assert(for_index(fs, k).drop_last() =~= for_index(fs.drop_last(), k));
        }
    }
}

proof fn lemma_split_pieces(first: ToolCallDelta, rest: Seq<ToolCallDelta>, k: u64)
    requires
        first.index == Some(k),
        forall|i: int| 0 <= i < rest.len() ==> (#[trigger] rest[i]).index == Some(k) && rest[i].id is None
            && rest[i].call_type is None && rest[i].name is None,
    ensures
        fragments_call(None, seq![first] + rest, k) == Some(CallView {
            arguments: fragment_args(first) + pieces(rest),
            ..started_call(first)
        }),
    decreases rest.len(),
{
    if rest.len() == 0 {
        assert(seq![first] + rest =~= seq![first]);
        assert(seq![first].drop_last() =~= Seq::<ToolCallDelta>::empty());
        assert(fragment_args(first) + pieces(rest) =~= fragment_args(first));
        assert(seq![first].last() == first);
        assert(fragments_call(None, Seq::<ToolCallDelta>::empty(), k) is None);
        assert(fragments_call(None, seq![first], k) == fold_fragment(None, first, k));
        assert(CallView { arguments: fragment_args(first) + pieces(rest), ..started_call(first) } == started_call(first));
    } else {
        let before = rest.drop_last();
        assert forall|i: int| 0 <= i < before.len() implies (#[trigger] before[i]).index == Some(k) && before[i].id is None
            && before[i].call_type is None && before[i].name is None by {
            assert(before[i] == rest[i]);
        }
        lemma_split_pieces(first, before, k);
        assert((seq![first] + rest).drop_last() =~= seq![first] + before);
        assert((seq![first] + rest).last() == rest.last());
        assert(rest.last() == rest[rest.len() - 1]);
        assert(fragment_args(first) + pieces(rest) =~= fragment_args(first) + pieces(before) + fragment_args(rest.last()));
        let c = CallView { arguments: fragment_args(first) + pieces(before), ..started_call(first) };
        assert(fragments_call(None, seq![first] + rest, k) == fold_fragment(Some(c), rest.last(), k));
        assert(extended_call(c, rest.last()) == CallView {
            arguments: fragment_args(first) + pieces(rest),
            ..started_call(first)
        });
    }
}

/// A tool call reassembles whole: from the initial state, after any deltas
/// the call with index `k` is the one its own fragments build, in order,
/// whatever the other calls. When those fragments are a first one carrying
/// the id, type and name, followed by pieces that carry arguments only, the
/// call is exactly the one a single fragment `whole` with the same id, type
/// and name and the pieces' concatenation as arguments gives, as sent whole.
pub proof fn lemma_stream_calls(
    ds: Seq<StreamDelta>,
    k: u64,
    first: ToolCallDelta,
    rest: Seq<ToolCallDelta>,
    whole: ToolCallDelta,
)
    requires
        for_index(all_fragments(ds), k) == seq![first] + rest,
        first.index == Some(k),
        forall|i: int| 0 <= i < rest.len() ==> (#[trigger] rest[i]).index == Some(k) && rest[i].id is None
            && rest[i].call_type is None && rest[i].name is None,
        whole.index == Some(k),
        whole.id == first.id,
        whole.call_type == first.call_type,
        whole.name == first.name,
        fragment_args(whole) == fragment_args(first) + pieces(rest),
    ensures
        slot_call(replay(initial_state(), ds).slots, k) == fragments_call(None, for_index(all_fragments(ds), k), k),
        slot_call(replay(initial_state(), ds).slots, k) == Some(started_call(whole)),
{
    let e = Seq::<(Option<u64>, CallView)>::empty();
    lemma_stream_replay(ds, k);
    lemma_slot_call_deltas(e, ds, k);
    assert(slot_call(e, k) is None);
    lemma_fragments_call_for_index(None, all_fragments(ds), k);
    lemma_split_pieces(first, rest, k);
    assert(started_call(whole) =~= CallView { arguments: fragment_args(first) + pieces(rest), ..started_call(first) });
}

} // verus!
