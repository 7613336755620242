//! Tool execution plans.
//!
//! Both strategies decide here which call goes to which registered tool and
//! answer calls to unknown tools with a "not found" result; awaiting the tool
//! bodies is the caller's part.
//!
//! The parallel strategy partitions one turn's calls by tool name, keeping the
//! order within each group, so that a tool can serve its group in one batch
//! while the groups run concurrently. The sequential strategy keeps the calls
//! in the order received, to be run one after another.
use vstd::prelude::*;
use vstd::multiset::Multiset;
use crate::registry::{same_text, Registry};
use crate::text::push_str;
use crate::types::{copy_tool_call, ToolCall, ToolMessage, ToolOutput, ToolResult};

verus! {

broadcast use vstd::seq_lib::group_to_multiset_ensures;

/// The content of the result for a call to a tool named `name` that is not
/// registered.
pub open spec fn not_found_text(name: Seq<char>) -> Seq<char> {
    "Tool '"@ + name + "' not found"@
}

/// Whether `r` is the "not found" result for call `c`, made at `now`.
pub open spec fn is_not_found_result(r: ToolResult, c: ToolCall, now: u64) -> bool {
    &&& r.tool_message.tool_call_id@ == c.id@
    &&& r.tool_message.content@ == not_found_text(c.function.name@)
    &&& r.timestamp == now
    &&& r.elapsed == 0
}

/// The content of the result for a call that a tool's batch left without
/// output.
pub open spec fn no_output_text(name: Seq<char>) -> Seq<char> {
    "Tool '"@ + name + "' returned no result"@
}

/// The ids that some tool results answer.
pub open spec fn result_ids(rs: Seq<ToolResult>) -> Seq<Seq<char>> {
    rs.map_values(|r: ToolResult| r.tool_message.tool_call_id@)
}

/// Whether `r` is the result of call `c` made from `outputs[i]`, or, when
/// there is no such output, the "no result" result made at `now`.
pub open spec fn is_answer(r: ToolResult, c: ToolCall, outputs: Seq<ToolOutput>, i: int, now: u64) -> bool {
    &&& r.tool_message.tool_call_id@ == c.id@
    &&& i < outputs.len() ==> r.tool_message.content == outputs[i].content
        && r.timestamp == outputs[i].timestamp && r.elapsed == outputs[i].elapsed
    &&& i >= outputs.len() ==> r.tool_message.content@ == no_output_text(c.function.name@)
        && r.timestamp == now && r.elapsed == 0
}

/// Whether `r` answers some call among `calls`, and is the "not found"
/// result for it when its tool is not among `registered`.
pub open spec fn answers_some(r: ToolResult, calls: Seq<ToolCall>, registered: Set<Seq<char>>, now: u64) -> bool {
    exists|i: int| 0 <= i < calls.len() && r.tool_message.tool_call_id@ == calls[i].id@
        && (!registered.contains(calls[i].function.name@) ==> is_not_found_result(r, calls[i], now))
}

/// Where the results of the `g`-th unit start, the units being the groups of
/// `calls` named `names`, in order.
pub open spec fn unit_start(calls: Seq<ToolCall>, names: Seq<Seq<char>>, g: nat) -> nat
    decreases g,
{
    if g == 0 {
        0
    } else {
        unit_start(calls, names, (g - 1) as nat) + with_name(calls, names[g - 1]).len()
    }
}

/// What the tool of the `g`-th unit produced: `outputs[g]`, or nothing.
pub open spec fn unit_outputs(outputs: Seq<Vec<ToolOutput>>, g: int) -> Seq<ToolOutput> {
    if 0 <= g < outputs.len() { outputs[g]@ } else { Seq::empty() }
}

/// Whether the results answer the `i`-th call of the `g`-th unit, at its
/// place: from the tool's outputs when the tool is registered, "not found"
/// otherwise.
pub open spec fn unit_answered(
    r: Seq<ToolResult>,
    calls: Seq<ToolCall>,
    outputs: Seq<Vec<ToolOutput>>,
    registered: Set<Seq<char>>,
    now: u64,
    g: int,
    i: int,
) -> bool {
    let names = distinct_names(calls);
    let c = with_name(calls, names[g])[i];
    let res = r[unit_start(calls, names, g as nat) + i];
    if registered.contains(names[g]) {
        is_answer(res, c, unit_outputs(outputs, g), i, now)
    } else {
        is_not_found_result(res, c, now)
    }
}

/// Pairs the outputs of a tool's batch with the calls it was given, in
/// order: the i-th output answers the i-th call. A call without output gets
/// the result `Tool '<name>' returned no result`, made at `now`, so that every
/// call is answered exactly once whatever the batch returned.
pub fn answer_calls(calls: &Vec<ToolCall>, outputs: Vec<ToolOutput>, now: u64) -> (r: Vec<ToolResult>)
    ensures
        r@.len() == calls@.len(),
        forall|i: int| 0 <= i < calls@.len() ==> is_answer(#[trigger] r@[i], calls@[i], outputs@, i, now),
{
    let mut results: Vec<ToolResult> = Vec::new();
    let mut i: usize = 0;
    while i < calls.len()
        invariant
            i <= calls@.len(),
            results@.len() == i,
            forall|j: int| 0 <= j < i ==> is_answer(#[trigger] results@[j], calls@[j], outputs@, j, now),
        decreases calls@.len() - i,
    {
        let c = &calls[i];
        let r = if i < outputs.len() {
            let o = &outputs[i];
            ToolResult {
                tool_message: ToolMessage { content: o.content.clone(), tool_call_id: c.id.clone() },
                timestamp: o.timestamp,
                elapsed: o.elapsed,
            }
        } else {
            let mut content = "Tool '".to_owned();
            push_str(&mut content, c.function.name.as_str());
            push_str(&mut content, "' returned no result");
            ToolResult {
                tool_message: ToolMessage { content, tool_call_id: c.id.clone() },
                timestamp: now,
                elapsed: 0,
            }
        };
        results.push(r);
        i += 1;
    }
    results
}

/// The tool names of some calls, each once, in order of first appearance.
pub open spec fn distinct_names(cs: Seq<ToolCall>) -> Seq<Seq<char>>
    decreases cs.len(),
{
    if cs.len() == 0 {
        Seq::empty()
    } else {
        let before = distinct_names(cs.drop_last());
        let n = cs.last().function.name@;
        if before.contains(n) { before } else { before.push(n) }
    }
}

/// The calls to the tool named `n`, in their order.
pub open spec fn with_name(cs: Seq<ToolCall>, n: Seq<char>) -> Seq<ToolCall>
    decreases cs.len(),
{
    if cs.len() == 0 {
        Seq::empty()
    } else {
        let before = with_name(cs.drop_last(), n);
        if cs.last().function.name@ == n { before.push(cs.last()) } else { before }
    }
}

/// The ids of some calls.
pub open spec fn call_ids(cs: Seq<ToolCall>) -> Seq<Seq<char>> {
    cs.map_values(|c: ToolCall| c.id@)
}

/// The ids of the calls in the groups named `ns`, all together.
pub open spec fn grouped_ids(cs: Seq<ToolCall>, ns: Seq<Seq<char>>) -> Multiset<Seq<char>>
    decreases ns.len(),
{
    if ns.len() == 0 {
        Multiset::empty()
    } else {
        grouped_ids(cs, ns.drop_last()).add(call_ids(with_name(cs, ns.last())).to_multiset())
    }
}

/// The result for a call to a tool that is not registered: the content is
/// `Tool '<name>' not found`, the elapsed time zero.
pub fn tool_not_found_result(call_id: String, tool_name: &str, timestamp: u64) -> (r: ToolResult)
    ensures
        r.tool_message.tool_call_id == call_id,
        r.tool_message.content@ == not_found_text(tool_name@),
        r.timestamp == timestamp,
        r.elapsed == 0,
{
    let mut content = "Tool '".to_owned();
    push_str(&mut content, tool_name);
    push_str(&mut content, "' not found");
    ToolResult {
        tool_message: ToolMessage { content, tool_call_id: call_id },
        timestamp,
        elapsed: 0,
    }
}

fn not_found_for(c: &ToolCall, now: u64) -> (r: ToolResult)
    ensures
        is_not_found_result(r, *c, now),
{
    tool_not_found_result(c.id.clone(), c.function.name.as_str(), now)
}

fn has_text(names: &Vec<String>, n: &str) -> (r: bool)
    ensures
        r == names@.map_values(|s: String| s@).contains(n@),
{
    let mut i: usize = 0;
    while i < names.len()
        invariant
            i <= names@.len(),
            forall|j: int| 0 <= j < i ==> names@[j]@ != n@,
        decreases names@.len() - i,
    {
        if same_text(names[i].as_str(), n) {
            assert(names@.map_values(|s: String| s@)[i as int] == n@);
            return true;
        }
        i += 1;
    }
    let ghost views = names@.map_values(|s: String| s@);
    assert(!views.contains(n@)) by {
        if views.contains(n@) {
            let j = choose|j: int| 0 <= j < views.len() && #[trigger] views[j] == n@;
            assert(names@[j]@ == n@);
        }
    }
    false
}

/// The tool names of `calls`, each once, in order of first appearance.
pub fn tool_names(calls: &Vec<ToolCall>) -> (r: Vec<String>)
    ensures
        r@.map_values(|s: String| s@) == distinct_names(calls@),
{
    let mut names: Vec<String> = Vec::new();
    let mut i: usize = 0;
    while i < calls.len()
        invariant
            i <= calls@.len(),
            names@.map_values(|s: String| s@) == distinct_names(calls@.subrange(0, i as int)),
        decreases calls@.len() - i,
    {
        let ghost sub = calls@.subrange(0, i as int + 1);
        assert(sub.drop_last() =~= calls@.subrange(0, i as int));
        let name = &calls[i].function.name;
        if !has_text(&names, name.as_str()) {
            let ghost before = names@;
            names.push(name.clone());
            assert(names@.map_values(|s: String| s@) =~= before.map_values(|s: String| s@).push(name@));
        }
        i += 1;
    }
    assert(calls@.subrange(0, calls@.len() as int) =~= calls@);
    names
}

/// The calls among `calls` to the tool named `name`, in their order.
pub fn calls_named(calls: &Vec<ToolCall>, name: &str) -> (r: Vec<ToolCall>)
    ensures
        r@ == with_name(calls@, name@),
{
    let mut group: Vec<ToolCall> = Vec::new();
    let mut i: usize = 0;
    while i < calls.len()
        invariant
            i <= calls@.len(),
            group@ == with_name(calls@.subrange(0, i as int), name@),
        decreases calls@.len() - i,
    {
        let ghost sub = calls@.subrange(0, i as int + 1);
        assert(sub.drop_last() =~= calls@.subrange(0, i as int));
        let c = &calls[i];
        if same_text(c.function.name.as_str(), name) {
            group.push(copy_tool_call(c));
        }
        i += 1;
    }
    assert(calls@.subrange(0, calls@.len() as int) =~= calls@);
    group
}

/// The "not found" results for some calls, in their order.
pub fn not_found_results(calls: &Vec<ToolCall>, now: u64) -> (r: Vec<ToolResult>)
    ensures
        r@.len() == calls@.len(),
        forall|i: int| 0 <= i < calls@.len() ==> is_not_found_result(#[trigger] r@[i], calls@[i], now),
{
    let mut results: Vec<ToolResult> = Vec::new();
    let mut i: usize = 0;
    while i < calls.len()
        invariant
            i <= calls@.len(),
            results@.len() == i,
            forall|j: int| 0 <= j < i ==> is_not_found_result(#[trigger] results@[j], calls@[j], now),
        decreases calls@.len() - i,
    {
        results.push(not_found_for(&calls[i], now));
        i += 1;
    }
    results
}

/// One unit of work of the parallel strategy.
#[derive(Debug)]
pub enum Dispatch {
    /// Hand these calls, all to the tool named `name`, to that tool's batch
    /// method.
    Run { name: String, calls: Vec<ToolCall> },
    /// No tool is registered under `name`: these are the results of its calls.
    NotFound { name: String, results: Vec<ToolResult> },
}

impl Dispatch {
    /// The tool name the unit is for.
    pub open spec fn name(&self) -> Seq<char> {
        match self {
            Dispatch::Run { name, .. } => name@,
            Dispatch::NotFound { name, .. } => name@,
        }
    }
}

/// Executes tools concurrently, one group per tool name, each group through
/// the tool's batch method.
pub struct ParallelExecutor<T> {
    tools: Registry<T>,
}

impl<T> View for ParallelExecutor<T> {
    type V = Map<Seq<char>, T>;

    closed spec fn view(&self) -> Map<Seq<char>, T> {
        self.tools@
    }
}

impl<T> ParallelExecutor<T> {
    /// The registry is well formed.
    pub closed spec fn wf(&self) -> bool {
        self.tools.wf()
    }

    /// An executor with no tools.
    pub fn new() -> (r: Self)
        ensures
            r.wf(),
            r@ == Map::<Seq<char>, T>::empty(),
    {
        ParallelExecutor { tools: Registry::new() }
    }

    /// Registers `tool` under `name`; returns the tool it replaces, if any.
    pub fn add(&mut self, name: String, tool: T) -> (r: Option<T>)
        requires
            old(self).wf(),
        ensures
            final(self).wf(),
            final(self)@ == old(self)@.insert(name@, tool),
            r is Some == old(self)@.contains_key(name@),
            r is Some ==> r->Some_0 == old(self)@[name@],
    {
        self.tools.add(name, tool)
    }

    /// The tool registered under `name`, if any.
    pub fn get(&self, name: &str) -> (r: Option<&T>)
        requires
            self.wf(),
        ensures
            r is Some == self@.contains_key(name@),
            r is Some ==> *r->Some_0 == self@[name@],
    {
        self.tools.get(name)
    }

    /// Plans one turn's calls: one unit per tool name, in order of first
    /// appearance, holding that tool's calls in their order. A registered
    /// tool gets its calls to run; an unknown one gets, for each of its calls,
    /// the result `Tool '<name>' not found`, made at `now`.
    pub fn plan(&self, calls: &Vec<ToolCall>, now: u64) -> (r: Vec<Dispatch>)
        requires
            self.wf(),
        ensures
            r@.len() == distinct_names(calls@).len(),
            forall|g: int| 0 <= g < r@.len() ==> {
                let n = distinct_names(calls@)[g];
                &&& (#[trigger] r@[g]).name() == n
                &&& r@[g] is Run <==> self@.contains_key(n)
                &&& r@[g] is Run ==> r@[g]->Run_calls@ == with_name(calls@, n)
                &&& r@[g] is NotFound ==> {
                    let rs = r@[g]->NotFound_results@;
                    &&& rs.len() == with_name(calls@, n).len()
                    &&& forall|i: int| 0 <= i < rs.len()
                        ==> is_not_found_result(#[trigger] rs[i], with_name(calls@, n)[i], now)
                }
            },
    {
        let names = tool_names(calls);
        let ghost ns = names@.map_values(|s: String| s@);
        let mut plan: Vec<Dispatch> = Vec::new();
        let mut g: usize = 0;
        while g < names.len()
            invariant
                g <= names@.len(),
                ns == distinct_names(calls@),
                ns == names@.map_values(|s: String| s@),
                self.wf(),
                plan@.len() == g,
                forall|h: int| 0 <= h < g ==> {
                    let n = distinct_names(calls@)[h];
                    &&& (#[trigger] plan@[h]).name() == n
                    &&& plan@[h] is Run <==> self@.contains_key(n)
                    &&& plan@[h] is Run ==> plan@[h]->Run_calls@ == with_name(calls@, n)
                    &&& plan@[h] is NotFound ==> {
                        let rs = plan@[h]->NotFound_results@;
                        &&& rs.len() == with_name(calls@, n).len()
                        &&& forall|i: int| 0 <= i < rs.len()
                            ==> is_not_found_result(#[trigger] rs[i], with_name(calls@, n)[i], now)
                    }
                },
            decreases names@.len() - g,
        {
            let name = names[g].clone();
            assert(name@ == ns[g as int]);
            let group = calls_named(calls, name.as_str());
            if self.tools.contains(name.as_str()) {
                plan.push(Dispatch::Run { name, calls: group });
            } else {
                let results = not_found_results(&group, now);
                plan.push(Dispatch::NotFound { name, results });
            }
            g += 1;
        }
        plan
    }

    /// The results of one turn's calls. `outputs[g]` holds what the tool of
    /// the `g`-th unit of `plan(calls, now)` produced for its calls, in their
    /// order (nothing for a unit of an unknown tool); a missing output gets
    /// the "no result" result. Every call is answered exactly once: the
    /// results' ids are, counted with multiplicity, the calls' ids, and a call
    /// to an unknown tool is answered `Tool '<name>' not found`. The results
    /// come unit by unit, each unit's calls in their order.
    pub fn gather(&self, calls: &Vec<ToolCall>, outputs: Vec<Vec<ToolOutput>>, now: u64) -> (r: Vec<ToolResult>)
        requires
            self.wf(),
        ensures
            r@.len() == unit_start(calls@, distinct_names(calls@), distinct_names(calls@).len()),
            forall|g: int, i: int| 0 <= g < distinct_names(calls@).len()
                && 0 <= i < with_name(calls@, distinct_names(calls@)[g]).len()
                ==> #[trigger] unit_answered(r@, calls@, outputs@, self@.dom(), now, g, i),
            result_ids(r@).to_multiset() == call_ids(calls@).to_multiset(),
            forall|j: int| 0 <= j < r@.len() ==> answers_some(#[trigger] r@[j], calls@, self@.dom(), now),
    {
        let mut plan = self.plan(calls, now);
        let ghost p0 = plan@;
        let ghost names = distinct_names(calls@);
        let ghost reg = self@.dom();
        let ghost o0 = outputs@;
        let mut outputs = outputs;
        let mut results: Vec<ToolResult> = Vec::new();
        let n = plan.len();
        let mut g: usize = 0;
        proof {
            lemma_grouping_partition(calls@);
            assert(result_ids(results@) =~= Seq::<Seq<char>>::empty());
            assert(names.subrange(0, 0) =~= Seq::<Seq<char>>::empty());
        }
        while g < n
            invariant
                n == p0.len(),
                names == distinct_names(calls@),
                n == names.len(),
                g <= n,
                plan@ == p0.subrange(g as int, n as int),
                reg == self@.dom(),
                forall|h: int| 0 <= h < p0.len() ==> {
                    let m = names[h];
                    &&& (#[trigger] p0[h]).name() == m
                    &&& p0[h] is Run <==> self@.contains_key(m)
                    &&& p0[h] is Run ==> p0[h]->Run_calls@ == with_name(calls@, m)
                    &&& p0[h] is NotFound ==> {
                        let rs = p0[h]->NotFound_results@;
                        &&& rs.len() == with_name(calls@, m).len()
                        &&& forall|i: int| 0 <= i < rs.len()
                            ==> is_not_found_result(#[trigger] rs[i], with_name(calls@, m)[i], now)
                    }
                },
                result_ids(results@).to_multiset() == grouped_ids(calls@, names.subrange(0, g as int)),
                forall|j: int| 0 <= j < results@.len() ==> answers_some(#[trigger] results@[j], calls@, reg, now),
                outputs@ == if g < o0.len() { o0.subrange(g as int, o0.len() as int) } else { Seq::empty() },
                results@.len() == unit_start(calls@, names, g as nat),
                forall|h: int, i: int| 0 <= h < g && 0 <= i < with_name(calls@, names[h]).len()
                    ==> #[trigger] unit_answered(results@, calls@, o0, reg, now, h, i),
            decreases n - g,
        {
            let unit = plan.remove(0);
            assert(unit == p0[g as int]);
            let out = if outputs.len() > 0 { outputs.remove(0) } else { Vec::new() };
            assert(out@ == unit_outputs(o0, g as int));
            assert(outputs@ =~= if g + 1 < o0.len() { o0.subrange(g as int + 1, o0.len() as int) } else { Seq::empty() });
            let ghost m = names[g as int];
            let ghost group = with_name(calls@, m);
            proof { lemma_with_name_members(calls@, m); }
            let mut answers = match unit {
                Dispatch::Run { name: _, calls: cs } => {
                    let a = answer_calls(&cs, out, now);
                    proof {
                        assert(reg.contains(m));
                        assert forall|k: int| 0 <= k < a@.len() implies answers_some(#[trigger] a@[k], calls@, reg, now) by {
                            let i = choose|i: int| 0 <= i < calls@.len() && calls@[i] == group[k];
                            assert(is_answer(a@[k], cs@[k], out@, k, now));
                        }
                        assert forall|k: int| 0 <= k < a@.len() implies
                            is_answer(#[trigger] a@[k], group[k], unit_outputs(o0, g as int), k, now) by {
                            assert(is_answer(a@[k], cs@[k], out@, k, now));
                        }
                    }
                    a
                },
                Dispatch::NotFound { name: _, results: rs } => {
                    proof {
                        assert forall|k: int| 0 <= k < rs@.len() implies answers_some(#[trigger] rs@[k], calls@, reg, now) by {
                            let i = choose|i: int| 0 <= i < calls@.len() && calls@[i] == group[k];
                            assert(is_not_found_result(rs@[k], group[k], now));
                        }
                        assert(!reg.contains(m));
                    }
                    rs
                },
            };
            assert(result_ids(answers@) =~= call_ids(group));
            let ghost ans = answers@;
            let ghost before = results@;
            results.append(&mut answers);
            proof {
                assert(result_ids(results@) =~= result_ids(before) + call_ids(group));
                assert(names.subrange(0, g as int + 1).drop_last() =~= names.subrange(0, g as int));
                assert(names.subrange(0, g as int + 1).last() == m);
                vstd::seq_lib::lemma_multiset_commutative(result_ids(before), call_ids(group));
                assert((result_ids(before) + call_ids(group)).to_multiset()
                    =~= result_ids(before).to_multiset().add(call_ids(group).to_multiset()));
                assert(grouped_ids(calls@, names.subrange(0, g as int + 1))
                    == grouped_ids(calls@, names.subrange(0, g as int)).add(call_ids(group).to_multiset()));
                assert forall|j: int| 0 <= j < results@.len() implies answers_some(#[trigger] results@[j], calls@, reg, now) by {
                    if j < before.len() {
                        assert(results@[j] == before[j]);
                    } else {
                        assert(results@[j] == ans[j - before.len()]);
                    }
                }
                assert forall|h: int, i: int| 0 <= h < g + 1 && 0 <= i < with_name(calls@, names[h]).len()
                    implies #[trigger] unit_answered(results@, calls@, o0, reg, now, h, i) by {
                    let k = unit_start(calls@, names, h as nat) + i;
                    if h < g {
                        assert(unit_answered(before, calls@, o0, reg, now, h, i));
                        lemma_unit_start_mono(calls@, names, (h + 1) as nat, g as nat);
                        assert(unit_start(calls@, names, (h + 1) as nat)
                            == unit_start(calls@, names, h as nat) + with_name(calls@, names[h]).len());
                        assert(k < before.len());
                        assert(results@[k] == before[k]);

                    } else {
                        assert(h == g);
                        assert(k == before.len() + i);
                        assert(results@[k] == ans[i]);
                        if reg.contains(m) {
                            assert(is_answer(ans[i], group[i], unit_outputs(o0, g as int), i, now));
                        } else {
                            assert(is_not_found_result(ans[i], group[i], now));
                        }
                    }
                }
            }
            g += 1;
        }
        assert(names.subrange(0, n as int) =~= names);
        results
    }
}

proof fn lemma_unit_start_mono(calls: Seq<ToolCall>, names: Seq<Seq<char>>, a: nat, b: nat)
    requires
        a <= b,
    ensures
        unit_start(calls, names, a) <= unit_start(calls, names, b),
    decreases b - a,
{
    if a < b {
        lemma_unit_start_mono(calls, names, a, (b - 1) as nat);
    }
}

proof fn lemma_with_name_members(cs: Seq<ToolCall>, n: Seq<char>)
    ensures
        forall|k: int| 0 <= k < with_name(cs, n).len() ==> (#[trigger] with_name(cs, n)[k]).function.name@ == n
            && exists|i: int| 0 <= i < cs.len() && cs[i] == with_name(cs, n)[k],
    decreases cs.len(),
{
    if cs.len() > 0 {
        let before = cs.drop_last();
        lemma_with_name_members(before, n);
        assert forall|k: int| 0 <= k < with_name(cs, n).len() implies (#[trigger] with_name(cs, n)[k]).function.name@ == n
            && exists|i: int| 0 <= i < cs.len() && cs[i] == with_name(cs, n)[k] by {
            if k < with_name(before, n).len() {
                let i = choose|i: int| 0 <= i < before.len() && before[i] == with_name(before, n)[k];
                assert(cs[i] == before[i]);
            } else {
                assert(cs[cs.len() - 1] == with_name(cs, n)[k]);
            }
        }
    }
}

/// One unit of work of the sequential strategy.
#[derive(Debug)]
pub enum SequentialStep {
    /// Run this call on the tool registered under its name.
    Call(ToolCall),
    /// No tool is registered under the call's name: this is its result.
    NotFound(ToolResult),
}

/// Executes tools one at a time, in the order the calls were received.
pub struct SequentialExecutor<T> {
    tools: Registry<T>,
}

impl<T> View for SequentialExecutor<T> {
    type V = Map<Seq<char>, T>;

    closed spec fn view(&self) -> Map<Seq<char>, T> {
        self.tools@
    }
}

impl<T> SequentialExecutor<T> {
    /// The registry is well formed.
    pub closed spec fn wf(&self) -> bool {
        self.tools.wf()
    }

    /// An executor with no tools.
    pub fn new() -> (r: Self)
        ensures
            r.wf(),
            r@ == Map::<Seq<char>, T>::empty(),
    {
        SequentialExecutor { tools: Registry::new() }
    }

    /// Registers `tool` under `name`; returns the tool it replaces, if any.
    pub fn add(&mut self, name: String, tool: T) -> (r: Option<T>)
        requires
            old(self).wf(),
        ensures
            final(self).wf(),
            final(self)@ == old(self)@.insert(name@, tool),
            r is Some == old(self)@.contains_key(name@),
            r is Some ==> r->Some_0 == old(self)@[name@],
    {
        self.tools.add(name, tool)
    }

    /// The tool registered under `name`, if any.
    pub fn get(&self, name: &str) -> (r: Option<&T>)
        requires
            self.wf(),
        ensures
            r is Some == self@.contains_key(name@),
            r is Some ==> *r->Some_0 == self@[name@],
    {
        self.tools.get(name)
    }

    /// Plans one turn's calls, one step per call in the order received: a
    /// call to a registered tool is to be run; a call to an unknown one gets
    /// the result `Tool '<name>' not found`, made at `now`.
    pub fn plan(&self, calls: &Vec<ToolCall>, now: u64) -> (r: Vec<SequentialStep>)
        requires
            self.wf(),
        ensures
            r@.len() == calls@.len(),
            forall|i: int| 0 <= i < calls@.len() ==> {
                let c = calls@[i];
                &&& ((#[trigger] r@[i]) is Call <==> self@.contains_key(c.function.name@))
                &&& r@[i] is Call ==> r@[i]->Call_0 == c
                &&& r@[i] is NotFound ==> is_not_found_result(r@[i]->NotFound_0, c, now)
            },
    {
        let mut steps: Vec<SequentialStep> = Vec::new();
        let mut i: usize = 0;
        while i < calls.len()
            invariant
                i <= calls@.len(),
                self.wf(),
                steps@.len() == i,
                forall|j: int| 0 <= j < i ==> {
                    let c = calls@[j];
                    &&& ((#[trigger] steps@[j]) is Call <==> self@.contains_key(c.function.name@))
                    &&& steps@[j] is Call ==> steps@[j]->Call_0 == c
                    &&& steps@[j] is NotFound ==> is_not_found_result(steps@[j]->NotFound_0, c, now)
                },
            decreases calls@.len() - i,
        {
            let c = &calls[i];
            if self.tools.contains(c.function.name.as_str()) {
                steps.push(SequentialStep::Call(copy_tool_call(c)));
            } else {
                steps.push(SequentialStep::NotFound(not_found_for(c, now)));
            }
            i += 1;
        }
        steps
    }

    /// The results of one turn's calls, in their order. `outputs[i]` holds
    /// what the tool produced for the `i`-th call when it was run (nothing
    /// for a call to an unknown tool); a call to a registered tool without
    /// output gets the "no result" result. Every call is answered once, in
    /// place, and a call to an unknown tool is answered `Tool '<name>' not
    /// found`.
    pub fn gather(&self, calls: &Vec<ToolCall>, outputs: Vec<Option<ToolOutput>>, now: u64) -> (r: Vec<ToolResult>)
        requires
            self.wf(),
        ensures
            r@.len() == calls@.len(),
            result_ids(r@) == call_ids(calls@),
            forall|i: int| 0 <= i < calls@.len() ==> {
                let c = calls@[i];
                &&& !self@.contains_key(c.function.name@) ==> is_not_found_result(#[trigger] r@[i], c, now)
                &&& self@.contains_key(c.function.name@) && i < outputs@.len() && outputs@[i] is Some ==> {
                    let o = outputs@[i]->Some_0;
                    r@[i].tool_message.content == o.content && r@[i].timestamp == o.timestamp
                        && r@[i].elapsed == o.elapsed
                }
                &&& self@.contains_key(c.function.name@) && !(i < outputs@.len() && outputs@[i] is Some) ==> {
                    r@[i].tool_message.content@ == no_output_text(c.function.name@) && r@[i].timestamp == now
                        && r@[i].elapsed == 0
                }
            },
    {
        let mut steps = self.plan(calls, now);
        let ghost s0 = steps@;
        let mut results: Vec<ToolResult> = Vec::new();
        let n = calls.len();
        let mut i: usize = 0;
        while i < n
            invariant
                n == calls@.len(),
                s0.len() == n,
                i <= n,
                steps@ == s0.subrange(i as int, n as int),
                results@.len() == i,
                forall|k: int| 0 <= k < n ==> {
                    let c = calls@[k];
                    &&& ((#[trigger] s0[k]) is Call <==> self@.contains_key(c.function.name@))
                    &&& s0[k] is Call ==> s0[k]->Call_0 == c
                    &&& s0[k] is NotFound ==> is_not_found_result(s0[k]->NotFound_0, c, now)
                },
                forall|k: int| 0 <= k < i ==> {
                    let c = calls@[k];
                    &&& (#[trigger] results@[k]).tool_message.tool_call_id@ == c.id@
                    &&& !self@.contains_key(c.function.name@) ==> is_not_found_result(results@[k], c, now)
                    &&& self@.contains_key(c.function.name@) && k < outputs@.len() && outputs@[k] is Some ==> {
                        let o = outputs@[k]->Some_0;
                        results@[k].tool_message.content == o.content && results@[k].timestamp == o.timestamp
                            && results@[k].elapsed == o.elapsed
                    }
                    &&& self@.contains_key(c.function.name@) && !(k < outputs@.len() && outputs@[k] is Some) ==> {
                        results@[k].tool_message.content@ == no_output_text(c.function.name@)
                            && results@[k].timestamp == now && results@[k].elapsed == 0
                    }
                },
            decreases n - i,
        {
            let step = steps.remove(0);
            assert(step == s0[i as int]);
            let r = match step {
                SequentialStep::Call(c) => {
                    let given = if i < outputs.len() {
                        match &outputs[i] {
                            Some(o) => Some(ToolResult {
                                tool_message: ToolMessage { content: o.content.clone(), tool_call_id: c.id.clone() },
                                timestamp: o.timestamp,
                                elapsed: o.elapsed,
                            }),
                            None => None,
                        }
                    } else {
                        None
                    };
                    match given {
                        Some(r) => r,
                        None => {
                            let mut content = "Tool '".to_owned();
                            push_str(&mut content, c.function.name.as_str());
                            push_str(&mut content, "' returned no result");
                            ToolResult {
                                tool_message: ToolMessage { content, tool_call_id: c.id },
                                timestamp: now,
                                elapsed: 0,
                            }
                        },
                    }
                },
                SequentialStep::NotFound(r) => r,
            };
            results.push(r);
            i += 1;
        }
        assert(result_ids(results@) =~= call_ids(calls@));
        results
    }
}

proof fn lemma_distinct_names(cs: Seq<ToolCall>)
    ensures
        distinct_names(cs).no_duplicates(),
        forall|m: Seq<char>| !distinct_names(cs).contains(m) ==> with_name(cs, m) == Seq::<ToolCall>::empty(),
        forall|i: int| 0 <= i < cs.len() ==> distinct_names(cs).contains(#[trigger] cs[i].function.name@),
    decreases cs.len(),
{
    if cs.len() > 0 {
        let before = cs.drop_last();
        lemma_distinct_names(before);
        let d = distinct_names(cs);
        let n = cs.last().function.name@;
        if !distinct_names(before).contains(n) {
            assert(d[d.len() - 1] == n);
        }
        assert(d.contains(n));
        assert forall|m: Seq<char>| distinct_names(before).contains(m) implies d.contains(m) by {
            if !distinct_names(before).contains(n) {
                let k = choose|k: int| 0 <= k < distinct_names(before).len() && distinct_names(before)[k] == m;
                assert(d[k] == m);
            }
        }
        assert forall|m: Seq<char>| !d.contains(m) implies with_name(cs, m) == Seq::<ToolCall>::empty() by {
            assert(!distinct_names(before).contains(m));
            assert(with_name(before, m) == Seq::<ToolCall>::empty());
            assert(m != n);
            assert(with_name(cs, m) == with_name(before, m));
        }
        assert forall|i: int| 0 <= i < cs.len() implies d.contains(#[trigger] cs[i].function.name@) by {
            if i < before.len() {
                assert(before[i] == cs[i]);
            }
        }
    }
}

proof fn lemma_with_name_push(cs: Seq<ToolCall>, c: ToolCall, m: Seq<char>)
    ensures
        with_name(cs.push(c), m) == if c.function.name@ == m { with_name(cs, m).push(c) } else { with_name(cs, m) },
{
    assert(cs.push(c).drop_last() =~= cs);
}

proof fn lemma_grouped_ids_push(cs: Seq<ToolCall>, c: ToolCall, ns: Seq<Seq<char>>)
    requires
        ns.no_duplicates(),
    ensures
        grouped_ids(cs.push(c), ns) == if ns.contains(c.function.name@) {
            grouped_ids(cs, ns).insert(c.id@)
        } else {
            grouped_ids(cs, ns)
        },
    decreases ns.len(),
{
    if ns.len() > 0 {
        let rest = ns.drop_last();
        let m = ns.last();
        assert(rest.no_duplicates()) by {
            assert forall|i: int, j: int| 0 <= i < rest.len() && 0 <= j < rest.len() && i != j implies rest[i] != rest[j] by {
                assert(ns[i] != ns[j]);
            }
        }
        lemma_grouped_ids_push(cs, c, rest);
        lemma_with_name_push(cs, c, m);
        let n = c.function.name@;
        if n == m {
            assert(call_ids(with_name(cs, m).push(c)) =~= call_ids(with_name(cs, m)).push(c.id@));
            assert(!rest.contains(n)) by {
                if rest.contains(n) {
                    let k = choose|k: int| 0 <= k < rest.len() && rest[k] == n;
                    assert(ns[k] == ns[ns.len() - 1]);
                }
            }
            assert(grouped_ids(cs.push(c), ns) =~= grouped_ids(cs, ns).insert(c.id@));
        } else {
            assert(rest.contains(n) == ns.contains(n)) by {
                if ns.contains(n) {
                    let k = choose|k: int| 0 <= k < ns.len() && ns[k] == n;
                    assert(rest[k] == n);
                }
            }
            if ns.contains(n) {
                assert(grouped_ids(cs.push(c), ns) =~= grouped_ids(cs, ns).insert(c.id@));
            } else {
                assert(grouped_ids(cs.push(c), ns) =~= grouped_ids(cs, ns));
            }
        }
    }
}

proof fn lemma_grouped_ids_absent(cs: Seq<ToolCall>, ns: Seq<Seq<char>>, m: Seq<char>, c: ToolCall)
    requires
        !ns.contains(m),
        c.function.name@ == m,
    ensures
        grouped_ids(cs.push(c), ns) == grouped_ids(cs, ns),
    decreases ns.len(),
{
    if ns.len() > 0 {
        assert(!ns.drop_last().contains(m)) by {
            if ns.drop_last().contains(m) {
                let k = choose|k: int| 0 <= k < ns.drop_last().len() && ns.drop_last()[k] == m;
                assert(ns[k] == m);
            }
        }
        lemma_grouped_ids_absent(cs, ns.drop_last(), m, c);
        lemma_with_name_push(cs, c, ns.last());
    }
}

/// Grouping by tool name loses and repeats no call: every name appears in
/// one group only, and the ids across all groups are, counted with
/// multiplicity, exactly the ids of the calls. With one result per call in
/// each group, a turn of `N` calls gets exactly `N` results, each id once.
pub proof fn lemma_grouping_partition(cs: Seq<ToolCall>)
    ensures
        distinct_names(cs).no_duplicates(),
        grouped_ids(cs, distinct_names(cs)) == call_ids(cs).to_multiset(),
    decreases cs.len(),
{
    lemma_distinct_names(cs);
    if cs.len() == 0 {
        assert(call_ids(cs) =~= Seq::<Seq<char>>::empty());
        assert(grouped_ids(cs, distinct_names(cs)) =~= Multiset::<Seq<char>>::empty());
    } else {
        let before = cs.drop_last();
        let c = cs.last();
        let n = c.function.name@;
        lemma_grouping_partition(before);
        lemma_distinct_names(before);
        let d = distinct_names(before);
        assert(before.push(c) =~= cs);
        assert(call_ids(cs) =~= call_ids(before).push(c.id@));
        lemma_grouped_ids_push(before, c, d);
        if d.contains(n) {
            assert(grouped_ids(cs, distinct_names(cs)) =~= call_ids(cs).to_multiset());
        } else {
            assert(with_name(before, n) == Seq::<ToolCall>::empty());
            lemma_with_name_push(before, c, n);
            assert(call_ids(with_name(cs, n)) =~= seq![c.id@]);
            assert(seq![c.id@] =~= Seq::<Seq<char>>::empty().push(c.id@));
            assert(distinct_names(cs).drop_last() =~= d);
            assert(grouped_ids(cs, distinct_names(cs)) =~= call_ids(cs).to_multiset());
        }
    }
}

/// A call to an unknown tool is answered exactly once, and the answer is
/// `Tool '<name>' not found`, whatever the other calls of the turn: this
/// holds of any results that answer every call once, each answer being the
/// "not found" result for a call to an unknown tool, which is what both
/// strategies' `gather` return.
pub proof fn lemma_unknown_tool_answer(
    results: Seq<ToolResult>,
    calls: Seq<ToolCall>,
    registered: Set<Seq<char>>,
    now: u64,
    i: int,
)
    requires
        call_ids(calls).no_duplicates(),
        0 <= i < calls.len(),
        !registered.contains(calls[i].function.name@),
        result_ids(results).to_multiset() == call_ids(calls).to_multiset(),
        forall|j: int| 0 <= j < results.len() ==> answers_some(#[trigger] results[j], calls, registered, now),
    ensures
        result_ids(results).to_multiset().count(calls[i].id@) == 1,
        forall|j: int| 0 <= j < results.len() && (#[trigger] results[j]).tool_message.tool_call_id@ == calls[i].id@
            ==> is_not_found_result(results[j], calls[i], now),
{
    broadcast use vstd::seq_lib::group_to_multiset_ensures;

    let ids = call_ids(calls);
    assert(ids[i] == calls[i].id@);
    assert(ids.contains(calls[i].id@));
    ids.lemma_multiset_has_no_duplicates();
    assert forall|j: int| 0 <= j < results.len() && (#[trigger] results[j]).tool_message.tool_call_id@ == calls[i].id@
        implies is_not_found_result(results[j], calls[i], now) by {
        assert(answers_some(results[j], calls, registered, now));
        let k = choose|k: int| 0 <= k < calls.len() && results[j].tool_message.tool_call_id@ == calls[k].id@
            && (!registered.contains(calls[k].function.name@) ==> is_not_found_result(results[j], calls[k], now));
        assert(ids[k] == ids[i]);
    }
}

} // verus!
