//! The interpreter's state machine: which node runs next, the variables and the call stack
//! of sub-diagrams, the log, and the histories of the numbers the program produced.
//!
//! Evaluating expressions is the interpreter's own arithmetic; what it decides around a
//! node is here: a step begins with `begin_step`, the node's work is done by the caller with
//! the helpers of `node_exec`, and the step ends with `advance` (or with `finish_stop`,
//! `await_input` or `call_subdiagram` for the nodes that leave by another way).
use vstd::prelude::*;

use super::evaluator::{is_quoted, is_quoted_chars, Value};
use super::node_exec::{aliased, assign_aliased};
use super::table::{key_is, lemma_lookup_viewed, lemma_put_viewed, lookup, put, viewed, Table};
use crate::model::connector::BranchCondition;
use crate::model::connector::ConnectorView;
use crate::model::diagram::{empty_diagram, Diagram, DiagramView};
use crate::model::node::{Node, NodeType, NodeView};
use crate::order::{insert_sorted, strictly_sorted};
use crate::search::{first_index, lemma_first_index_at, lemma_first_index_facts, lemma_first_index_none};
use crate::text::{
    cat, chars_eq, chars_of, eq_ignore_case, eq_ignore_case_chars, is_float_literal,
    is_float_literal_chars, owned, slice_of, split, split_chars, string_of, texts, trim, trim_chars,
    views,
};

verus! {

broadcast use vstd::seq_lib::group_seq_properties;

/// The most log lines kept; the oldest line leaves when a new one comes.
pub const MAX_LOGS: usize = 1000;

/// Where the interpreter stands.
#[derive(Debug, PartialEq, Eq)]
pub enum ExecutionState {
    Idle,
    Running,
    Paused,
    /// An input node asks for a value: the question, the variable the answer goes to, and
    /// the node that runs after it.
    WaitingForInput { prompt: String, target_var: String, next_node_id: String },
    Finished,
    Error(String),
}

/// Whether a run in `state` takes one more step now in the editor's frame loop: only
/// while it is running; with no delay, up to 500 steps within the first 16 milliseconds of
/// a frame; with a delay, one step per frame once `delay_ms` milliseconds have passed since
/// the last step.
pub open spec fn auto_step_due(state: StateView, delay_ms: u64, steps_this_frame: nat, elapsed_ms: nat) -> bool {
    &&& state == StateView::Running
    &&& if delay_ms == 0 {
        steps_this_frame < 500 && elapsed_ms < 16
    } else {
        steps_this_frame == 0 && elapsed_ms >= delay_ms
    }
}

/// The content of an `ExecutionState`.
pub enum StateView {
    Idle,
    Running,
    Paused,
    WaitingForInput { prompt: Seq<char>, target_var: Seq<char>, next_node_id: Seq<char> },
    Finished,
    Error(Seq<char>),
}

impl View for ExecutionState {
    type V = StateView;

    open spec fn view(&self) -> StateView {
        match self {
            ExecutionState::Idle => StateView::Idle,
            ExecutionState::Running => StateView::Running,
            ExecutionState::Paused => StateView::Paused,
            ExecutionState::WaitingForInput { prompt, target_var, next_node_id } =>
                StateView::WaitingForInput {
                prompt: prompt@,
                target_var: target_var@,
                next_node_id: next_node_id@,
            },
            ExecutionState::Finished => StateView::Finished,
            ExecutionState::Error(m) => StateView::Error(m@),
        }
    }
}

impl Clone for ExecutionState {
    fn clone(&self) -> (r: Self)
        ensures
            r == *self,
    {
        match self {
            ExecutionState::Idle => ExecutionState::Idle,
            ExecutionState::Running => ExecutionState::Running,
            ExecutionState::Paused => ExecutionState::Paused,
            ExecutionState::WaitingForInput { prompt, target_var, next_node_id } =>
                ExecutionState::WaitingForInput {
                prompt: prompt.clone(),
                target_var: target_var.clone(),
                next_node_id: next_node_id.clone(),
            },
            ExecutionState::Finished => ExecutionState::Finished,
            ExecutionState::Error(m) => ExecutionState::Error(m.clone()),
        }
    }
}

/// What a sub-diagram call keeps of its caller, to go back to it when the sub-diagram stops.
pub struct StackFrame<N> {
    pub function_name: String,
    pub return_node_id: String,
    pub parent_variables: Table<Value<N>>,
    pub return_target_var: String,
    pub parent_diagram: Diagram,
    pub parent_node_map: Table<Node>,
}

/// The content of a stack frame.
pub struct FrameView<N> {
    pub function_name: Seq<char>,
    pub return_node_id: Seq<char>,
    pub parent_variables: Seq<(Seq<char>, Value<N>)>,
    pub return_target_var: Seq<char>,
    pub parent_diagram: DiagramView,
    pub parent_node_map: Seq<(Seq<char>, NodeView)>,
}

impl<N> View for StackFrame<N> {
    type V = FrameView<N>;

    open spec fn view(&self) -> FrameView<N> {
        FrameView {
            function_name: self.function_name@,
            return_node_id: self.return_node_id@,
            parent_variables: self.parent_variables@,
            return_target_var: self.return_target_var@,
            parent_diagram: self.parent_diagram@,
            parent_node_map: viewed(self.parent_node_map@),
        }
    }
}

/// The samples `(step, value)` of each named series, series in the order they were begun.
pub open spec fn record_sample<N>(
    h: Seq<(Seq<char>, Seq<(usize, N)>)>,
    k: Seq<char>,
    s: (usize, N),
) -> Seq<(Seq<char>, Seq<(usize, N)>)> {
    let i = first_index(h, key_is::<Seq<(usize, N)>>(k));
    if 0 <= i < h.len() {
        h.update(i, (k, h[i].1.push(s)))
    } else {
        h.push((k, seq![s]))
    }
}

/// Series of numbered samples, one series per name.
pub struct History<N> {
    series: Vec<(String, Vec<(usize, N)>)>,
}

impl<N> View for History<N> {
    type V = Seq<(Seq<char>, Seq<(usize, N)>)>;

    closed spec fn view(&self) -> Seq<(Seq<char>, Seq<(usize, N)>)> {
        self.series@.map_values(|e: (String, Vec<(usize, N)>)| (e.0@, e.1@))
    }
}

impl<N: Copy> History<N> {
    pub fn new() -> (r: History<N>)
        ensures
            r@ == Seq::<(Seq<char>, Seq<(usize, N)>)>::empty(),
    {
        let r = History { series: Vec::new() };
        assert(r@ =~= Seq::<(Seq<char>, Seq<(usize, N)>)>::empty());
        r
    }

    pub fn len(&self) -> (r: usize)
        ensures
            r == self@.len(),
    {
        self.series.len()
    }

    pub fn clear(&mut self)
        ensures
            final(self)@ == Seq::<(Seq<char>, Seq<(usize, N)>)>::empty(),
    {
        self.series.clear();
        assert(self@ =~= Seq::<(Seq<char>, Seq<(usize, N)>)>::empty());
    }

    /// The name of the `i`-th series.
    pub fn name_at(&self, i: usize) -> (r: &String)
        requires
            i < self@.len(),
        ensures
            r@ == self@[i as int].0,
    {
        &self.series[i].0
    }

    /// The samples of the `i`-th series.
    pub fn samples_at(&self, i: usize) -> (r: &Vec<(usize, N)>)
        requires
            i < self@.len(),
        ensures
            r@ == self@[i as int].1,
    {
        &self.series[i].1
    }

    fn position(&self, key: &Vec<char>) -> (r: Option<usize>)
        ensures
            match r {
                Some(i) => i < self@.len() && i as int == first_index(
                    self@,
                    key_is::<Seq<(usize, N)>>(key@),
                ),
                None => first_index(self@, key_is::<Seq<(usize, N)>>(key@)) == -1,
            },
    {
        let mut i: usize = 0;
        while i < self.series.len()
            invariant
                i <= self.series.len(),
                self@.len() == self.series.len(),
                forall|j: int| 0 <= j < i ==> !key_is::<Seq<(usize, N)>>(key@)(#[trigger] self@[j]),
            decreases self.series.len() - i,
        {
            if chars_eq(&chars_of(self.series[i].0.as_str()), key) {
                proof {
                    lemma_first_index_at(self@, key_is::<Seq<(usize, N)>>(key@), i as int);
                }
                return Some(i);
            }
            i = i + 1;
        }
        proof {
            lemma_first_index_none(self@, key_is::<Seq<(usize, N)>>(key@));
        }
        None
    }

    /// The samples of the series named `name`.
    pub fn get(&self, name: &str) -> (r: Option<&Vec<(usize, N)>>)
        ensures
            match r {
                Some(v) => lookup(self@, name@) == Some(v@),
                None => lookup(self@, name@) is None,
            },
    {
        match self.position(&chars_of(name)) {
            Some(i) => Some(&self.series[i].1),
            None => None,
        }
    }

    /// The names of the series, each once, in sorted order.
    pub fn sorted_names(&self) -> (r: Vec<String>)
        ensures
            strictly_sorted(texts(r@)),
            forall|v: Seq<char>|
                texts(r@).contains(v) <==> exists|i: int| 0 <= i < self@.len() && #[trigger] self@[i].0 == v,
    {
        let mut out: Vec<String> = Vec::new();
        assert(texts(out@) =~= Seq::<Seq<char>>::empty());
        let mut i: usize = 0;
        while i < self.series.len()
            invariant
                i <= self.series.len(),
                self@.len() == self.series.len(),
                strictly_sorted(texts(out@)),
                forall|v: Seq<char>|
                    texts(out@).contains(v) <==> exists|j: int| 0 <= j < i && #[trigger] self@[j].0 == v,
            decreases self.series.len() - i,
        {
            let name = chars_of(self.series[i].0.as_str());
            assert(name@ == self@[i as int].0);
            let ghost before = texts(out@);
            insert_sorted(&mut out, &name);
            assert forall|v: Seq<char>|
                texts(out@).contains(v) <==> exists|j: int| 0 <= j < i + 1 && #[trigger] self@[j].0 == v by {
                if exists|j: int| 0 <= j < i + 1 && #[trigger] self@[j].0 == v {
                    let j = choose|j: int| 0 <= j < i + 1 && #[trigger] self@[j].0 == v;
                    if j < i {
                        assert(before.contains(v));
                    }
                }
            }
            i = i + 1;
        }
        out
    }

    /// Appends the sample `(step, value)` to the series named `name`, begun if it is new.
    pub fn record(&mut self, name: &str, step: usize, value: N)
        ensures
            final(self)@ == record_sample(old(self)@, name@, (step, value)),
    {
        let k = chars_of(name);
        match self.position(&k) {
            Some(i) => {
                proof {
                    lemma_first_index_facts(self@, key_is::<Seq<(usize, N)>>(k@));
                }
                let ghost before = self.series@;
                let (key, mut samples) = self.series.remove(i);
                assert(key@ == k@ && samples@ == old(self)@[i as int].1) by {
                    assert(before[i as int].0@ == old(self)@[i as int].0);
                }
                samples.push((step, value));
                self.series.insert(i, (key, samples));
                assert(self@ =~= record_sample(old(self)@, name@, (step, value)));
            },
            None => {
                let mut samples: Vec<(usize, N)> = Vec::new();
                samples.push((step, value));
                self.series.push((owned(name), samples));
                assert(self@ =~= record_sample(old(self)@, name@, (step, value)));
            },
        }
    }
}

/// The log after the line `m` is added: the oldest line leaves first when the log is full.
pub open spec fn after_log(logs: Seq<Seq<char>>, m: Seq<char>) -> Seq<Seq<char>> {
    if logs.len() >= MAX_LOGS {
        logs.drop_first().push(m)
    } else {
        logs.push(m)
    }
}

/// The whole state of an interpreter.
pub struct RunnerView<N> {
    pub state: StateView,
    pub current_node_id: Option<Seq<char>>,
    pub active_diagram: DiagramView,
    pub node_map: Seq<(Seq<char>, NodeView)>,
    pub diagram_stack: Seq<FrameView<N>>,
    pub variables: Seq<(Seq<char>, Value<N>)>,
    pub logs: Seq<Seq<char>>,
    pub output_history: Seq<(usize, N)>,
    pub variable_history: Seq<(Seq<char>, Seq<(usize, N)>)>,
    pub delay_ms: u64,
    pub step_count: nat,
    pub step_mode: bool,
    pub input_text: Seq<char>,
}

/// An interpreter of flowchart diagrams, computing with numbers of type `N`.
pub struct Runner<N> {
    pub state: ExecutionState,
    pub current_node_id: Option<String>,
    pub active_diagram: Diagram,
    pub node_map: Table<Node>,
    pub diagram_stack: Vec<StackFrame<N>>,
    pub variables: Table<Value<N>>,
    pub logs: Vec<String>,
    pub output_history: Vec<(usize, N)>,
    pub variable_history: History<N>,
    pub delay_ms: u64,
    pub step_count: usize,
    pub step_mode: bool,
    pub input_text: String,
}

/// The text of an optional identifier.
pub open spec fn opt_text(o: Option<String>) -> Option<Seq<char>> {
    match o {
        Some(s) => Some(s@),
        None => None,
    }
}

impl<N> View for Runner<N> {
    type V = RunnerView<N>;

    open spec fn view(&self) -> RunnerView<N> {
        RunnerView {
            state: self.state@,
            current_node_id: opt_text(self.current_node_id),
            active_diagram: self.active_diagram@,
            node_map: viewed(self.node_map@),
            diagram_stack: self.diagram_stack@.map_values(|f: StackFrame<N>| f@),
            variables: self.variables@,
            logs: texts(self.logs@),
            output_history: self.output_history@,
            variable_history: self.variable_history@,
            delay_ms: self.delay_ms,
            step_count: self.step_count as nat,
            step_mode: self.step_mode,
            input_text: self.input_text@,
        }
    }
}

/// `r` with the line `m` added to its log.
pub open spec fn logged<N>(r: RunnerView<N>, m: Seq<char>) -> RunnerView<N> {
    RunnerView { logs: after_log(r.logs, m), ..r }
}

/// A fresh interpreter: idle, with nothing loaded, recorded or logged.
pub open spec fn cleared<N>(delay_ms: u64) -> RunnerView<N> {
    RunnerView {
        state: StateView::Idle,
        current_node_id: None,
        active_diagram: empty_diagram(),
        node_map: Seq::empty(),
        diagram_stack: Seq::empty(),
        variables: Seq::empty(),
        logs: Seq::empty(),
        output_history: Seq::empty(),
        variable_history: Seq::empty(),
        delay_ms,
        step_count: 0,
        step_mode: false,
        input_text: Seq::empty(),
    }
}

/// What stopping does: idle, no current node, out of step mode, and a line logged.
pub open spec fn stopped<N>(r: RunnerView<N>) -> RunnerView<N> {
    logged(
        RunnerView { state: StateView::Idle, current_node_id: None, step_mode: false, ..r },
        "[Durduruldu] Çalışma kullanıcı tarafından durduruldu."@,
    )
}

/// What pausing does: a running interpreter pauses and logs it; any other is left alone.
pub open spec fn paused<N>(r: RunnerView<N>) -> RunnerView<N> {
    if r.state is Running {
        logged(RunnerView { state: StateView::Paused, ..r }, "[Duraklatıldı] Çalışma duraklatıldı."@)
    } else {
        r
    }
}

/// What resuming does: a paused interpreter leaves step mode, runs again and logs it; any
/// other is left alone.
pub open spec fn resumed<N>(r: RunnerView<N>) -> RunnerView<N> {
    if r.state is Paused {
        logged(
            RunnerView { state: StateView::Running, step_mode: false, ..r },
            "[Devam Ediyor] Çalışma devam ettirildi."@,
        )
    } else {
        r
    }
}

/// The node table of a diagram with nodes `ns`: each node under its identifier, a later
/// node with the same identifier taking the place of an earlier one.
pub open spec fn node_table(ns: Seq<NodeView>) -> Seq<(Seq<char>, NodeView)>
    decreases ns.len(),
{
    if ns.len() == 0 {
        Seq::empty()
    } else {
        put(node_table(ns.drop_last()), ns.last().id, ns.last())
    }
}

/// Whether a node is a start node.
pub open spec fn is_start() -> spec_fn(NodeView) -> bool {
    |n: NodeView| n.node_type == NodeType::Start
}

/// The variables after each trimmed, non-empty name among `names` is set to `zero`.
pub open spec fn declared<N>(vars: Seq<(Seq<char>, Value<N>)>, names: Seq<Seq<char>>, zero: N) -> Seq<
    (Seq<char>, Value<N>),
>
    decreases names.len(),
{
    if names.len() == 0 {
        vars
    } else {
        let before = declared(vars, names.drop_last(), zero);
        let clean = trim(names.last());
        if clean.len() > 0 {
            put(before, clean, Value::Number(zero))
        } else {
            before
        }
    }
}

/// What starting the diagram `d` does: a fresh interpreter with `d` loaded. With a start
/// node, it runs from the first one, with the comma-separated names of that node's first
/// expression set to `zero`; without one, it stands in error.
pub open spec fn started<N>(r: RunnerView<N>, d: DiagramView, zero: N) -> RunnerView<N> {
    let base = RunnerView { active_diagram: d, node_map: node_table(d.nodes), ..cleared::<N>(r.delay_ms) };
    let i = first_index(d.nodes, is_start());
    if 0 <= i < d.nodes.len() {
        let s = d.nodes[i];
        RunnerView {
            state: StateView::Running,
            current_node_id: Some(s.id),
            variables: if s.expr1.len() > 0 {
                declared(Seq::empty(), split(s.expr1, ','), zero)
            } else {
                Seq::empty()
            },
            logs: seq!["[Başlatıldı] Düğüm "@ + s.id + " üzerinde çalışmaya başlandı"@],
            ..base
        }
    } else {
        RunnerView {
            state: StateView::Error("No START node found in diagram!"@),
            logs: seq!["[Hata] BAŞLA düğümü bulunamadı"@],
            ..base
        }
    }
}

/// The position of the first start node of `d`.
fn start_index(d: &Diagram) -> (r: Option<usize>)
    ensures
        match r {
            Some(i) => i < d@.nodes.len() && i as int == first_index(d@.nodes, is_start()),
            None => first_index(d@.nodes, is_start()) == -1,
        },
{
    let mut i: usize = 0;
    while i < d.nodes.len()
        invariant
            i <= d.nodes.len(),
            d@.nodes.len() == d.nodes.len(),
            forall|j: int| 0 <= j < i ==> !is_start()(#[trigger] d@.nodes[j]),
        decreases d.nodes.len() - i,
    {
        if matches!(d.nodes[i].node_type, NodeType::Start) {
            proof {
                lemma_first_index_at(d@.nodes, is_start(), i as int);
            }
            return Some(i);
        }
        i = i + 1;
    }
    proof {
        lemma_first_index_none(d@.nodes, is_start());
    }
    None
}

/// Sets each trimmed, non-empty name among `names` to `zero`.
fn declare_all<N: Copy>(vars: &mut Table<Value<N>>, names: &Vec<Vec<char>>, zero: N)
    ensures
        final(vars)@ == declared(old(vars)@, views(names@), zero),
{
    let mut i: usize = 0;
    while i < names.len()
        invariant
            i <= names.len(),
            vars@ == declared(old(vars)@, views(names@).take(i as int), zero),
        decreases names.len() - i,
    {
        let clean = trim_chars(&names[i]);
        proof {
            assert(views(names@).take(i + 1).drop_last() =~= views(names@).take(i as int));
        }
        if clean.len() > 0 {
            let name = string_of(&clean);
            vars.insert(name.as_str(), Value::Number(zero));
        }
        i = i + 1;
    }
    assert(views(names@).take(names.len() as int) =~= views(names@));
}

/// The identifier of the current node, or empty text when there is none.
pub open spec fn current_or_empty(c: Option<Seq<char>>) -> Seq<char> {
    match c {
        Some(s) => s,
        None => Seq::empty(),
    }
}

/// Whether a connector leaves the node `from`.
pub open spec fn leaves(from: Seq<char>) -> spec_fn(ConnectorView) -> bool {
    |c: ConnectorView| c.from_id == from
}

/// Whether a connector leaves the node `from` on the branch `cond`.
pub open spec fn leaves_on(from: Seq<char>, cond: BranchCondition) -> spec_fn(ConnectorView) -> bool {
    |c: ConnectorView| c.from_id == from && c.condition == cond
}

/// What beginning a step does, and the node it hands out to run. An idle interpreter with
/// no current node starts `root` instead; a finished, failed or waiting one does nothing;
/// so does one without a current node. A current node missing from the node table is an
/// error; otherwise the step is counted and that node is handed out.
pub open spec fn step_begun<N>(r: RunnerView<N>, root: DiagramView, zero: N) -> (RunnerView<N>, Option<NodeView>) {
    if r.state is Idle && r.current_node_id is None {
        (started(r, root, zero), None)
    } else if r.state is Finished || r.state is Error || r.state is WaitingForInput {
        (r, None)
    } else {
        match r.current_node_id {
            None => (r, None),
            Some(id) => match lookup(r.node_map, id) {
                None => (RunnerView { state: StateView::Error("Node "@ + id + " not found"@), ..r }, None),
                Some(n) => (RunnerView { step_count: r.step_count + 1, ..r }, Some(n)),
            },
        }
    }
}

/// Whether beginning a step in `r` runs a node, and so counts a step: the interpreter is
/// running or paused at a current node that the node table holds.
pub open spec fn counts_step<N>(r: RunnerView<N>) -> bool {
    &&& !(r.state is Idle && r.current_node_id is None)
    &&& !(r.state is Finished || r.state is Error || r.state is WaitingForInput)
    &&& r.current_node_id matches Some(id) && lookup(r.node_map, id) is Some
}

/// The value a sub-diagram returns: its variable `RETURN`, else `b`, else `s`, else nil.
pub open spec fn returned_value<N>(vars: Seq<(Seq<char>, Value<N>)>) -> Value<N> {
    match lookup(vars, "RETURN"@) {
        Some(v) => v,
        None => match lookup(vars, "b"@) {
            Some(v) => v,
            None => match lookup(vars, "s"@) {
                Some(v) => v,
                None => Value::Nil,
            },
        },
    }
}

/// What a stop node does. Inside a sub-diagram call, the caller's diagram, node table and
/// variables come back, the returned value goes to the call's result variable when it has
/// one, the run goes on at the call's return node, and the return is logged with `shown`,
/// the returned value's text. Otherwise the run is finished.
pub open spec fn stop_reached<N>(r: RunnerView<N>, shown: Seq<char>) -> RunnerView<N> {
    if r.diagram_stack.len() > 0 {
        let f = r.diagram_stack.last();
        let v = returned_value(r.variables);
        logged(
            RunnerView {
                diagram_stack: r.diagram_stack.drop_last(),
                active_diagram: f.parent_diagram,
                node_map: f.parent_node_map,
                variables: if f.return_target_var.len() > 0 {
                    put(f.parent_variables, f.return_target_var, v)
                } else {
                    f.parent_variables
                },
                current_node_id: Some(f.return_node_id),
                ..r
            },
            "[Geri Dönüldü] Fonksiyon `"@ + f.function_name + "` -> `"@ + f.return_target_var
                + "` = "@ + shown,
        )
    } else {
        logged(
            RunnerView { state: StateView::Finished, current_node_id: None, ..r },
            "[Tamamlandı] Diyagram çalışması başarıyla tamamlandı."@,
        )
    }
}

/// What an input node `n` does: it waits for a value, asking its first expression (or
/// "Enter value for" and its second expression), for the variable its second expression
/// names (or `input_var`), going on at the target of the first connector that leaves the
/// current node. Without such a connector the run is finished.
pub open spec fn input_awaited<N>(r: RunnerView<N>, n: NodeView) -> RunnerView<N> {
    let cs = r.active_diagram.connectors;
    let i = first_index(cs, leaves(current_or_empty(r.current_node_id)));
    if 0 <= i < cs.len() {
        RunnerView {
            state: StateView::WaitingForInput {
                prompt: if n.expr1.len() == 0 {
                    "Enter value for "@ + n.expr2
                } else {
                    n.expr1
                },
                target_var: if n.expr2.len() == 0 {
                    "input_var"@
                } else {
                    n.expr2
                },
                next_node_id: cs[i].to_id,
            },
            ..r
        }
    } else {
        RunnerView { state: StateView::Finished, ..r }
    }
}

/// What calling the sub-diagram `sub` from the function node `n` with the argument `arg`
/// does, and whether the call entered it. The caller's variables, diagram and node table
/// are kept in a new frame, with the function's name, the result variable and the node to
/// return to (the target of the first connector leaving the current node, else the current
/// node). `sub` becomes the active diagram, with `PARAM` and the argument's name holding
/// `arg`. With a start node, the run goes on there and the call is logged with `shown`, the
/// argument's text; without one the call is not entered.
pub open spec fn sub_called<N>(
    r: RunnerView<N>,
    sub: DiagramView,
    n: NodeView,
    arg: Value<N>,
    shown: Seq<char>,
) -> (RunnerView<N>, bool) {
    let curr = current_or_empty(r.current_node_id);
    let cs = r.active_diagram.connectors;
    let i = first_index(cs, leaves(curr));
    let frame = FrameView {
        function_name: n.expr1,
        return_node_id: if 0 <= i < cs.len() {
            cs[i].to_id
        } else {
            curr
        },
        parent_variables: r.variables,
        return_target_var: n.target_var,
        parent_diagram: r.active_diagram,
        parent_node_map: r.node_map,
    };
    let base = RunnerView {
        diagram_stack: r.diagram_stack.push(frame),
        active_diagram: sub,
        node_map: node_table(sub.nodes),
        variables: put(put(Seq::empty(), "PARAM"@, arg), n.expr2, arg),
        ..r
    };
    let j = first_index(sub.nodes, is_start());
    if 0 <= j < sub.nodes.len() {
        (
            logged(
                RunnerView { current_node_id: Some(sub.nodes[j].id), ..base },
                "[ÇAĞRI] Alt-diyagram `"@ + n.expr1 + "` arg: "@ + shown,
            ),
            true,
        )
    } else {
        (base, false)
    }
}

/// The node a step goes to from `from`: for a condition node, the target of the first
/// connector leaving it on the chosen branch; otherwise, or when there is none, the target
/// of the first connector leaving it.
pub open spec fn next_target(
    cs: Seq<ConnectorView>,
    from: Seq<char>,
    condition: bool,
    chosen: BranchCondition,
) -> Option<Seq<char>> {
    let m = first_index(cs, leaves_on(from, chosen));
    let f = first_index(cs, leaves(from));
    if condition && 0 <= m < cs.len() {
        Some(cs[m].to_id)
    } else if 0 <= f < cs.len() {
        Some(cs[f].to_id)
    } else {
        None
    }
}

/// The histories after the sample `(step, x)` is recorded for each variable holding a
/// number `x`, in the order of the variables.
pub open spec fn numbers_recorded<N>(
    h: Seq<(Seq<char>, Seq<(usize, N)>)>,
    vars: Seq<(Seq<char>, Value<N>)>,
    step: usize,
) -> Seq<(Seq<char>, Seq<(usize, N)>)>
    decreases vars.len(),
{
    if vars.len() == 0 {
        h
    } else {
        let before = numbers_recorded(h, vars.drop_last(), step);
        match vars.last().1 {
            Value::Number(x) => record_sample(before, vars.last().0, (step, x)),
            _ => before,
        }
    }
}

/// How a step ends after a node of kind `t` that chose the branch `chosen`: the numbers
/// held by variables are recorded under this step, and the run goes on at the next node,
/// or is finished when there is none.
pub open spec fn advanced<N>(r: RunnerView<N>, t: NodeType, chosen: BranchCondition) -> RunnerView<N> {
    let h = numbers_recorded(r.variable_history, r.variables, r.step_count as usize);
    match next_target(
        r.active_diagram.connectors,
        current_or_empty(r.current_node_id),
        t.is_condition_kind(),
        chosen,
    ) {
        Some(id) => RunnerView { current_node_id: Some(id), variable_history: h, ..r },
        None => logged(
            RunnerView { state: StateView::Finished, current_node_id: None, variable_history: h, ..r },
            "[Tamamlandı] Dal sonuna ulaşıldı."@,
        ),
    }
}

/// What a single step asks of its caller.
pub enum SinglePlan {
    /// Nothing more.
    Nothing,
    /// Run one step, then `end_single_step`.
    Step,
    /// Run the first step of a run just started; when the run then stands at an input
    /// node (`stands_at_input`), run that node too, so that the step ends waiting for its
    /// value; then `end_single_step`.
    StepFromStart,
    /// Submit the input text to the variable `target_var`, going on at `next_node_id`.
    Submit { target_var: String, next_node_id: String },
}

/// The content of a `SinglePlan`.
pub enum PlanView {
    Nothing,
    Step,
    StepFromStart,
    Submit { target_var: Seq<char>, next_node_id: Seq<char> },
}

impl View for SinglePlan {
    type V = PlanView;

    open spec fn view(&self) -> PlanView {
        match self {
            SinglePlan::Nothing => PlanView::Nothing,
            SinglePlan::Step => PlanView::Step,
            SinglePlan::StepFromStart => PlanView::StepFromStart,
            SinglePlan::Submit { target_var, next_node_id } => PlanView::Submit {
                target_var: target_var@,
                next_node_id: next_node_id@,
            },
        }
    }
}

/// Whether the interpreter is running at a current node that the node table holds as an
/// input node.
pub open spec fn at_input<N>(r: RunnerView<N>) -> bool {
    &&& r.state is Running
    &&& r.current_node_id matches Some(id) && lookup(r.node_map, id) matches Some(n)
        && n.node_type == NodeType::Input
}

/// How a single step begins, in step mode. An idle or finished interpreter starts `root`
/// and, if that left it running, takes its first step (going on into an input node it
/// reaches); a waiting one submits its input text; a paused one runs again and steps; any
/// other steps.
pub open spec fn single_planned<N>(r: RunnerView<N>, root: DiagramView, zero: N) -> (RunnerView<N>, PlanView) {
    let r0 = RunnerView { step_mode: true, ..r };
    if r.state is Idle || r.state is Finished {
        let r1 = RunnerView { step_mode: true, ..started(r0, root, zero) };
        (
            r1,
            if r1.state is Running {
                PlanView::StepFromStart
            } else {
                PlanView::Nothing
            },
        )
    } else {
        match r.state {
            StateView::WaitingForInput { prompt, target_var, next_node_id } => (
                r0,
                PlanView::Submit { target_var, next_node_id },
            ),
            StateView::Paused => (RunnerView { state: StateView::Running, ..r0 }, PlanView::Step),
            _ => (r0, PlanView::Step),
        }
    }
}

/// How a single step ends: a running interpreter pauses.
pub open spec fn settled<N>(r: RunnerView<N>) -> RunnerView<N> {
    if r.state is Running {
        RunnerView { state: StateView::Paused, ..r }
    } else {
        r
    }
}

/// What submitting the value `v` for the variable `target` does: `v` is stored under the
/// name and its aliases, the input is logged with `shown`, the value's text, and the run
/// goes on at `next`, paused in step mode, with the input text emptied.
pub open spec fn submitted<N>(
    r: RunnerView<N>,
    v: Value<N>,
    shown: Seq<char>,
    target: Seq<char>,
    next: Seq<char>,
) -> RunnerView<N> {
    let r1 = logged(
        RunnerView { variables: aliased(r.variables, target, v), ..r },
        "[Giriş] `"@ + target + "` = "@ + shown,
    );
    RunnerView {
        current_node_id: Some(next),
        state: if r.step_mode {
            StateView::Paused
        } else {
            StateView::Running
        },
        input_text: Seq::empty(),
        ..r1
    }
}

/// How typed input reads.
pub enum InputForm {
    Number(Seq<char>),
    Text(Seq<char>),
    Bool(bool),
}

/// How the typed text `s` reads once trimmed: empty text; the text between matching
/// quotes; a number literal; `true` or `false` in any ASCII case; otherwise the text.
pub open spec fn user_input_form(s: Seq<char>) -> InputForm {
    let t = trim(s);
    if t.len() == 0 {
        InputForm::Text(Seq::empty())
    } else if is_quoted(t) {
        InputForm::Text(t.subrange(1, t.len() - 1))
    } else if is_float_literal(t) {
        InputForm::Number(t)
    } else if eq_ignore_case(t, "true"@) {
        InputForm::Bool(true)
    } else if eq_ignore_case(t, "false"@) {
        InputForm::Bool(false)
    } else {
        InputForm::Text(t)
    }
}

/// The position of the first connector of `d` leaving `from`.
fn first_leaving(d: &Diagram, from: &Vec<char>) -> (r: Option<usize>)
    ensures
        match r {
            Some(i) => i < d@.connectors.len() && i as int == first_index(d@.connectors, leaves(from@)),
            None => first_index(d@.connectors, leaves(from@)) == -1,
        },
{
    let mut i: usize = 0;
    while i < d.connectors.len()
        invariant
            i <= d.connectors.len(),
            d@.connectors.len() == d.connectors.len(),
            forall|j: int| 0 <= j < i ==> !leaves(from@)(#[trigger] d@.connectors[j]),
        decreases d.connectors.len() - i,
    {
        if chars_eq(&chars_of(d.connectors[i].from_id.as_str()), from) {
            proof {
                lemma_first_index_at(d@.connectors, leaves(from@), i as int);
            }
            return Some(i);
        }
        i = i + 1;
    }
    proof {
        lemma_first_index_none(d@.connectors, leaves(from@));
    }
    None
}

/// The position of the first connector of `d` leaving `from` on the branch `cond`.
fn first_leaving_on(d: &Diagram, from: &Vec<char>, cond: BranchCondition) -> (r: Option<usize>)
    ensures
        match r {
            Some(i) => i < d@.connectors.len() && i as int == first_index(
                d@.connectors,
                leaves_on(from@, cond),
            ),
            None => first_index(d@.connectors, leaves_on(from@, cond)) == -1,
        },
{
    let mut i: usize = 0;
    while i < d.connectors.len()
        invariant
            i <= d.connectors.len(),
            d@.connectors.len() == d.connectors.len(),
            forall|j: int| 0 <= j < i ==> !leaves_on(from@, cond)(#[trigger] d@.connectors[j]),
        decreases d.connectors.len() - i,
    {
        if chars_eq(&chars_of(d.connectors[i].from_id.as_str()), from) && d.connectors[i].condition
            == cond {
            proof {
                lemma_first_index_at(d@.connectors, leaves_on(from@, cond), i as int);
            }
            return Some(i);
        }
        i = i + 1;
    }
    proof {
        lemma_first_index_none(d@.connectors, leaves_on(from@, cond));
    }
    None
}

impl<N: Copy> Default for Runner<N> {
    fn default() -> (r: Runner<N>)
        ensures
            r@ == cleared::<N>(10),
    {
        Runner::new()
    }
}

impl<N: Copy> Runner<N> {
    /// A fresh interpreter, with a delay of 10 ms between steps.
    pub fn new() -> (r: Runner<N>)
        ensures
            r@ == cleared::<N>(10),
    {
        let r = Runner {
            state: ExecutionState::Idle,
            current_node_id: None,
            active_diagram: Diagram::default(),
            node_map: Table::new(),
            diagram_stack: Vec::new(),
            variables: Table::new(),
            logs: Vec::new(),
            output_history: Vec::new(),
            variable_history: History::new(),
            delay_ms: 10,
            step_count: 0,
            step_mode: false,
            input_text: String::new(),
        };
        assert(viewed(r.node_map@) =~= Seq::empty());
        assert(r.diagram_stack@.map_values(|f: StackFrame<N>| f@) =~= Seq::empty());
        assert(texts(r.logs@) =~= Seq::empty());
        r
    }

    /// Adds a line to the log, dropping the oldest line first when `MAX_LOGS` are kept.
    pub fn push_log(&mut self, msg: String)
        ensures
            final(self)@ == logged(old(self)@, msg@),
            old(self)@.logs.len() <= MAX_LOGS ==> final(self)@.logs.len() <= MAX_LOGS,
    {
        if self.logs.len() >= MAX_LOGS {
            self.logs.remove(0);
        }
        self.logs.push(msg);
        assert(texts(self.logs@) =~= after_log(texts(old(self).logs@), msg@));
    }

    /// Back to a fresh interpreter; only the delay between steps is kept.
    pub fn reset(&mut self)
        ensures
            final(self)@ == cleared::<N>(old(self).delay_ms),
    {
        self.state = ExecutionState::Idle;
        self.current_node_id = None;
        self.active_diagram = Diagram::default();
        self.node_map.clear();
        self.diagram_stack.clear();
        self.variables.clear();
        self.logs.clear();
        self.output_history.clear();
        self.variable_history.clear();
        self.step_count = 0;
        self.step_mode = false;
        self.input_text = String::new();
        assert(viewed(self.node_map@) =~= Seq::empty());
        assert(self.diagram_stack@.map_values(|f: StackFrame<N>| f@) =~= Seq::empty());
        assert(texts(self.logs@) =~= Seq::empty());
    }

    /// Rebuilds the node table from the nodes of the active diagram.
    pub fn rebuild_node_map(&mut self)
        ensures
            final(self)@ == (RunnerView { node_map: node_table(old(self)@.active_diagram.nodes), ..old(self)@ }),
    {
        self.node_map.clear();
        let mut i: usize = 0;
        while i < self.active_diagram.nodes.len()
            invariant
                i <= self.active_diagram.nodes.len(),
                self.active_diagram == old(self).active_diagram,
                self@ == (RunnerView { node_map: self@.node_map, ..old(self)@ }),
                viewed(self.node_map@) == node_table(self.active_diagram@.nodes.take(i as int)),
            decreases self.active_diagram.nodes.len() - i,
        {
            let node = self.active_diagram.nodes[i].clone();
            proof {
                lemma_put_viewed(self.node_map@, node.id@, node);
                assert(self.active_diagram@.nodes.take(i + 1).drop_last() =~= self.active_diagram@.nodes.take(
                    i as int,
                ));
            }
            let id = node.id.clone();
            self.node_map.insert(id.as_str(), node);
            i = i + 1;
        }
        assert(self.active_diagram@.nodes.take(i as int) =~= self.active_diagram@.nodes);
    }

    /// Starts the diagram `diagram` afresh, as `started` describes; declared names start at
    /// `zero`.
    pub fn start(&mut self, diagram: &Diagram, zero: N)
        ensures
            final(self)@ == started(old(self)@, diagram@, zero),
    {
        self.reset();
        self.active_diagram = diagram.clone();
        self.rebuild_node_map();
        self.step_mode = false;
        match start_index(&self.active_diagram) {
            Some(i) => {
                let id = self.active_diagram.nodes[i].id.clone();
                self.current_node_id = Some(id.clone());
                self.state = ExecutionState::Running;
                let e1 = chars_of(self.active_diagram.nodes[i].expr1.as_str());
                if e1.len() > 0 {
                    let names = split_chars(&e1, ',');
                    declare_all(&mut self.variables, &names, zero);
                }
                self.push_log(cat(cat("[Başlatıldı] Düğüm ", id.as_str()).as_str(), " üzerinde çalışmaya başlandı"));
            },
            None => {
                self.state = ExecutionState::Error(owned("No START node found in diagram!"));
                self.push_log(owned("[Hata] BAŞLA düğümü bulunamadı"));
            },
        }
    }

    /// Stops the run: idle, with no current node, out of step mode.
    pub fn stop(&mut self)
        ensures
            final(self)@ == stopped(old(self)@),
    {
        self.state = ExecutionState::Idle;
        self.current_node_id = None;
        self.step_mode = false;
        self.push_log(owned("[Durduruldu] Çalışma kullanıcı tarafından durduruldu."));
    }

    /// Pauses a running interpreter.
    pub fn pause(&mut self)
        ensures
            final(self)@ == paused(old(self)@),
    {
        if matches!(self.state, ExecutionState::Running) {
            self.state = ExecutionState::Paused;
            self.push_log(owned("[Duraklatıldı] Çalışma duraklatıldı."));
        }
    }

    /// Resumes a paused interpreter, leaving step mode.
    pub fn resume(&mut self)
        ensures
            final(self)@ == resumed(old(self)@),
    {
        if matches!(self.state, ExecutionState::Paused) {
            self.step_mode = false;
            self.state = ExecutionState::Running;
            self.push_log(owned("[Devam Ediyor] Çalışma devam ettirildi."));
        }
    }

    /// Whether the editor's frame loop runs one more step now, as `auto_step_due` describes,
    /// with `steps_this_frame` steps already run in this frame and `elapsed_ms` the
    /// milliseconds since the frame's first step (without delay) or since the last step
    /// (with a delay).
    pub fn auto_step_due(&self, steps_this_frame: usize, elapsed_ms: u64) -> (r: bool)
        ensures
            r == auto_step_due(self@.state, self.delay_ms, steps_this_frame as nat, elapsed_ms as nat),
    {
        if !matches!(self.state, ExecutionState::Running) {
            false
        } else if self.delay_ms == 0 {
            steps_this_frame < 500 && elapsed_ms < 16
        } else {
            steps_this_frame == 0 && elapsed_ms >= self.delay_ms
        }
    }

    /// The identifier of the current node, or empty text when there is none.
    fn current_id(&self) -> (r: String)
        ensures
            r@ == current_or_empty(self@.current_node_id),
    {
        match &self.current_node_id {
            Some(id) => id.clone(),
            None => String::new(),
        }
    }

    /// Whether beginning a step now runs a node and counts it, as `counts_step` describes.
    pub fn counts_a_step(&self) -> (r: bool)
        ensures
            r == counts_step(self@),
    {
        match &self.state {
            ExecutionState::Finished => {
                return false;
            },
            ExecutionState::Error(_) => {
                return false;
            },
            ExecutionState::WaitingForInput { .. } => {
                return false;
            },
            _ => {},
        }
        match &self.current_node_id {
            Some(id) => {
                proof {
                    lemma_lookup_viewed(self.node_map@, id@);
                }
                self.node_map.get(id.as_str()).is_some()
            },
            None => false,
        }
    }

    /// Begins a step, as `step_begun` describes, handing out the node to run.
    pub fn begin_step(&mut self, root: &Diagram, zero: N) -> (r: Option<Node>)
        requires
            old(self).step_count < usize::MAX || !counts_step(old(self)@),
        ensures
            final(self)@ == step_begun(old(self)@, root@, zero).0,
            match r {
                Some(n) => step_begun(old(self)@, root@, zero).1 == Some(n@),
                None => step_begun(old(self)@, root@, zero).1 is None,
            },
    {
        let idle_at_rest = match (&self.state, &self.current_node_id) {
            (ExecutionState::Idle, None) => true,
            _ => false,
        };
        if idle_at_rest {
            self.start(root, zero);
            return None;
        }
        match &self.state {
            ExecutionState::Finished => {
                return None;
            },
            ExecutionState::Error(_) => {
                return None;
            },
            ExecutionState::WaitingForInput { .. } => {
                return None;
            },
            _ => {},
        }
        let curr = match &self.current_node_id {
            Some(id) => id.clone(),
            None => {
                return None;
            },
        };
        proof {
            lemma_lookup_viewed(self.node_map@, curr@);
        }
        let found = match self.node_map.get(curr.as_str()) {
            Some(n) => Some(n.clone()),
            None => None,
        };
        match found {
            Some(node) => {
                self.step_count = self.step_count + 1;
                Some(node)
            },
            None => {
                self.state = ExecutionState::Error(cat(cat("Node ", curr.as_str()).as_str(), " not found"));
                None
            },
        }
    }

    /// The value the running sub-diagram returns, as `returned_value` describes.
    pub fn return_value(&self) -> (r: Value<N>)
        ensures
            r == returned_value(self@.variables),
    {
        match self.variables.get("RETURN") {
            Some(v) => {
                return v.clone();
            },
            None => {},
        }
        match self.variables.get("b") {
            Some(v) => {
                return v.clone();
            },
            None => {},
        }
        match self.variables.get("s") {
            Some(v) => v.clone(),
            None => Value::Nil,
        }
    }

    /// Runs a stop node, as `stop_reached` describes; `shown` is the text of
    /// `return_value()`.
    pub fn finish_stop(&mut self, shown: &str)
        ensures
            final(self)@ == stop_reached(old(self)@, shown@),
    {
        let v = self.return_value();
        match self.diagram_stack.pop() {
            Some(frame) => {
                assert(self.diagram_stack@.map_values(|f: StackFrame<N>| f@) =~= old(
                    self,
                )@.diagram_stack.drop_last());
                let StackFrame {
                    function_name,
                    return_node_id,
                    parent_variables,
                    return_target_var,
                    parent_diagram,
                    parent_node_map,
                } = frame;
                self.active_diagram = parent_diagram;
                self.node_map = parent_node_map;
                self.variables = parent_variables;
                if chars_of(return_target_var.as_str()).len() > 0 {
                    self.variables.insert(return_target_var.as_str(), v);
                }
                let msg = cat(
                    cat(
                        cat(
                            cat(cat("[Geri Dönüldü] Fonksiyon `", function_name.as_str()).as_str(), "` -> `").as_str(),
                            return_target_var.as_str(),
                        ).as_str(),
                        "` = ",
                    ).as_str(),
                    shown,
                );
                self.push_log(msg);
                self.current_node_id = Some(return_node_id);
            },
            None => {
                self.state = ExecutionState::Finished;
                self.push_log(owned("[Tamamlandı] Diyagram çalışması başarıyla tamamlandı."));
                self.current_node_id = None;
            },
        }
    }

    /// Runs an input node `node`, as `input_awaited` describes.
    pub fn await_input(&mut self, node: &Node)
        ensures
            final(self)@ == input_awaited(old(self)@, node@),
    {
        let curr = chars_of(self.current_id().as_str());
        let prompt = if chars_of(node.expr1.as_str()).len() == 0 {
            cat("Enter value for ", node.expr2.as_str())
        } else {
            node.expr1.clone()
        };
        let target_var = if chars_of(node.expr2.as_str()).len() == 0 {
            owned("input_var")
        } else {
            node.expr2.clone()
        };
        match first_leaving(&self.active_diagram, &curr) {
            Some(i) => {
                let next_node_id = self.active_diagram.connectors[i].to_id.clone();
                self.state = ExecutionState::WaitingForInput { prompt, target_var, next_node_id };
            },
            None => {
                self.state = ExecutionState::Finished;
            },
        }
    }

    /// Calls the sub-diagram `sub` from the function node `node` with the argument `arg`,
    /// as `sub_called` describes; `shown` is the text of `arg`. Returns whether the call
    /// entered `sub`; when it did not, the step goes on with `advance`.
    pub fn call_subdiagram(&mut self, sub: Diagram, node: &Node, arg: Value<N>, shown: &str) -> (r: bool)
        ensures
            (final(self)@, r) == sub_called(old(self)@, sub@, node@, arg, shown@),
    {
        let curr = self.current_id();
        let return_node_id = match first_leaving(&self.active_diagram, &chars_of(curr.as_str())) {
            Some(i) => self.active_diagram.connectors[i].to_id.clone(),
            None => curr,
        };
        let mut parent_variables: Table<Value<N>> = Table::new();
        std::mem::swap(&mut parent_variables, &mut self.variables);
        let mut parent_diagram = sub;
        std::mem::swap(&mut parent_diagram, &mut self.active_diagram);
        let mut parent_node_map: Table<Node> = Table::new();
        std::mem::swap(&mut parent_node_map, &mut self.node_map);
        let frame = StackFrame {
            function_name: node.expr1.clone(),
            return_node_id,
            parent_variables,
            return_target_var: node.target_var.clone(),
            parent_diagram,
            parent_node_map,
        };
        let ghost before = self.diagram_stack@;
        self.diagram_stack.push(frame);
        assert(self.diagram_stack@.map_values(|f: StackFrame<N>| f@) =~= before.map_values(
            |f: StackFrame<N>| f@,
        ).push(frame@));
        self.rebuild_node_map();
        self.variables.insert("PARAM", arg.clone());
        self.variables.insert(node.expr2.as_str(), arg);
        match start_index(&self.active_diagram) {
            Some(j) => {
                self.current_node_id = Some(self.active_diagram.nodes[j].id.clone());
                let msg = cat(
                    cat(cat("[ÇAĞRI] Alt-diyagram `", node.expr1.as_str()).as_str(), "` arg: ").as_str(),
                    shown,
                );
                self.push_log(msg);
                true
            },
            None => false,
        }
    }

    /// Records, under the current step, the number held by each variable that holds one.
    fn record_numbers(&mut self)
        ensures
            final(self)@ == (RunnerView {
                variable_history: numbers_recorded(
                    old(self)@.variable_history,
                    old(self)@.variables,
                    old(self).step_count,
                ),
                ..old(self)@
            }),
    {
        let mut i: usize = 0;
        while i < self.variables.len()
            invariant
                i <= self@.variables.len(),
                self.variables == old(self).variables,
                self.step_count == old(self).step_count,
                self@ == (RunnerView { variable_history: self@.variable_history, ..old(self)@ }),
                self@.variable_history == numbers_recorded(
                    old(self)@.variable_history,
                    self@.variables.take(i as int),
                    self.step_count,
                ),
            decreases self@.variables.len() - i,
        {
            proof {
                assert(self@.variables.take(i + 1).drop_last() =~= self@.variables.take(i as int));
            }
            match self.variables.value_at(i) {
                Value::Number(x) => {
                    let x: N = *x;
                    let name = self.variables.key_at(i).clone();
                    self.variable_history.record(name.as_str(), self.step_count, x);
                },
                _ => {},
            }
            i = i + 1;
        }
        assert(self@.variables.take(i as int) =~= self@.variables);
    }

    /// Ends a step after a node of kind `node_type` that chose the branch `chosen`, as
    /// `advanced` describes.
    pub fn advance(&mut self, node_type: NodeType, chosen: BranchCondition)
        ensures
            final(self)@ == advanced(old(self)@, node_type, chosen),
    {
        let curr = chars_of(self.current_id().as_str());
        let next = if node_type.is_condition() {
            match first_leaving_on(&self.active_diagram, &curr, chosen) {
                Some(m) => Some(m),
                None => first_leaving(&self.active_diagram, &curr),
            }
        } else {
            first_leaving(&self.active_diagram, &curr)
        };
        self.record_numbers();
        match next {
            Some(i) => {
                self.current_node_id = Some(self.active_diagram.connectors[i].to_id.clone());
            },
            None => {
                self.state = ExecutionState::Finished;
                self.current_node_id = None;
                self.push_log(owned("[Tamamlandı] Dal sonuna ulaşıldı."));
            },
        }
    }

    /// Records `value` as an output of the current step.
    pub fn record_output(&mut self, value: N)
        ensures
            final(self)@ == (RunnerView {
                output_history: old(self)@.output_history.push((old(self).step_count, value)),
                ..old(self)@
            }),
    {
        self.output_history.push((self.step_count, value));
    }

    /// Begins a single step, as `single_planned` describes, and says what the caller does
    /// next.
    pub fn begin_single_step(&mut self, root: &Diagram, zero: N) -> (r: SinglePlan)
        ensures
            (final(self)@, r@) == single_planned(old(self)@, root@, zero),
    {
        self.step_mode = true;
        let fresh = match &self.state {
            ExecutionState::Idle => true,
            ExecutionState::Finished => true,
            _ => false,
        };
        if fresh {
            self.start(root, zero);
            self.step_mode = true;
            return match &self.state {
                ExecutionState::Running => SinglePlan::StepFromStart,
                _ => SinglePlan::Nothing,
            };
        }
        let plan = match &self.state {
            ExecutionState::WaitingForInput { prompt: _, target_var, next_node_id } => SinglePlan::Submit {
                target_var: target_var.clone(),
                next_node_id: next_node_id.clone(),
            },
            _ => SinglePlan::Step,
        };
        if matches!(self.state, ExecutionState::Paused) {
            self.state = ExecutionState::Running;
        }
        plan
    }

    /// Whether the interpreter is running at an input node, as `at_input` describes.
    pub fn stands_at_input(&self) -> (r: bool)
        ensures
            r == at_input(self@),
    {
        if !matches!(self.state, ExecutionState::Running) {
            return false;
        }
        match &self.current_node_id {
            Some(id) => {
                proof {
                    lemma_lookup_viewed(self.node_map@, id@);
                }
                match self.node_map.get(id.as_str()) {
                    Some(n) => matches!(n.node_type, NodeType::Input),
                    None => false,
                }
            },
            None => false,
        }
    }

    /// Ends a single step, as `settled` describes.
    pub fn end_single_step(&mut self)
        ensures
            final(self)@ == settled(old(self)@),
    {
        if matches!(self.state, ExecutionState::Running) {
            self.state = ExecutionState::Paused;
        }
    }

    /// How typed input reads, as `user_input_form` describes; a number keeps its text.
    pub fn parse_user_input(input_str: &str) -> (r: Value<String>)
        ensures
            match user_input_form(input_str@) {
                InputForm::Number(t) => r matches Value::Number(n) && n@ == t,
                InputForm::Text(t) => r matches Value::String(s) && s@ == t,
                InputForm::Bool(b) => r == Value::<String>::Bool(b),
            },
    {
        let t = trim_chars(&chars_of(input_str));
        if t.len() == 0 {
            return Value::String(String::new());
        }
        if is_quoted_chars(&t) {
            return Value::String(string_of(&slice_of(&t, 1, t.len() - 1)));
        }
        if is_float_literal_chars(&t) {
            return Value::Number(string_of(&t));
        }
        if eq_ignore_case_chars(&t, &chars_of("true")) {
            return Value::Bool(true);
        }
        if eq_ignore_case_chars(&t, &chars_of("false")) {
            return Value::Bool(false);
        }
        Value::String(string_of(&t))
    }

    /// Submits the value `val` of typed input for the variable `target_var`, going on at
    /// `next_node_id`, as `submitted` describes; `shown` is the text of `val`.
    pub fn submit_input(&mut self, val: Value<N>, shown: &str, target_var: &str, next_node_id: &str)
        ensures
            final(self)@ == submitted(old(self)@, val, shown@, target_var@, next_node_id@),
    {
        assign_aliased(&mut self.variables, target_var, val);
        let msg = cat(cat(cat("[Giriş] `", target_var).as_str(), "` = ").as_str(), shown);
        self.push_log(msg);
        self.current_node_id = Some(owned(next_node_id));
        if self.step_mode {
            self.state = ExecutionState::Paused;
        } else {
            self.state = ExecutionState::Running;
        }
        self.input_text = String::new();
    }
}

} // verus!
