//! What holds of the interpreter across its operations.
use vstd::prelude::*;

use super::evaluator::Value;
use super::node_exec::aliased;
use super::runner::{
    advanced, after_log, current_or_empty, input_awaited, leaves, logged, node_table, paused, resumed,
    at_input, declared, is_start, numbers_recorded, record_sample, returned_value, settled, single_planned, started, step_begun, stop_reached,
    stopped, sub_called,
    submitted, PlanView, RunnerView, StateView, MAX_LOGS,
};
use super::table::{
    key_is, lemma_lookup_push, lemma_lookup_put, lemma_put_keeps_keys_unique, lookup, put, unique_keys,
};
use crate::model::connector::BranchCondition;
use crate::model::diagram::DiagramView;
use crate::model::node::{NodeType, NodeView};
use crate::search::{first_index, lemma_first_index_facts};
use crate::text::{find, lemma_find_facts, split, trim};

verus! {

/// A value stored under a name and its aliases is found again under the name, and under
/// each alias: the part before the first dot of a dotted name, or `name.Text` and
/// `name.Value` of any other.
pub proof fn law_aliases_read_back<N>(vars: Seq<(Seq<char>, Value<N>)>, name: Seq<char>, v: Value<N>)
    ensures
        lookup(aliased(vars, name, v), name) == Some(v),
        find(name, '.') >= 0 ==> lookup(aliased(vars, name, v), name.subrange(0, find(name, '.')))
            == Some(v),
        find(name, '.') < 0 ==> lookup(aliased(vars, name, v), name + ".Text"@) == Some(v),
        find(name, '.') < 0 ==> lookup(aliased(vars, name, v), name + ".Value"@) == Some(v),
{
    lemma_find_facts(name, '.');
    let a = put(vars, name, v);
    lemma_lookup_put(vars, name, v, name);
    if find(name, '.') >= 0 {
        let base = name.subrange(0, find(name, '.'));
        assert(base.len() < name.len());
        lemma_lookup_put(a, base, v, name);
        lemma_lookup_put(a, base, v, base);
    } else {
        reveal_strlit(".Text");
        reveal_strlit(".Value");
        let t = name + ".Text"@;
        let u = name + ".Value"@;
        assert(t.len() > name.len() && u.len() > name.len());
        assert(t != u) by {
            assert(t[name.len() as int + 1] == 'T' && u[name.len() as int + 1] == 'V');
        }
        let b = put(a, t, v);
        lemma_lookup_put(a, t, v, name);
        lemma_lookup_put(a, t, v, t);
        lemma_lookup_put(b, u, v, name);
        lemma_lookup_put(b, u, v, t);
        lemma_lookup_put(b, u, v, u);
    }
}

/// Submitted input is found again under the variable it was submitted for, and the run
/// goes on at the given node: paused in step mode, running otherwise.
pub proof fn law_submitted_input_reads_back<N>(
    r: RunnerView<N>,
    v: Value<N>,
    shown: Seq<char>,
    target: Seq<char>,
    next: Seq<char>,
)
    ensures
        lookup(submitted(r, v, shown, target, next).variables, target) == Some(v),
        submitted(r, v, shown, target, next).current_node_id == Some(next),
        submitted(r, v, shown, target, next).state == if r.step_mode {
            StateView::Paused
        } else {
            StateView::Running
        },
{
    law_aliases_read_back(r.variables, target, v);
}

/// Returning from a sub-diagram gives the caller back what it had: once a call has entered
/// a sub-diagram, and however the sub-diagram's run changed the interpreter short of its
/// own call stack, reaching a stop node brings back the caller's call stack, diagram, node
/// table and variables, with the returned value in the call's result variable when it has
/// one, and goes on at the node after the call.
pub proof fn law_return_restores_caller<N>(
    r: RunnerView<N>,
    sub: DiagramView,
    n: NodeView,
    arg: Value<N>,
    shown: Seq<char>,
    inside: RunnerView<N>,
    returned: Seq<char>,
)
    requires
        sub_called(r, sub, n, arg, shown).1,
        inside.diagram_stack == sub_called(r, sub, n, arg, shown).0.diagram_stack,
    ensures
        ({
            let out = stop_reached(inside, returned);
            let curr = current_or_empty(r.current_node_id);
            let cs = r.active_diagram.connectors;
            let i = first_index(cs, leaves(curr));
            &&& out.diagram_stack == r.diagram_stack
            &&& out.active_diagram == r.active_diagram
            &&& out.node_map == r.node_map
            &&& out.variables == if n.target_var.len() > 0 {
                put(r.variables, n.target_var, returned_value(inside.variables))
            } else {
                r.variables
            }
            &&& out.current_node_id == Some(
                if 0 <= i < cs.len() {
                    cs[i].to_id
                } else {
                    curr
                },
            )
        }),
{
    assert(inside.diagram_stack.drop_last() =~= r.diagram_stack);
}

/// A result variable set after the return holds the value the sub-diagram returned.
pub proof fn law_returned_value_reaches_caller<N>(
    r: RunnerView<N>,
    sub: DiagramView,
    n: NodeView,
    arg: Value<N>,
    shown: Seq<char>,
    inside: RunnerView<N>,
    returned: Seq<char>,
)
    requires
        sub_called(r, sub, n, arg, shown).1,
        inside.diagram_stack == sub_called(r, sub, n, arg, shown).0.diagram_stack,
        n.target_var.len() > 0,
    ensures
        lookup(stop_reached(inside, returned).variables, n.target_var) == Some(
            returned_value(inside.variables),
        ),
{
    law_return_restores_caller(r, sub, n, arg, shown, inside, returned);
    lemma_lookup_put(r.variables, n.target_var, returned_value(inside.variables), n.target_var);
}

/// Pausing a running interpreter and resuming it leaves it running as before, out of step
/// mode, with both events logged.
pub proof fn law_pause_then_resume<N>(r: RunnerView<N>)
    requires
        r.state is Running,
    ensures
        resumed(paused(r)) == (RunnerView {
            step_mode: false,
            logs: after_log(
                after_log(r.logs, "[Duraklatıldı] Çalışma duraklatıldı."@),
                "[Devam Ediyor] Çalışma devam ettirildi."@,
            ),
            ..r
        }),
{
}

/// Pausing or resuming twice is the same as doing it once.
pub proof fn law_pause_resume_settle<N>(r: RunnerView<N>)
    ensures
        paused(paused(r)) == paused(r),
        resumed(resumed(r)) == resumed(r),
{
}

/// A log of at most `MAX_LOGS` lines stays so, whatever the interpreter does.
pub proof fn law_log_stays_bounded<N>(
    r: RunnerView<N>,
    m: Seq<char>,
    d: DiagramView,
    zero: N,
    n: NodeView,
    t: NodeType,
    chosen: BranchCondition,
    v: Value<N>,
    sub: DiagramView,
)
    requires
        r.logs.len() <= MAX_LOGS,
    ensures
        logged(r, m).logs.len() <= MAX_LOGS,
        stopped(r).logs.len() <= MAX_LOGS,
        paused(r).logs.len() <= MAX_LOGS,
        resumed(r).logs.len() <= MAX_LOGS,
        started(r, d, zero).logs.len() <= MAX_LOGS,
        step_begun(r, d, zero).0.logs.len() <= MAX_LOGS,
        stop_reached(r, m).logs.len() <= MAX_LOGS,
        input_awaited(r, n).logs.len() <= MAX_LOGS,
        sub_called(r, sub, n, v, m).0.logs.len() <= MAX_LOGS,
        advanced(r, t, chosen).logs.len() <= MAX_LOGS,
        single_planned(r, d, zero).0.logs.len() <= MAX_LOGS,
        settled(r).logs.len() <= MAX_LOGS,
        submitted(r, v, m, n.expr2, n.id).logs.len() <= MAX_LOGS,
{
}

/// The node table of a diagram finds a node under an identifier exactly when some node has
/// it, and what it finds is a node of the diagram with that identifier: the last one.
pub proof fn law_node_table_finds_nodes(ns: Seq<NodeView>, k: Seq<char>)
    ensures
        (exists|i: int| 0 <= i < ns.len() && #[trigger] ns[i].id == k) <==> lookup(node_table(ns), k) is Some,
        lookup(node_table(ns), k) matches Some(x) ==> x.id == k && exists|i: int|
            0 <= i < ns.len() && #[trigger] ns[i] == x && forall|j: int| i < j < ns.len() ==> #[trigger] ns[j].id != k,
    decreases ns.len(),
{
    if ns.len() > 0 {
        let init = ns.drop_last();
        law_node_table_finds_nodes(init, k);
        lemma_lookup_put(node_table(init), ns.last().id, ns.last(), k);
        if ns.last().id == k {
            assert(ns[ns.len() - 1] == ns.last());
        } else {
            assert forall|i: int| 0 <= i < init.len() && #[trigger] init[i].id == k implies (ns[i].id == k) by {
                assert(init[i] == ns[i]);
            }
            if exists|i: int| 0 <= i < ns.len() && #[trigger] ns[i].id == k {
                let i = choose|i: int| 0 <= i < ns.len() && #[trigger] ns[i].id == k;
                assert(i < init.len() && init[i].id == k);
            }
            if lookup(node_table(init), k) is Some {
                let x = lookup(node_table(init), k)->0;
                let i = choose|i: int|
                    0 <= i < init.len() && #[trigger] init[i] == x && forall|j: int| i < j < init.len() ==> #[trigger] init[j].id != k;
                assert(ns[i] == x);
                assert forall|j: int| i < j < ns.len() implies #[trigger] ns[j].id != k by {
                    if j < init.len() {
                        assert(init[j] == ns[j]);
                    }
                }
            }
        }
    }
}

/// A single step never leaves the interpreter running: whatever the step did, ending it
/// pauses a running interpreter and leaves any other state as it is.
pub proof fn law_single_step_ends_paused<N>(r: RunnerView<N>)
    ensures
        !(settled(r).state is Running),
        r.state is Running ==> settled(r).state is Paused,
        !(r.state is Running) ==> settled(r) == r,
{
}

/// A single step taken while input is awaited submits it for the awaited variable and
/// leaves the interpreter paused at the node after the input.
pub proof fn law_single_step_submits_and_pauses<N>(
    r: RunnerView<N>,
    root: DiagramView,
    zero: N,
    v: Value<N>,
    shown: Seq<char>,
)
    requires
        r.state is WaitingForInput,
    ensures
        ({
            let (r1, plan) = single_planned(r, root, zero);
            match plan {
                PlanView::Submit { target_var, next_node_id } => {
                    let r2 = submitted(r1, v, shown, target_var, next_node_id);
                    &&& target_var == r.state->target_var
                    &&& next_node_id == r.state->next_node_id
                    &&& r2.state is Paused
                    &&& r2.current_node_id == Some(next_node_id)
                    &&& lookup(r2.variables, target_var) == Some(v)
                },
                _ => false,
            }
        }),
{
    let (r1, plan) = single_planned(r, root, zero);
    law_aliases_read_back(r1.variables, r.state->target_var, v);
}

/// No two variables share a name, in the running sub-diagram or in any caller waiting on
/// the call stack.
pub open spec fn names_distinct<N>(r: RunnerView<N>) -> bool {
    &&& unique_keys(r.variables)
    &&& forall|i: int| 0 <= i < r.diagram_stack.len() ==> unique_keys(#[trigger] r.diagram_stack[i].parent_variables)
}

proof fn lemma_declared_distinct<N>(vars: Seq<(Seq<char>, Value<N>)>, names: Seq<Seq<char>>, zero: N)
    requires
        unique_keys(vars),
    ensures
        unique_keys(declared(vars, names, zero)),
    decreases names.len(),
{
    if names.len() > 0 {
        lemma_declared_distinct(vars, names.drop_last(), zero);
        let before = declared(vars, names.drop_last(), zero);
        let clean = trim(names.last());
        if clean.len() > 0 {
            lemma_put_keeps_keys_unique(before, clean, Value::Number(zero));
        }
    }
}

proof fn lemma_aliased_distinct<N>(vars: Seq<(Seq<char>, Value<N>)>, name: Seq<char>, v: Value<N>)
    requires
        unique_keys(vars),
    ensures
        unique_keys(aliased(vars, name, v)),
{
    let a = put(vars, name, v);
    lemma_put_keeps_keys_unique(vars, name, v);
    if find(name, '.') >= 0 {
        lemma_put_keeps_keys_unique(a, name.subrange(0, find(name, '.')), v);
    } else {
        lemma_put_keeps_keys_unique(a, name + ".Text"@, v);
        lemma_put_keeps_keys_unique(put(a, name + ".Text"@, v), name + ".Value"@, v);
    }
}

/// Variables are named as in a map: whatever the interpreter does, no two variables come to
/// share a name, in the running sub-diagram or in the callers it returns to.
pub proof fn law_variable_names_stay_distinct<N>(
    r: RunnerView<N>,
    m: Seq<char>,
    d: DiagramView,
    zero: N,
    n: NodeView,
    t: NodeType,
    chosen: BranchCondition,
    v: Value<N>,
    sub: DiagramView,
)
    requires
        names_distinct(r),
    ensures
        names_distinct(stopped(r)),
        names_distinct(paused(r)),
        names_distinct(resumed(r)),
        names_distinct(started(r, d, zero)),
        names_distinct(step_begun(r, d, zero).0),
        names_distinct(stop_reached(r, m)),
        names_distinct(input_awaited(r, n)),
        names_distinct(sub_called(r, sub, n, v, m).0),
        names_distinct(advanced(r, t, chosen)),
        names_distinct(single_planned(r, d, zero).0),
        names_distinct(settled(r)),
        names_distinct(submitted(r, v, m, n.expr2, n.id)),
{
    let empty = Seq::<(Seq<char>, Value<N>)>::empty();
    let i = first_index(d.nodes, is_start());
    if 0 <= i < d.nodes.len() {
        lemma_declared_distinct(empty, split(d.nodes[i].expr1, ','), zero);
    }
    lemma_put_keeps_keys_unique(empty, "PARAM"@, v);
    lemma_put_keeps_keys_unique(put(empty, "PARAM"@, v), n.expr2, v);
    lemma_aliased_distinct(r.variables, n.expr2, v);
    if r.diagram_stack.len() > 0 {
        let f = r.diagram_stack.last();
        assert(unique_keys(r.diagram_stack[r.diagram_stack.len() - 1].parent_variables));
        lemma_put_keeps_keys_unique(f.parent_variables, f.return_target_var, returned_value(r.variables));
    }
    let sc = sub_called(r, sub, n, v, m).0;
    assert forall|k: int| 0 <= k < sc.diagram_stack.len() implies unique_keys(#[trigger] sc.diagram_stack[k].parent_variables) by {
        if k < r.diagram_stack.len() {
            assert(sc.diagram_stack[k] == r.diagram_stack[k]);
        }
    }
    let sr = stop_reached(r, m);
    assert forall|k: int| 0 <= k < sr.diagram_stack.len() implies unique_keys(#[trigger] sr.diagram_stack[k].parent_variables) by {
        assert(sr.diagram_stack[k] == r.diagram_stack[k]);
    }
    let r0 = RunnerView { step_mode: true, ..r };
    let st = started(r0, d, zero);
    assert(names_distinct(st));
}

/// What the series named `k` holds after a sample is recorded for `k2`.
proof fn lemma_lookup_record<N>(h: Seq<(Seq<char>, Seq<(usize, N)>)>, k2: Seq<char>, smp: (usize, N), k: Seq<char>)
    ensures
        lookup(record_sample(h, k2, smp), k) == if k == k2 {
            Some(
                match lookup(h, k) {
                    Some(ss) => ss.push(smp),
                    None => seq![smp],
                },
            )
        } else {
            lookup(h, k)
        },
{
    let i = first_index(h, key_is::<Seq<(usize, N)>>(k2));
    lemma_first_index_facts(h, key_is::<Seq<(usize, N)>>(k2));
    if 0 <= i < h.len() {
        lemma_lookup_put(h, k2, h[i].1.push(smp), k);
        assert(put(h, k2, h[i].1.push(smp)) == record_sample(h, k2, smp));
    } else {
        lemma_lookup_put(h, k2, seq![smp], k);
        assert(put(h, k2, seq![smp]) == record_sample(h, k2, smp));
    }
}

/// At the end of a step, the history of each variable holding a number gains one sample,
/// the step's number and that number; the histories of other names stay as they were.
pub proof fn law_step_records_each_number<N>(
    h: Seq<(Seq<char>, Seq<(usize, N)>)>,
    vars: Seq<(Seq<char>, Value<N>)>,
    step: usize,
    k: Seq<char>,
)
    requires
        unique_keys(vars),
    ensures
        lookup(numbers_recorded(h, vars, step), k) == match lookup(vars, k) {
            Some(Value::Number(x)) => Some(
                match lookup(h, k) {
                    Some(ss) => ss.push((step, x)),
                    None => seq![(step, x)],
                },
            ),
            _ => lookup(h, k),
        },
    decreases vars.len(),
{
    if vars.len() == 0 {
        assert(lookup(vars, k) is None);
    } else {
        let init = vars.drop_last();
        let e = vars.last();
        assert(unique_keys(init)) by {
            assert forall|i: int, j: int| 0 <= i < j < init.len() implies #[trigger] init[i].0 != #[trigger] init[j].0 by {
                assert(init[i] == vars[i] && init[j] == vars[j]);
            }
        }
        law_step_records_each_number(h, init, step, k);
        assert(vars == init.push(e));
        lemma_lookup_push(init, e, k);
        if e.0 == k {
            assert(lookup(init, k) is None) by {
                lemma_first_index_facts(init, key_is::<Value<N>>(k));
                let i = first_index(init, key_is::<Value<N>>(k));
                if 0 <= i < init.len() {
                    assert(init[i] == vars[i]);
                    assert(vars[i].0 != vars[vars.len() - 1].0);
                }
            }
        }
        let before = numbers_recorded(h, init, step);
        match e.1 {
            Value::Number(x) => {
                lemma_lookup_record(before, e.0, (step, x), k);
            },
            _ => {},
        }
    }
}

/// The first single step of a run whose start node leads straight to an input node ends
/// waiting for that input: the run starts, the start node runs and hands on to the input
/// node, and the input node, run at once, asks for its value.
pub proof fn law_single_step_from_start_reaches_input<N>(r: RunnerView<N>, d: DiagramView, zero: N)
    requires
        r.state is Idle || r.state is Finished,
        ({
            let i = first_index(d.nodes, is_start());
            &&& 0 <= i < d.nodes.len()
            &&& lookup(node_table(d.nodes), d.nodes[i].id) matches Some(s) && s.node_type == NodeType::Start
            &&& ({
                let c = first_index(d.connectors, leaves(d.nodes[i].id));
                &&& 0 <= c < d.connectors.len()
                &&& lookup(node_table(d.nodes), d.connectors[c].to_id) matches Some(inp)
                    && inp.node_type == NodeType::Input
                &&& 0 <= first_index(d.connectors, leaves(d.connectors[c].to_id))
            })
        }),
    ensures
        ({
            let (r1, plan) = single_planned(r, d, zero);
            let (r2, n1) = step_begun(r1, d, zero);
            let r3 = advanced(r2, NodeType::Start, BranchCondition::Default);
            let (r4, n2) = step_begun(r3, d, zero);
            &&& plan == PlanView::StepFromStart
            &&& n1 matches Some(s) && s.node_type == NodeType::Start
            &&& at_input(r3)
            &&& n2 matches Some(inp) && inp.node_type == NodeType::Input && settled(
                input_awaited(r4, inp),
            ).state is WaitingForInput && settled(input_awaited(r4, inp)).step_mode
        }),
{
    let i = first_index(d.nodes, is_start());
    let c = first_index(d.connectors, leaves(d.nodes[i].id));
    lemma_first_index_facts(d.connectors, leaves(d.nodes[i].id));
    let (r1, plan) = single_planned(r, d, zero);
    assert(r1.current_node_id == Some(d.nodes[i].id));
    assert(r1.node_map == node_table(d.nodes));
    assert(r1.state is Running);
    assert(r1.active_diagram == d);
    let (r2, n1) = step_begun(r1, d, zero);
    assert(n1 == lookup(node_table(d.nodes), d.nodes[i].id));
    let r3 = advanced(r2, NodeType::Start, BranchCondition::Default);
    assert(r3.current_node_id == Some(d.connectors[c].to_id));
    assert(at_input(r3));
    let (r4, n2) = step_begun(r3, d, zero);
    let t = d.connectors[c].to_id;
    lemma_first_index_facts(d.connectors, leaves(t));
    assert(r4.active_diagram == d);
    assert(r4.current_node_id == Some(t));
    assert(n2 == lookup(node_table(d.nodes), t));
    let inp = n2->0;
    assert(input_awaited(r4, inp).state is WaitingForInput);
}

/// A single step leaves the interpreter in step mode and never running, whichever way it
/// goes: when nothing runs, after a submitted input, and after a step whose node keeps the
/// step mode, once the step is ended.
pub proof fn law_single_step_keeps_step_mode<N>(
    r: RunnerView<N>,
    d: DiagramView,
    zero: N,
    after: RunnerView<N>,
    v: Value<N>,
    shown: Seq<char>,
)
    ensures
        ({
            let (r1, plan) = single_planned(r, d, zero);
            &&& r1.step_mode
            &&& plan == PlanView::Nothing ==> !(r1.state is Running)
            &&& (plan matches PlanView::Submit { target_var, next_node_id } ==> {
                let r2 = submitted(r1, v, shown, target_var, next_node_id);
                r2.state is Paused && r2.step_mode
            })
            &&& after.step_mode == r1.step_mode ==> settled(after).step_mode && !(settled(after).state is Running)
        }),
{
}

/// Running a node keeps the step mode: beginning a step that does not start the run,
/// ending it, and each way a node leaves.
pub proof fn law_steps_keep_step_mode<N>(
    r: RunnerView<N>,
    d: DiagramView,
    zero: N,
    n: NodeView,
    t: NodeType,
    chosen: BranchCondition,
    v: Value<N>,
    m: Seq<char>,
    sub: DiagramView,
)
    ensures
        !(r.state is Idle && r.current_node_id is None) ==> step_begun(r, d, zero).0.step_mode == r.step_mode,
        advanced(r, t, chosen).step_mode == r.step_mode,
        stop_reached(r, m).step_mode == r.step_mode,
        input_awaited(r, n).step_mode == r.step_mode,
        sub_called(r, sub, n, v, m).0.step_mode == r.step_mode,
{
}

} // verus!
