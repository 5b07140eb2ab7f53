use vstd::prelude::*;
use regex_automata::dfa::sparse::DFA;
use crate::automaton::byte_step;
use crate::automaton::class_of_byte;
use crate::automaton::dfa_match_states;
use crate::automaton::dfa_start;
use crate::automaton::eoi_step;
use crate::constants::MAX_STATE;
use crate::constants::REST_STATE;
use crate::dfa::accept_candidates;
use crate::dfa::accepts_from;
use crate::dfa::alphabet_fits;
use crate::dfa::definition_rows;
use crate::dfa::is_definition;
use crate::dfa::lemma_reachable_step;
use crate::dfa::reachable;
use crate::dfa::row_for;
use crate::dfa::state_after;
use crate::dfa::symbol_class;
use crate::dfa::trace_of;
use crate::dfa::walk;
use crate::regex::accepting_run;
use crate::regex::blended;
use crate::regex::is_row_of;
use crate::regex::is_table_of;
use crate::regex::lemma_blended;
use crate::regex::lemma_state_check;
use crate::regex::sentinel_row;
use crate::regex::state_check_poly;
use crate::regex::step_allowed;
use crate::regex::widened;
use crate::regex::DFADef;
use crate::regex::RegexCircuitConfig;
use crate::regex::Step;
use crate::regex::TableRow;
use crate::regex::Transition;

verus! {

/// The lookup table of an automaton holds the sentinel row and the
/// transitions of the automaton, and no other row.
pub proof fn lemma_table_rows(rows: Seq<TableRow>, def: DFADef, row: TableRow)
    requires
        is_table_of(rows, def),
    ensures
        rows.contains(row) <==> row == sentinel_row() || is_row_of(row, def),
{
    if rows.contains(row) {
        let i = choose|i: int| 0 <= i < rows.len() && rows[i] == row;
        if i >= 1 {
            assert(is_row_of(rows[i], def));
        }
    }
    if row == sentinel_row() {
        assert(rows[0] == row);
    }
    if is_row_of(row, def) {
        let t: Transition = (row.0 as u8, row.1, row.2);
        assert(widened(t) == row);
        assert(rows.contains(widened(t)));
    }
}

/// The state check on a row: where the row is switched on and checked, its
/// polynomial is zero exactly where the row holds the expected state; where
/// either flag is clear, it is zero whatever the cells hold.
pub proof fn lemma_state_gate(config: RegexCircuitConfig, i: int)
    requires
        config.wf(),
        0 <= i < config.row_capacity(),
    ensures
        config.q_enable@[i] && config.q_state_check@[i] ==> (state_check_poly(
            config.q_enable@[i],
            config.q_state_check@[i],
            config.state@[i],
            config.expected_state@[i],
        ) == 0 <==> config.state@[i] == config.expected_state@[i]),
        !(config.q_enable@[i] && config.q_state_check@[i]) ==> state_check_poly(
            config.q_enable@[i],
            config.q_state_check@[i],
            config.state@[i],
            config.expected_state@[i],
        ) == 0,
{
    lemma_state_check(
        config.q_enable@[i],
        config.q_state_check@[i],
        config.state@[i],
        config.expected_state@[i],
    );
}

/// The lookup on a row: each of its three inputs is the cell blended with
/// the dummy value. A row that is switched on looks up its class, its state
/// and the state of the row behind it; a row that is switched off looks up
/// the sentinel row, whatever its cells hold. The row holds exactly where
/// its state check is zero and what it looks up is a row of the table.
pub proof fn lemma_lookup_gate(config: RegexCircuitConfig, i: int)
    requires
        config.wf(),
        0 <= i < config.row_capacity(),
    ensures
        config.lookup_input(i).0 == blended(config.q_enable@[i], config.class_id@[i], 0),
        config.lookup_input(i).1 == blended(config.q_enable@[i], config.state@[i], MAX_STATE),
        config.lookup_input(i).2 == blended(config.q_enable@[i], config.next_state_at(i), MAX_STATE),
        config.q_enable@[i] ==> config.lookup_input(i) == (
            config.class_id@[i],
            config.state@[i],
            config.next_state_at(i),
        ),
        !config.q_enable@[i] ==> config.lookup_input(i) == sentinel_row(),
        config.row_holds(i) <==> state_check_poly(
            config.q_enable@[i],
            config.q_state_check@[i],
            config.state@[i],
            config.expected_state@[i],
        ) == 0 && config.dfa_table.contains_row(config.lookup_input(i)),
{
    lemma_blended(config.q_enable@[i], config.class_id@[i], 0);
    lemma_blended(config.q_enable@[i], config.state@[i], MAX_STATE);
    lemma_blended(config.q_enable@[i], config.next_state_at(i), MAX_STATE);
}

/// A row that is switched off passes both gates, whatever it holds, as long
/// as the table holds the sentinel row.
pub proof fn lemma_disabled_row_holds(config: RegexCircuitConfig, i: int)
    requires
        config.wf(),
        config.dfa_table.contains_row(sentinel_row()),
        0 <= i < config.row_capacity(),
        !config.q_enable@[i],
    ensures
        config.row_holds(i),
{
    lemma_state_check(
        config.q_enable@[i],
        config.q_state_check@[i],
        config.state@[i],
        config.expected_state@[i],
    );
}

/// Whether two witnesses agree on the table, on which rows are switched on,
/// and on what the gates read from those rows: their own cells and the state
/// of the row behind them.
pub open spec fn same_enabled_rows(a: RegexCircuitConfig, b: RegexCircuitConfig) -> bool {
    &&& a.wf()
    &&& b.wf()
    &&& a.row_capacity() == b.row_capacity()
    &&& a.dfa_table.rows() == b.dfa_table.rows()
    &&& a.q_enable@ == b.q_enable@
    &&& forall|i: int|
        0 <= i < a.row_capacity() && a.q_enable@[i] ==> {
            &&& a.q_state_check@[i] == b.q_state_check@[i]
            &&& a.state@[i] == b.state@[i]
            &&& a.class_id@[i] == b.class_id@[i]
            &&& a.expected_state@[i] == b.expected_state@[i]
            &&& a.next_state_at(i) == b.next_state_at(i)
        }
}

/// The rows that are switched off do not decide whether a witness is
/// satisfied: two witnesses that agree on the rows that are switched on, and
/// on the state behind each of them, are satisfied together, whatever else
/// their other rows hold.
pub proof fn lemma_padding_invariance(a: RegexCircuitConfig, b: RegexCircuitConfig)
    requires
        same_enabled_rows(a, b),
        a.dfa_table.contains_row(sentinel_row()),
    ensures
        a.satisfied() == b.satisfied(),
        forall|i: int| 0 <= i < a.row_capacity() && !a.q_enable@[i] ==> a.row_holds(i) && b.row_holds(i),
{
    assert forall|i: int| 0 <= i < a.row_capacity() implies a.row_holds(i) == b.row_holds(i) by {
        if a.q_enable@[i] {
            assert(a.lookup_input(i) == b.lookup_input(i));
        } else {
            lemma_disabled_row_holds(a, i);
            lemma_disabled_row_holds(b, i);
        }
    }
    assert forall|i: int| 0 <= i < a.row_capacity() && !a.q_enable@[i] implies a.row_holds(i)
        && b.row_holds(i) by {
        lemma_disabled_row_holds(a, i);
        lemma_disabled_row_holds(b, i);
    }
}

/// In a satisfied witness the automaton allows every step of the trace from
/// step `i` on.
proof fn lemma_steps_allowed(config: RegexCircuitConfig, def: DFADef, trace: Seq<Step>, i: int)
    requires
        config.is_loaded(def, trace),
        def.below_dummy(),
        config.satisfied(),
        0 <= i < trace.len(),
    ensures
        step_allowed(def, trace, i),
    decreases trace.len() - i,
{
    assert(config.row_holds(i));
    assert(config.row_is_loaded(def, trace, i));
    assert(config.row_is_loaded(def, trace, i + 1));
    let row = config.lookup_input(i);
    lemma_table_rows(config.dfa_table.rows(), def, row);
    if i + 1 < trace.len() {
        lemma_steps_allowed(config, def, trace, i + 1);
        assert(def.has(
            trace[i + 1].1,
            trace[i + 1].2,
            if i + 2 < trace.len() {
                trace[i + 2].2
            } else {
                REST_STATE
            },
        ));
        assert(row.2 != MAX_STATE);
    } else {
        assert(row.2 == REST_STATE);
    }
    assert(row != sentinel_row());
    assert(is_row_of(row, def));
}

/// The witness that `load` writes is satisfied exactly where the trace is a
/// run of the automaton from its first state to its accepting state.
pub proof fn lemma_satisfied_iff_accepting(config: RegexCircuitConfig, def: DFADef, trace: Seq<Step>)
    requires
        config.is_loaded(def, trace),
        def.below_dummy(),
    ensures
        config.satisfied() <==> accepting_run(def, trace),
{
    let n = trace.len() as int;
    if config.satisfied() {
        assert forall|i: int| 0 <= i < n implies step_allowed(def, trace, i) by {
            lemma_steps_allowed(config, def, trace, i);
        }
        lemma_boundary_checked(config, def, trace);
    }
    if accepting_run(def, trace) {
        assert forall|i: int| 0 <= i < config.row_capacity() implies config.row_holds(i) by {
            assert(config.row_is_loaded(def, trace, i));
            lemma_state_check(
                config.q_enable@[i],
                config.q_state_check@[i],
                config.state@[i],
                config.expected_state@[i],
            );
            let row = config.lookup_input(i);
            lemma_table_rows(config.dfa_table.rows(), def, row);
            if i < n {
                assert(config.row_is_loaded(def, trace, i + 1));
                assert(step_allowed(def, trace, i));
                assert(is_row_of(row, def));
            }
        }
    }
}

/// In a satisfied witness the first step of the trace holds the first state
/// and the last step the accepting state, also where one step is both.
pub proof fn lemma_boundary_checked(config: RegexCircuitConfig, def: DFADef, trace: Seq<Step>)
    requires
        config.is_loaded(def, trace),
        config.satisfied(),
    ensures
        trace[0].2 == def.first_state_val,
        trace.last().2 == def.accepted_state_val,
{
    let last = trace.len() - 1;
    assert(config.row_holds(0));
    assert(config.row_is_loaded(def, trace, 0));
    lemma_state_check(
        config.q_enable@[0],
        config.q_state_check@[0],
        config.state@[0],
        config.expected_state@[0],
    );
    assert(config.row_holds(last));
    assert(config.row_is_loaded(def, trace, last));
    lemma_state_check(
        config.q_enable@[last],
        config.q_state_check@[last],
        config.state@[last],
        config.expected_state@[last],
    );
}

/// A trace whose last step does not hold the accepting state has no
/// satisfied witness, whatever the automaton and the other steps are.
pub proof fn lemma_wrong_final_state_is_rejected(config: RegexCircuitConfig, def: DFADef, trace: Seq<Step>)
    requires
        config.is_loaded(def, trace),
        trace.last().2 != def.accepted_state_val,
    ensures
        !config.satisfied(),
{
    if config.satisfied() {
        lemma_boundary_checked(config, def, trace);
    }
}

/// The state after the first `i` bytes of an input can be reached.
pub proof fn lemma_state_after_reachable(dfa: DFA<Vec<u8>>, start: u64, input: Seq<u8>, i: nat)
    ensures
        reachable(dfa, start, state_after(dfa, start, input, i)),
    decreases i,
{
    if i == 0 {
        assert(walk(dfa, start, Seq::<Option<u8>>::empty()) == start);
    } else {
        lemma_state_after_reachable(dfa, start, input, (i - 1) as nat);
        lemma_reachable_step(
            dfa,
            start,
            state_after(dfa, start, input, (i - 1) as nat),
            Some(input[i - 1]),
        );
    }
}

/// The definition of an automaton allows every step of every trace of the
/// automaton but the last, and the last where it holds the accepting state.
pub proof fn lemma_trace_follows_definition(
    dfa: DFA<Vec<u8>>,
    start: u64,
    def: DFADef,
    input: Seq<u8>,
    i: int,
)
    requires
        alphabet_fits(dfa),
        is_definition(dfa, start, def),
        0 <= i < input.len() + 2,
        i == input.len() + 1 ==> trace_of(dfa, start, input).last().2 == def.accepted_state_val,
    ensures
        step_allowed(def, trace_of(dfa, start, input), i),
{
    let trace = trace_of(dfa, start, input);
    let n = input.len();
    if i < n {
        lemma_state_after_reachable(dfa, start, input, i as nat);
        let state = state_after(dfa, start, input, i as nat);
        let row = row_for(dfa, state, Some(input[i]));
        assert(state_after(dfa, start, input, (i + 1) as nat) == byte_step(dfa, state, input[i]));
        assert(definition_rows(dfa, start).contains(row));
    } else if i == n {
        lemma_state_after_reachable(dfa, start, input, n);
        let state = state_after(dfa, start, input, n);
        let row = row_for(dfa, state, None);
        assert(definition_rows(dfa, start).contains(row));
    } else {
        let accept = def.accepted_state_val;
        assert(accept_candidates(dfa, start).contains(accept));
        let state = choose|state: u64| #[trigger]
            reachable(dfa, start, state) && accepts_from(dfa, state, accept);
        lemma_reachable_step(dfa, start, state, None);
        let row = row_for(dfa, accept, None);
        assert(definition_rows(dfa, start).contains(row));
    }
}

/// For the definition and a trace of one automaton, the witness is satisfied
/// exactly where the trace ends in the accepting state.
pub proof fn lemma_compiled_trace_satisfied_iff_accepted(
    dfa: DFA<Vec<u8>>,
    def: DFADef,
    input: Seq<u8>,
    config: RegexCircuitConfig,
)
    requires
        alphabet_fits(dfa),
        dfa_start(dfa) matches Some(start) && is_definition(dfa, start, def) && config.is_loaded(
            def,
            trace_of(dfa, start, input),
        ),
    ensures
        config.satisfied() <==> eoi_step(
            dfa,
            state_after(dfa, dfa_start(dfa)->0, input, input.len()),
        ) == def.accepted_state_val,
{
    let start = dfa_start(dfa)->0;
    let trace = trace_of(dfa, start, input);
    lemma_satisfied_iff_accepting(config, def, trace);
    if trace.last().2 == def.accepted_state_val {
        assert forall|i: int| 0 <= i < trace.len() implies step_allowed(def, trace, i) by {
            lemma_trace_follows_definition(dfa, start, def, input, i);
        }
        assert(accepting_run(def, trace));
    }
}

/// For the definition of an automaton, the trace of an input ends in the
/// accepting state exactly where it ends in a match state: where the
/// automaton reports a match at the end of the input.
pub proof fn lemma_accepted_iff_match_state(dfa: DFA<Vec<u8>>, def: DFADef, input: Seq<u8>)
    requires
        dfa_start(dfa) matches Some(start) && is_definition(dfa, start, def),
    ensures
        trace_of(dfa, dfa_start(dfa)->0, input).last().2 == def.accepted_state_val
            <==> dfa_match_states(dfa).contains(trace_of(dfa, dfa_start(dfa)->0, input).last().2),
{
    let start = dfa_start(dfa)->0;
    let before = state_after(dfa, start, input, input.len());
    let last = trace_of(dfa, start, input).last().2;
    assert(last == eoi_step(dfa, before));
    lemma_state_after_reachable(dfa, start, input, input.len());
    if dfa_match_states(dfa).contains(last) {
        assert(accepts_from(dfa, before, last));
        assert(accept_candidates(dfa, start).contains(last));
    }
    if last == def.accepted_state_val {
        assert(accept_candidates(dfa, start).contains(def.accepted_state_val));
    }
}

/// Bytes of one class are interchangeable: from every state they lead to the
/// same state, and the definition holds one transition for them.
pub proof fn lemma_same_class_same_transition(dfa: DFA<Vec<u8>>, state: u64, b1: u8, b2: u8)
    requires
        class_of_byte(dfa, b1) == class_of_byte(dfa, b2),
    ensures
        byte_step(dfa, state, b1) == byte_step(dfa, state, b2),
        symbol_class(dfa, b1) == symbol_class(dfa, b2),
        row_for(dfa, state, Some(b1)) == row_for(dfa, state, Some(b2)),
{
}

/// The symbol classes that the transitions of an automaton use.
pub open spec fn classes_used(def: DFADef) -> Set<u8> {
    Set::new(|class: u8| exists|state: u64, next: u64| def.has(class, state, next))
}

/// An automaton uses at most 256 symbol classes.
pub proof fn lemma_classes_bounded(def: DFADef)
    ensures
        classes_used(def).finite(),
        classes_used(def).len() <= 256,
{
    let all = Seq::new(256, |i: int| i as u8);
    all.lemma_cardinality_of_set();
    assert(classes_used(def).subset_of(all.to_set())) by {
        assert forall|class: u8| classes_used(def).contains(class) implies all.to_set().contains(
            class,
        ) by {
            assert(all[class as int] == class);
        }
    }
    vstd::seq_lib::seq_to_set_is_finite(all);
    vstd::set_lib::lemma_len_subset(classes_used(def), all.to_set());
}

} // verus!
