use vstd::prelude::*;
use regex_automata::dfa::sparse::DFA;
use crate::automaton::build_dense;
use crate::automaton::byte_class;
use crate::automaton::byte_step;
use crate::automaton::class_of_byte;
use crate::automaton::built;
use crate::automaton::dfa_match_states;
use crate::automaton::dfa_start;
use crate::automaton::is_match_state;
use crate::automaton::eoi_step;
use crate::automaton::is_state;
use crate::automaton::next_eoi_state;
use crate::automaton::next_state;
use crate::automaton::to_sparse;
use crate::automaton::unanchored_start;
use crate::automaton::STATE_ID_MAX;
use crate::constants::END_CLASS;
use crate::constants::MAX_STATE;
use crate::constants::REST_STATE;
use crate::regex::DFADef;
use crate::regex::Step;
use crate::regex::Transition;

verus! {

/// Why there is no trace. The reason lies with the pattern or the
/// automaton, never with the input.
#[derive(Debug, Clone, Copy, PartialEq, Eq, Structural)]
pub enum TraceError {
    /// `regex_automata` builds no automaton for the pattern.
    PatternRejected,
    /// The automaton has no state to start an unanchored search in.
    NoStartState,
    /// The bytes fall into 256 classes, which leaves no class for the end of
    /// the input.
    TooManyClasses,
}

/// The automaton that `regex_automata` builds for a pattern, if it builds
/// one.
fn build(regex: &str) -> (r: Option<DFA<Vec<u8>>>)
    ensures
        r == built(regex@),
{
    match build_dense(regex) {
        Ok(dense) => match to_sparse(&dense) {
            Ok(dfa) => Some(dfa),
            Err(_) => None,
        },
        Err(_) => None,
    }
}

/// Whether the classes of the bytes leave one for the end of the input.
pub open spec fn alphabet_fits(dfa: DFA<Vec<u8>>) -> bool {
    forall|byte: u8| #[trigger] class_of_byte(dfa, byte) < 255
}

/// Whether the automaton can be run: it has a state to start an unanchored
/// search in, and its classes leave one for the end of the input.
pub open spec fn is_usable(dfa: DFA<Vec<u8>>) -> bool {
    dfa_start(dfa) is Some && alphabet_fits(dfa)
}

/// The automaton of a pattern that compiles: the minimized, unanchored,
/// leftmost-first automaton that `regex_automata` builds for it, where that
/// can be run. `None` where the pattern does not compile.
pub open spec fn compiled(pattern: Seq<char>) -> Option<DFA<Vec<u8>>> {
    match built(pattern) {
        Some(dfa) => if is_usable(dfa) {
            Some(dfa)
        } else {
            None
        },
        None => None,
    }
}

/// Why a pattern that does not compile has no trace.
pub open spec fn trace_refusal(pattern: Seq<char>) -> TraceError {
    match built(pattern) {
        None => TraceError::PatternRejected,
        Some(dfa) => if dfa_start(dfa) is None {
            TraceError::NoStartState
        } else {
            TraceError::TooManyClasses
        },
    }
}

/// The symbol class of a byte: the class that the automaton gives it, moved
/// up by one, past the class of the end of the input.
pub open spec fn symbol_class(dfa: DFA<Vec<u8>>, byte: u8) -> u8 {
    (class_of_byte(dfa, byte) + 1) as u8
}

/// The state after the first `i` bytes of the input.
pub open spec fn state_after(dfa: DFA<Vec<u8>>, start: u64, input: Seq<u8>, i: nat) -> u64
    decreases i,
{
    if i == 0 {
        start
    } else {
        byte_step(dfa, state_after(dfa, start, input, (i - 1) as nat), input[i - 1])
    }
}

/// The trace of an input: for each byte the byte, its symbol class and the
/// state before it; then the state after the last byte; then the state after
/// the end of the input.
pub open spec fn trace_of(dfa: DFA<Vec<u8>>, start: u64, input: Seq<u8>) -> Seq<Step> {
    Seq::new(
        input.len() + 2,
        |i: int|
            if i < input.len() {
                (input[i] as u16, symbol_class(dfa, input[i]), state_after(dfa, start, input, i as nat))
            } else if i == input.len() {
                (0u16, END_CLASS, state_after(dfa, start, input, input.len()))
            } else {
                (0u16, END_CLASS, eoi_step(dfa, state_after(dfa, start, input, input.len())))
            },
    )
}

/// What `traces_of` returns for an automaton and an input.
pub open spec fn traces_result(dfa: DFA<Vec<u8>>, input: Seq<u8>) -> Result<Seq<Step>, TraceError> {
    match dfa_start(dfa) {
        None => Err(TraceError::NoStartState),
        Some(start) => if alphabet_fits(dfa) {
            Ok(trace_of(dfa, start, input))
        } else {
            Err(TraceError::TooManyClasses)
        },
    }
}

/// The symbol classes of the 256 bytes, or `None` where some byte has the
/// class 255.
pub fn symbol_classes(dfa: &DFA<Vec<u8>>) -> (r: Option<Vec<u8>>)
    ensures
        r is Some <==> alphabet_fits(*dfa),
        r matches Some(classes) ==> classes@.len() == 256 && forall|byte: u8|
            classes@[byte as int] == #[trigger] symbol_class(*dfa, byte),
{
    let mut classes: Vec<u8> = Vec::new();
    let mut b: usize = 0;
    while b < 256
        invariant
            b <= 256,
            classes@.len() == b,
            forall|byte: u8| byte < b ==> #[trigger] class_of_byte(*dfa, byte) < 255,
            forall|byte: u8| byte < b ==> classes@[byte as int] == #[trigger] symbol_class(*dfa, byte),
        decreases 256 - b,
    {
        let class = byte_class(dfa, b as u8);
        if class == 255 {
            assert(class_of_byte(*dfa, b as u8) == 255);
            return None;
        }
        classes.push(class + 1);
        b += 1;
    }
    Some(classes)
}

/// Compiles a pattern into its automaton. `None` where the pattern does not
/// compile.
pub fn compile(regex: &str) -> (r: Option<DFA<Vec<u8>>>)
    ensures
        r == compiled(regex@),
{
    let dfa = match build(regex) {
        Some(dfa) => dfa,
        None => {
            return None;
        },
    };
    if unanchored_start(&dfa).is_none() {
        return None;
    }
    if symbol_classes(&dfa).is_none() {
        return None;
    }
    Some(dfa)
}

/// Replays the input through the automaton. An automaton that can be run
/// has a trace for every input.
pub fn traces_of(dfa: &DFA<Vec<u8>>, input: &[u8]) -> (r: Result<Vec<Step>, TraceError>)
    ensures
        r is Ok <==> is_usable(*dfa),
        match r {
            Ok(traces) => traces_result(*dfa, input@) == Ok::<Seq<Step>, TraceError>(traces@),
            Err(e) => traces_result(*dfa, input@) == Err::<Seq<Step>, TraceError>(e),
        },
{
    let start = match unanchored_start(dfa) {
        Some(start) => start,
        None => { return Err(TraceError::NoStartState); },
    };
    let classes = match symbol_classes(dfa) {
        Some(classes) => classes,
        None => { return Err(TraceError::TooManyClasses); },
    };
    let mut traces: Vec<Step> = Vec::new();
    let mut state = start;
    let mut i: usize = 0;
    while i < input.len()
        invariant
            i <= input@.len(),
            classes@.len() == 256,
            forall|byte: u8| classes@[byte as int] == #[trigger] symbol_class(*dfa, byte),
            is_state(*dfa, state),
            state == state_after(*dfa, start, input@, i as nat),
            traces@.len() == i,
            forall|j: int| 0 <= j < i ==> traces@[j] == trace_of(*dfa, start, input@)[j],
        decreases input@.len() - i,
    {
        let b = input[i];
        traces.push((b as u16, classes[b as usize], state));
        state = next_state(dfa, state, b);
        i += 1;
    }
    traces.push((0, END_CLASS, state));
    state = next_eoi_state(dfa, state);
    traces.push((0, END_CLASS, state));
    assert(traces@ =~= trace_of(*dfa, start, input@));
    Ok(traces)
}

/// Compiles the pattern and replays the input through its automaton. A
/// pattern that compiles has a trace for every input.
pub fn gen_traces(regex: &str, input: &[u8]) -> (r: Result<Vec<Step>, TraceError>)
    ensures
        match compiled(regex@) {
            Some(dfa) => r matches Ok(traces) && traces@ == trace_of(
                dfa,
                dfa_start(dfa)->0,
                input@,
            ),
            None => r == Err::<Vec<Step>, TraceError>(trace_refusal(regex@)),
        },
{
    match build(regex) {
        Some(dfa) => traces_of(&dfa, input),
        None => Err(TraceError::PatternRejected),
    }
}

/// Why a pattern has no definition.
#[derive(Debug, Clone, Copy, PartialEq, Eq, Structural)]
pub enum PatternCompileError {
    /// `regex_automata` builds no automaton for the pattern.
    Rejected,
    /// The automaton has no state to start an unanchored search in.
    NoStartState,
    /// The bytes fall into 256 classes, which leaves no class for the end of
    /// the input.
    TooManyClasses,
    /// No state that can be reached goes to a match state at the end of the
    /// input: the pattern matches nothing.
    NoAcceptState,
    /// The end of the input leads to more than one match state.
    SeveralAcceptStates,
    /// The accepting state does not go to rest at the end of the input.
    AcceptStateNotFinal,
}

/// The state that follows `state` on a symbol: a byte, or the end of the
/// input.
pub open spec fn symbol_step(dfa: DFA<Vec<u8>>, state: u64, symbol: Option<u8>) -> u64 {
    match symbol {
        Some(byte) => byte_step(dfa, state, byte),
        None => eoi_step(dfa, state),
    }
}

/// The symbol class of a symbol.
pub open spec fn class_of_symbol(dfa: DFA<Vec<u8>>, symbol: Option<u8>) -> u8 {
    match symbol {
        Some(byte) => symbol_class(dfa, byte),
        None => END_CLASS,
    }
}

/// The transition that leaves `state` on `symbol`.
pub open spec fn row_for(dfa: DFA<Vec<u8>>, state: u64, symbol: Option<u8>) -> Transition {
    (class_of_symbol(dfa, symbol), state, symbol_step(dfa, state, symbol))
}

/// The state after a word of symbols.
pub open spec fn walk(dfa: DFA<Vec<u8>>, start: u64, word: Seq<Option<u8>>) -> u64
    decreases word.len(),
{
    if word.len() == 0 {
        start
    } else {
        symbol_step(dfa, walk(dfa, start, word.drop_last()), word.last())
    }
}

/// Whether some word of symbols leads from `start` to `state`.
pub open spec fn reachable(dfa: DFA<Vec<u8>>, start: u64, state: u64) -> bool {
    exists|word: Seq<Option<u8>>| #[trigger] walk(dfa, start, word) == state
}

/// Whether `t` is the transition that leaves its state on some symbol.
pub open spec fn is_row(dfa: DFA<Vec<u8>>, t: Transition) -> bool {
    exists|symbol: Option<u8>| t == #[trigger] row_for(dfa, t.1, symbol)
}

/// The transitions of a definition: those that leave a state that can be
/// reached from `start`.
pub open spec fn definition_rows(dfa: DFA<Vec<u8>>, start: u64) -> Set<Transition> {
    Set::new(|t: Transition| reachable(dfa, start, t.1) && is_row(dfa, t))
}

/// Whether the end of the input leads from `state` to the match state
/// `accept`.
pub open spec fn accepts_from(dfa: DFA<Vec<u8>>, state: u64, accept: u64) -> bool {
    dfa_match_states(dfa).contains(accept) && eoi_step(dfa, state) == accept
}

/// The match states to which the end of the input leads from a state that
/// can be reached.
pub open spec fn accept_candidates(dfa: DFA<Vec<u8>>, start: u64) -> Set<u64> {
    Set::new(
        |accept: u64|
            exists|state: u64| #[trigger]
                reachable(dfa, start, state) && accepts_from(dfa, state, accept),
    )
}

/// Whether the end of the input leads to more than one match state.
pub open spec fn has_several_accept_states(dfa: DFA<Vec<u8>>, start: u64) -> bool {
    exists|a1: u64, a2: u64|
        a1 != a2 && #[trigger] accept_candidates(dfa, start).contains(a1)
            && #[trigger] accept_candidates(dfa, start).contains(a2)
}

/// Whether `def` is the definition of the automaton.
pub open spec fn is_definition(dfa: DFA<Vec<u8>>, start: u64, def: DFADef) -> bool {
    &&& def.first_state_val == start
    &&& def.state_lookup@ =~= definition_rows(dfa, start)
    &&& accept_candidates(dfa, start) =~= set![def.accepted_state_val]
    &&& eoi_step(dfa, def.accepted_state_val) == REST_STATE
    &&& def.below_dummy()
}

/// Whether the automaton has no definition for the reason `e`.
pub open spec fn is_refused(dfa: DFA<Vec<u8>>, e: PatternCompileError) -> bool {
    match dfa_start(dfa) {
        None => e == PatternCompileError::NoStartState,
        Some(start) => if !alphabet_fits(dfa) {
            e == PatternCompileError::TooManyClasses
        } else if accept_candidates(dfa, start) =~= Set::<u64>::empty() {
            e == PatternCompileError::NoAcceptState
        } else if has_several_accept_states(dfa, start) {
            e == PatternCompileError::SeveralAcceptStates
        } else {
            &&& e == PatternCompileError::AcceptStateNotFinal
            &&& exists|accept: u64| #[trigger]
                accept_candidates(dfa, start).contains(accept) && eoi_step(dfa, accept) != REST_STATE
        },
    }
}

/// Whether `r` is what `definition_of` returns for the automaton.
pub open spec fn is_definition_of(dfa: DFA<Vec<u8>>, r: Result<DFADef, PatternCompileError>) -> bool {
    match r {
        Ok(def) => dfa_start(dfa) matches Some(start) && alphabet_fits(dfa) && is_definition(
            dfa,
            start,
            def,
        ),
        Err(e) => is_refused(dfa, e),
    }
}

/// Whether `state` is among the first `limit` states of `seen`.
spec fn found_before(seen: Seq<u64>, limit: int, state: u64) -> bool {
    exists|k: int| 0 <= k < limit && k < seen.len() && #[trigger] seen[k] == state
}

/// Every state found is a state of the automaton that can be reached.
spec fn states_sound(dfa: DFA<Vec<u8>>, start: u64, seen: Seq<u64>) -> bool {
    forall|k: int|
        0 <= k < seen.len() ==> is_state(dfa, #[trigger] seen[k]) && seen[k] <= STATE_ID_MAX
            && reachable(dfa, start, seen[k])
}

/// Every transition written leaves one of the first `limit` states found, is
/// one of the automaton, and enters a state found.
spec fn rows_sound(dfa: DFA<Vec<u8>>, seen: Seq<u64>, limit: int, rows: Set<Transition>) -> bool {
    forall|t: Transition| #[trigger]
        rows.contains(t) ==> found_before(seen, limit, t.1) && is_row(dfa, t) && seen.contains(t.2)
}

/// Every transition that leaves `state` is written.
spec fn state_covered(dfa: DFA<Vec<u8>>, state: u64, rows: Set<Transition>) -> bool {
    forall|symbol: Option<u8>| rows.contains(#[trigger] row_for(dfa, state, symbol))
}

/// What holds while the states are gone through: the first `head` states
/// found are done.
spec fn explored(
    dfa: DFA<Vec<u8>>,
    start: u64,
    seen: Seq<u64>,
    head: int,
    rows: Set<Transition>,
) -> bool {
    &&& 0 <= head <= seen.len()
    &&& seen.len() >= 1
    &&& seen[0] == start
    &&& seen.no_duplicates()
    &&& states_sound(dfa, start, seen)
    &&& rows_sound(dfa, seen, head, rows)
    &&& forall|k: int| 0 <= k < head ==> state_covered(dfa, #[trigger] seen[k], rows)
}

/// A state that follows one that can be reached can be reached.
pub proof fn lemma_reachable_step(dfa: DFA<Vec<u8>>, start: u64, state: u64, symbol: Option<u8>)
    requires
        reachable(dfa, start, state),
    ensures
        reachable(dfa, start, symbol_step(dfa, state, symbol)),
{
    let word = choose|word: Seq<Option<u8>>| #[trigger] walk(dfa, start, word) == state;
    let longer = word.push(symbol);
    assert(longer.drop_last() =~= word);
    assert(walk(dfa, start, longer) == symbol_step(dfa, state, symbol));
}

/// States that differ and do not exceed `max` are at most `max + 1`.
proof fn lemma_distinct_bounded(s: Seq<u64>, max: u64)
    requires
        s.no_duplicates(),
        forall|k: int| 0 <= k < s.len() ==> s[k] <= max,
    ensures
        s.len() <= max + 1,
{
    let t = s.map_values(|x: u64| x as int);
    assert(t.no_duplicates());
    t.unique_seq_to_set();
    vstd::set_lib::lemma_int_range(0, max + 1);
    assert(t.to_set().subset_of(vstd::set_lib::set_int_range(0, max + 1))) by {
        assert forall|x: int| t.to_set().contains(x) implies vstd::set_lib::set_int_range(
            0,
            max + 1,
        ).contains(x) by {
            let k = choose|k: int| 0 <= k < t.len() && t[k] == x;
            assert(t[k] == s[k] as int);
        }
    }
    vstd::set_lib::lemma_len_subset(t.to_set(), vstd::set_lib::set_int_range(0, max + 1));
}

/// Adds a state to those found, unless it is among them.
fn note(seen: &mut Vec<u64>, state: u64)
    requires
        old(seen)@.no_duplicates(),
    ensures
        final(seen)@.no_duplicates(),
        final(seen)@.contains(state),
        old(seen)@.len() <= final(seen)@.len(),
        forall|k: int| 0 <= k < old(seen)@.len() ==> final(seen)@[k] == old(seen)@[k],
        forall|k: int| old(seen)@.len() <= k < final(seen)@.len() ==> final(seen)@[k] == state,
{
    let mut i: usize = 0;
    while i < seen.len()
        invariant
            i <= seen@.len(),
            seen@ == old(seen)@,
            seen@.no_duplicates(),
            forall|j: int| 0 <= j < i ==> seen@[j] != state,
        decreases seen@.len() - i,
    {
        if seen[i] == state {
            return;
        }
        i += 1;
    }
    seen.push(state);
    assert(seen@[seen@.len() - 1] == state);
}

/// What holds while the transitions that leave the state at `head` are
/// written.
spec fn expanding(
    dfa: DFA<Vec<u8>>,
    start: u64,
    seen: Seq<u64>,
    head: int,
    rows: Set<Transition>,
) -> bool {
    &&& 0 <= head < seen.len()
    &&& seen[0] == start
    &&& seen.no_duplicates()
    &&& states_sound(dfa, start, seen)
    &&& rows_sound(dfa, seen, head + 1, rows)
    &&& forall|k: int| 0 <= k < head ==> state_covered(dfa, #[trigger] seen[k], rows)
}

/// Whether `longer` is `seen` with nothing or `state` behind it.
spec fn extends_by(seen: Seq<u64>, longer: Seq<u64>, state: u64) -> bool {
    &&& seen.len() <= longer.len()
    &&& forall|k: int| 0 <= k < seen.len() ==> longer[k] == seen[k]
    &&& forall|k: int| seen.len() <= k < longer.len() ==> longer[k] == state
    &&& longer.contains(state)
    &&& longer.no_duplicates()
}

/// Writing one transition that leaves the state at `head`, once the state it
/// enters is found, keeps what holds.
proof fn lemma_expand_step(
    dfa: DFA<Vec<u8>>,
    start: u64,
    seen: Seq<u64>,
    longer: Seq<u64>,
    head: int,
    rows: Set<Transition>,
    symbol: Option<u8>,
)
    requires
        expanding(dfa, start, seen, head, rows),
        extends_by(seen, longer, symbol_step(dfa, seen[head], symbol)),
        is_state(dfa, symbol_step(dfa, seen[head], symbol)),
        symbol_step(dfa, seen[head], symbol) <= STATE_ID_MAX,
    ensures
        expanding(dfa, start, longer, head, rows.insert(row_for(dfa, seen[head], symbol))),
{
    let state = seen[head];
    let next = symbol_step(dfa, state, symbol);
    let row = row_for(dfa, state, symbol);
    let more = rows.insert(row);
    lemma_reachable_step(dfa, start, state, symbol);
    assert forall|k: int| 0 <= k < longer.len() implies is_state(dfa, #[trigger] longer[k])
        && longer[k] <= STATE_ID_MAX && reachable(dfa, start, longer[k]) by {
        if k < seen.len() {
            assert(longer[k] == seen[k]);
        }
    }
    assert forall|t: Transition| #[trigger] more.contains(t) implies found_before(longer, head + 1, t.1)
        && is_row(dfa, t) && longer.contains(t.2) by {
        if t == row {
            assert(longer[head] == state);
        } else {
            assert(rows.contains(t));
            let k = choose|k: int| 0 <= k < head + 1 && k < seen.len() && #[trigger] seen[k] == t.1;
            assert(longer[k] == t.1);
            let j = choose|j: int| 0 <= j < seen.len() && seen[j] == t.2;
            assert(longer[j] == t.2);
        }
    }
    assert forall|k: int| 0 <= k < head implies state_covered(dfa, #[trigger] longer[k], more) by {
        assert(longer[k] == seen[k]);
        assert(state_covered(dfa, seen[k], rows));
    }
}

/// Writes the transitions that leave the state at `head`, and adds the
/// states that they enter to those found. Returns the state that follows at
/// the end of the input.
fn expand(
    dfa: &DFA<Vec<u8>>,
    classes: &Vec<u8>,
    def: &mut DFADef,
    seen: &mut Vec<u64>,
    head: usize,
    Ghost(start): Ghost<u64>,
) -> (end: u64)
    requires
        explored(*dfa, start, old(seen)@, head as int, old(def).state_lookup@),
        head < old(seen)@.len(),
        alphabet_fits(*dfa),
        classes@.len() == 256,
        forall|byte: u8| classes@[byte as int] == #[trigger] symbol_class(*dfa, byte),
    ensures
        explored(*dfa, start, final(seen)@, head + 1, final(def).state_lookup@),
        final(def).first_state_val == old(def).first_state_val,
        final(def).accepted_state_val == old(def).accepted_state_val,
        old(seen)@.len() <= final(seen)@.len(),
        forall|k: int| 0 <= k < old(seen)@.len() ==> final(seen)@[k] == old(seen)@[k],
        end == eoi_step(*dfa, old(seen)@[head as int]),
        is_state(*dfa, end),
{
    let state = seen[head];
    assert(expanding(*dfa, start, seen@, head as int, def.state_lookup@)) by {
        assert forall|t: Transition| #[trigger] def.state_lookup@.contains(t) implies found_before(
            seen@,
            head + 1,
            t.1,
        ) by {
            let k = choose|k: int| 0 <= k < head && k < seen@.len() && #[trigger] seen@[k] == t.1;
            assert(seen@[k] == t.1);
        }
    }
    let end = next_eoi_state(dfa, state);
    let ghost before = seen@;
    let ghost rows = def.state_lookup@;
    note(seen, end);
    def.insert(END_CLASS, state, end);
    proof {
        lemma_expand_step(*dfa, start, before, seen@, head as int, rows, None);
    }
    let mut b: usize = 0;
    while b < 256
        invariant
            b <= 256,
            classes@.len() == 256,
            forall|byte: u8| classes@[byte as int] == #[trigger] symbol_class(*dfa, byte),
            expanding(*dfa, start, seen@, head as int, def.state_lookup@),
            seen@[head as int] == state,
            old(seen)@.len() <= seen@.len(),
            forall|k: int| 0 <= k < old(seen)@.len() ==> seen@[k] == old(seen)@[k],
            def.first_state_val == old(def).first_state_val,
            def.accepted_state_val == old(def).accepted_state_val,
            def.state_lookup@.contains(row_for(*dfa, state, None)),
            forall|byte: u8|
                byte < b ==> def.state_lookup@.contains(#[trigger] row_for(*dfa, state, Some(byte))),
        decreases 256 - b,
    {
        let byte = b as u8;
        let next = next_state(dfa, state, byte);
        let ghost before = seen@;
        let ghost rows = def.state_lookup@;
        note(seen, next);
        def.insert(classes[b], state, next);
        proof {
            lemma_expand_step(*dfa, start, before, seen@, head as int, rows, Some(byte));
            assert(row_for(*dfa, state, Some(byte)) == (classes@[b as int], state, next));
        }
        b += 1;
    }
    proof {
        assert forall|symbol: Option<u8>|
            def.state_lookup@.contains(#[trigger] row_for(*dfa, state, symbol)) by {
            match symbol {
                Some(byte) => {
                    assert(byte < 256);
                },
                None => {},
            }
        }
        assert(state_covered(*dfa, seen@[head as int], def.state_lookup@));
    }
    end
}

/// Once every state found is done, the states found are those that can be
/// reached.
proof fn lemma_walk_found(
    dfa: DFA<Vec<u8>>,
    start: u64,
    seen: Seq<u64>,
    rows: Set<Transition>,
    word: Seq<Option<u8>>,
)
    requires
        explored(dfa, start, seen, seen.len() as int, rows),
    ensures
        seen.contains(walk(dfa, start, word)),
    decreases word.len(),
{
    if word.len() == 0 {
        assert(seen[0] == start);
    } else {
        lemma_walk_found(dfa, start, seen, rows, word.drop_last());
        let prev = walk(dfa, start, word.drop_last());
        let k = choose|k: int| 0 <= k < seen.len() && seen[k] == prev;
        assert(state_covered(dfa, seen[k], rows));
        let row = row_for(dfa, prev, word.last());
        assert(rows.contains(row));
    }
}

/// Once every state found is done, the transitions written are those of the
/// definition.
proof fn lemma_explored_all(dfa: DFA<Vec<u8>>, start: u64, seen: Seq<u64>, rows: Set<Transition>)
    requires
        explored(dfa, start, seen, seen.len() as int, rows),
    ensures
        rows =~= definition_rows(dfa, start),
        forall|state: u64| reachable(dfa, start, state) ==> seen.contains(state),
{
    assert forall|state: u64| reachable(dfa, start, state) implies seen.contains(state) by {
        let word = choose|word: Seq<Option<u8>>| #[trigger] walk(dfa, start, word) == state;
        lemma_walk_found(dfa, start, seen, rows, word);
    }
    assert forall|t: Transition| rows.contains(t) implies definition_rows(dfa, start).contains(t) by {
        let k = choose|k: int| 0 <= k < seen.len() && #[trigger] seen[k] == t.1;
        assert(reachable(dfa, start, seen[k]));
    }
    assert forall|t: Transition| definition_rows(dfa, start).contains(t) implies rows.contains(t) by {
        assert(reachable(dfa, start, t.1));
        assert(seen.contains(t.1));
        let k = choose|k: int| 0 <= k < seen.len() && seen[k] == t.1;
        assert(state_covered(dfa, seen[k], rows));
        let symbol = choose|symbol: Option<u8>| t == #[trigger] row_for(dfa, t.1, symbol);
        assert(rows.contains(row_for(dfa, seen[k], symbol)));
    }
}

/// A state and a symbol class decide the next state in the transitions of a
/// definition.
pub proof fn lemma_rows_deterministic(dfa: DFA<Vec<u8>>, start: u64, t1: Transition, t2: Transition)
    requires
        alphabet_fits(dfa),
        definition_rows(dfa, start).contains(t1),
        definition_rows(dfa, start).contains(t2),
        t1.0 == t2.0,
        t1.1 == t2.1,
    ensures
        t1.2 == t2.2,
{
    let s1 = choose|symbol: Option<u8>| t1 == #[trigger] row_for(dfa, t1.1, symbol);
    let s2 = choose|symbol: Option<u8>| t2 == #[trigger] row_for(dfa, t2.1, symbol);
    match (s1, s2) {
        (Some(b1), Some(b2)) => {
            assert(class_of_byte(dfa, b1) < 255);
            assert(class_of_byte(dfa, b2) < 255);
        },
        (Some(b1), None) => {
            assert(class_of_byte(dfa, b1) < 255);
        },
        (None, Some(b2)) => {
            assert(class_of_byte(dfa, b2) < 255);
        },
        (None, None) => {},
    }
}

/// Two match states to which the end of the input leads leave the automaton
/// without a definition.
proof fn lemma_several_accept_states(dfa: DFA<Vec<u8>>, start: u64, a1: u64, a2: u64)
    requires
        dfa_start(dfa) == Some(start),
        alphabet_fits(dfa),
        a1 != a2,
        accept_candidates(dfa, start).contains(a1),
        accept_candidates(dfa, start).contains(a2),
    ensures
        is_definition_of(dfa, Err(PatternCompileError::SeveralAcceptStates)),
{
    assert(has_several_accept_states(dfa, start));
}

/// An accepting state that does not go to rest leaves the automaton without
/// a definition.
proof fn lemma_accept_state_not_final(dfa: DFA<Vec<u8>>, start: u64, accept: u64)
    requires
        dfa_start(dfa) == Some(start),
        alphabet_fits(dfa),
        accept_candidates(dfa, start) =~= set![accept],
        eoi_step(dfa, accept) != REST_STATE,
    ensures
        is_definition_of(dfa, Err(PatternCompileError::AcceptStateNotFinal)),
{
    assert(accept_candidates(dfa, start).contains(accept));
    assert(!has_several_accept_states(dfa, start));
}

/// The definition of an automaton: the transitions that leave the states
/// that can be reached from its start state, the start state, and the one
/// match state to which the end of the input leads.
pub fn definition_of(dfa: &DFA<Vec<u8>>) -> (r: Result<DFADef, PatternCompileError>)
    ensures
        is_definition_of(*dfa, r),
        r matches Ok(def) ==> def.is_deterministic(),
{
    let start = match unanchored_start(dfa) {
        Some(start) => start,
        None => {
            return Err(PatternCompileError::NoStartState);
        },
    };
    let classes = match symbol_classes(dfa) {
        Some(classes) => classes,
        None => {
            return Err(PatternCompileError::TooManyClasses);
        },
    };
    let mut def = DFADef::new(start, 0);
    let mut seen: Vec<u64> = Vec::new();
    seen.push(start);
    let mut accept: Option<u64> = None;
    let mut head: usize = 0;
    proof {
        assert(walk(*dfa, start, Seq::<Option<u8>>::empty()) == start);
        assert(reachable(*dfa, start, start));
    }
    while head < seen.len()
        invariant
            dfa_start(*dfa) == Some(start),
            alphabet_fits(*dfa),
            classes@.len() == 256,
            forall|byte: u8| classes@[byte as int] == #[trigger] symbol_class(*dfa, byte),
            explored(*dfa, start, seen@, head as int, def.state_lookup@),
            def.first_state_val == start,
            accept matches Some(a) ==> is_state(*dfa, a) && exists|k: int|
                0 <= k < head && accepts_from(*dfa, #[trigger] seen@[k], a),
            forall|k: int|
                0 <= k < head && dfa_match_states(*dfa).contains(eoi_step(*dfa, #[trigger] seen@[k]))
                    ==> accept == Some(eoi_step(*dfa, seen@[k])),
        decreases STATE_ID_MAX + 1 - head,
    {
        proof {
            lemma_distinct_bounded(seen@, STATE_ID_MAX);
        }
        let ghost before = seen@;
        let end = expand(dfa, &classes, &mut def, &mut seen, head, Ghost(start));
        if is_match_state(dfa, end) {
            match accept {
                None => {
                    accept = Some(end);
                },
                Some(a) => {
                    if a != end {
                        proof {
                            let k = choose|k: int|
                                0 <= k < head && accepts_from(*dfa, #[trigger] before[k], a);
                            assert(seen@[k] == before[k]);
                            assert(reachable(*dfa, start, seen@[k]));
                            assert(accept_candidates(*dfa, start).contains(a));
                            assert(reachable(*dfa, start, seen@[head as int]));
                            assert(accepts_from(*dfa, seen@[head as int], end));
                            assert(accept_candidates(*dfa, start).contains(end));
                            lemma_several_accept_states(*dfa, start, a, end);
                        }
                        return Err(PatternCompileError::SeveralAcceptStates);
                    }
                },
            }
            assert(accepts_from(*dfa, seen@[head as int], end));
        }
        head += 1;
    }
    proof {
        lemma_explored_all(*dfa, start, seen@, def.state_lookup@);
    }
    let a = match accept {
        Some(a) => a,
        None => {
            proof {
                assert forall|c: u64| !accept_candidates(*dfa, start).contains(c) by {
                    if accept_candidates(*dfa, start).contains(c) {
                        let state = choose|state: u64| #[trigger]
                            reachable(*dfa, start, state) && accepts_from(*dfa, state, c);
                        assert(seen@.contains(state));
                        let k = choose|k: int| 0 <= k < seen@.len() && seen@[k] == state;
                        assert(dfa_match_states(*dfa).contains(eoi_step(*dfa, seen@[k])));
                    }
                }
            }
            return Err(PatternCompileError::NoAcceptState);
        },
    };
    proof {
        assert forall|c: u64| accept_candidates(*dfa, start).contains(c) implies c == a by {
            let state = choose|state: u64| #[trigger]
                reachable(*dfa, start, state) && accepts_from(*dfa, state, c);
            assert(seen@.contains(state));
            let k = choose|k: int| 0 <= k < seen@.len() && seen@[k] == state;
            assert(dfa_match_states(*dfa).contains(eoi_step(*dfa, seen@[k])));
        }
        let k = choose|k: int| 0 <= k < head && accepts_from(*dfa, #[trigger] seen@[k], a);
        assert(reachable(*dfa, start, seen@[k]));
        assert(accept_candidates(*dfa, start).contains(a));
        assert(accept_candidates(*dfa, start) =~= set![a]);
    }
    let rest = next_eoi_state(dfa, a);
    if rest != REST_STATE {
        proof {
            lemma_accept_state_not_final(*dfa, start, a);
        }
        return Err(PatternCompileError::AcceptStateNotFinal);
    }
    def.accepted_state_val = a;
    proof {
        assert forall|class: u8, state: u64, next: u64| #[trigger]
            def.has(class, state, next) implies state != MAX_STATE by {
            let k = choose|k: int| 0 <= k < seen@.len() && #[trigger] seen@[k] == state;
            assert(seen@[k] <= STATE_ID_MAX);
        }
        assert forall|class: u8, state: u64, n1: u64, n2: u64|
            def.has(class, state, n1) && def.has(class, state, n2) implies n1 == n2 by {
            lemma_rows_deterministic(*dfa, start, (class, state, n1), (class, state, n2));
        }
    }
    Ok(def)
}

/// Compiles the pattern and gives the definition of its automaton.
pub fn gen_regex_dfa_def(regex: &str) -> (r: Result<DFADef, PatternCompileError>)
    ensures
        match built(regex@) {
            None => r matches Err(e) && e == PatternCompileError::Rejected,
            Some(dfa) => is_definition_of(dfa, r),
        },
        r matches Ok(def) ==> compiled(regex@) is Some && def.is_deterministic(),
{
    match build(regex) {
        Some(dfa) => definition_of(&dfa),
        None => Err(PatternCompileError::Rejected),
    }
}

} // verus!
