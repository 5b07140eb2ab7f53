use vstd::prelude::*;
use regex_automata::dfa::dense;
use regex_automata::dfa::dense::BuildError;
use regex_automata::dfa::sparse::DFA;
use regex_automata::dfa::Automaton;
use regex_automata::util::primitives::StateID;

verus! {

/// The sparse automaton of `regex_automata`. Nothing inside it is visible
/// here: what it holds is named below.
#[verifier::external_type_specification]
#[verifier::external_body]
#[verifier::reject_recursive_types(T)]
pub struct ExSparseDfa<T>(DFA<T>);

/// The dense automaton of `regex_automata`, from which the sparse one is
/// made.
#[verifier::external_type_specification]
#[verifier::external_body]
#[verifier::reject_recursive_types(T)]
pub struct ExDenseDfa<T>(dense::DFA<T>);

/// The error with which `regex_automata` refuses a pattern.
#[verifier::external_type_specification]
#[verifier::external_body]
pub struct ExBuildError(BuildError);

/// The largest identifier that `regex_automata` gives to a state.
pub const STATE_ID_MAX: u64 = 0x7FFF_FFFE;

/// The equivalence class of each of the 256 bytes.
pub uninterp spec fn dfa_byte_classes(dfa: DFA<Vec<u8>>) -> Seq<u8>;

/// The next state for each state and each class of bytes.
pub uninterp spec fn dfa_transitions(dfa: DFA<Vec<u8>>) -> Map<(u64, u8), u64>;

/// The next state for each state at the end of the input. Its domain is the
/// set of the automaton's states.
pub uninterp spec fn dfa_eoi_transitions(dfa: DFA<Vec<u8>>) -> Map<u64, u64>;

/// The match states.
pub uninterp spec fn dfa_match_states(dfa: DFA<Vec<u8>>) -> Set<u64>;

/// The state in which an unanchored search starts at the beginning of a
/// haystack, where the automaton has one.
pub uninterp spec fn dfa_start(dfa: DFA<Vec<u8>>) -> Option<u64>;

/// The dense automaton that `regex_automata` builds for a pattern:
/// minimized, unanchored, leftmost-first. `None` where it refuses the
/// pattern.
pub uninterp spec fn dense_automaton(pattern: Seq<char>) -> Option<dense::DFA<Vec<u32>>>;

/// The sparse automaton that `regex_automata` makes of a dense one. `None`
/// where it cannot.
pub uninterp spec fn sparse_automaton(dense: dense::DFA<Vec<u32>>) -> Option<DFA<Vec<u8>>>;

/// The sparse automaton that `regex_automata` builds for a pattern. `None`
/// where it builds none.
pub open spec fn built(pattern: Seq<char>) -> Option<DFA<Vec<u8>>> {
    match dense_automaton(pattern) {
        Some(dense) => sparse_automaton(dense),
        None => None,
    }
}

/// Whether `state` is a state of the automaton.
pub open spec fn is_state(dfa: DFA<Vec<u8>>, state: u64) -> bool {
    dfa_eoi_transitions(dfa).dom().contains(state)
}

/// The equivalence class of a byte.
pub open spec fn class_of_byte(dfa: DFA<Vec<u8>>, byte: u8) -> u8 {
    dfa_byte_classes(dfa)[byte as int]
}

/// The state that follows `state` on `byte`.
pub open spec fn byte_step(dfa: DFA<Vec<u8>>, state: u64, byte: u8) -> u64 {
    dfa_transitions(dfa)[(state, class_of_byte(dfa, byte))]
}

/// The state that follows `state` at the end of the input.
pub open spec fn eoi_step(dfa: DFA<Vec<u8>>, state: u64) -> u64 {
    dfa_eoi_transitions(dfa)[state]
}

/// Calls `dense::Builder::build` of `regex_automata`, with minimization, an
/// unanchored start, one start for all patterns, specialized start states
/// and leftmost-first matching. The contract claims that the outcome depends
/// on the pattern alone.
#[verifier::external_body]
pub(crate) fn build_dense(regex: &str) -> (r: Result<dense::DFA<Vec<u32>>, BuildError>)
    ensures
        match r {
            Ok(dfa) => dense_automaton(regex@) == Some(dfa),
            Err(_) => dense_automaton(regex@) is None,
        },
{
    dense::Builder::new()
        .configure(
            dense::Config::new()
                .minimize(true)
                .start_kind(regex_automata::dfa::StartKind::Unanchored)
                .starts_for_each_pattern(false)
                .specialize_start_states(true)
                .match_kind(regex_automata::MatchKind::LeftmostFirst),
        )
        .build(regex)
}

/// Calls `dense::DFA::to_sparse` of `regex_automata`. The contract claims
/// that the outcome depends on the dense automaton alone.
#[verifier::external_body]
pub(crate) fn to_sparse(dfa: &dense::DFA<Vec<u32>>) -> (r: Result<DFA<Vec<u8>>, BuildError>)
    ensures
        match r {
            Ok(sparse) => sparse_automaton(*dfa) == Some(sparse),
            Err(_) => sparse_automaton(*dfa) is None,
        },
{
    dfa.to_sparse()
}

/// Calls `Automaton::start_state_forward` of `regex_automata` on an empty
/// haystack. The contract claims that the outcome depends on the automaton
/// alone, and that a start state is a state whose identifier is at most
/// `STATE_ID_MAX`.
#[verifier::external_body]
pub(crate) fn unanchored_start(dfa: &DFA<Vec<u8>>) -> (r: Option<u64>)
    ensures
        r == dfa_start(*dfa),
        r matches Some(state) ==> dfa_eoi_transitions(*dfa).dom().contains(state) && state
            <= STATE_ID_MAX,
{
    match dfa.start_state_forward(&regex_automata::Input::new("")) {
        Ok(id) => Some(id.as_u64()),
        Err(_) => None,
    }
}

/// Calls `Automaton::next_state` of `regex_automata`. The contract claims
/// that the next state depends on the state and on the class of the byte
/// alone, and that it is a state whose identifier is at most `STATE_ID_MAX`.
#[verifier::external_body]
pub(crate) fn next_state(dfa: &DFA<Vec<u8>>, state: u64, byte: u8) -> (r: u64)
    requires
        is_state(*dfa, state),
    ensures
        r == dfa_transitions(*dfa)[(state, dfa_byte_classes(*dfa)[byte as int])],
        dfa_eoi_transitions(*dfa).dom().contains(r),
        r <= STATE_ID_MAX,
{
    dfa.next_state(StateID::new_unchecked(state as usize), byte).as_u64()
}

/// Calls `Automaton::next_eoi_state` of `regex_automata`. The contract claims
/// that the next state depends on the state alone, and that it is a state
/// whose identifier is at most `STATE_ID_MAX`.
#[verifier::external_body]
pub(crate) fn next_eoi_state(dfa: &DFA<Vec<u8>>, state: u64) -> (r: u64)
    requires
        is_state(*dfa, state),
    ensures
        r == dfa_eoi_transitions(*dfa)[state],
        dfa_eoi_transitions(*dfa).dom().contains(r),
        r <= STATE_ID_MAX,
{
    dfa.next_eoi_state(StateID::new_unchecked(state as usize)).as_u64()
}

/// Calls `ByteClasses::get` of `regex_automata` on the classes of the
/// automaton.
#[verifier::external_body]
pub(crate) fn byte_class(dfa: &DFA<Vec<u8>>, byte: u8) -> (r: u8)
    ensures
        r == dfa_byte_classes(*dfa)[byte as int],
{
    dfa.byte_classes().get(byte)
}

/// Calls `Automaton::is_match_state` of `regex_automata`.
#[verifier::external_body]
pub(crate) fn is_match_state(dfa: &DFA<Vec<u8>>, state: u64) -> (r: bool)
    requires
        is_state(*dfa, state),
    ensures
        r == dfa_match_states(*dfa).contains(state),
{
    dfa.is_match_state(StateID::new_unchecked(state as usize))
}

} // verus!
