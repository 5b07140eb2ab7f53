use regex_automata::dfa::dense::{Builder, Config};
use regex_automata::dfa::sparse::DFA;
use regex_automata::dfa::StartKind;
use regex_automata::meta::Regex;
use zkregex::constants::MAX_STATE;
use zkregex::dfa::compile;
use zkregex::dfa::definition_of;
use zkregex::dfa::gen_regex_dfa_def;
use zkregex::dfa::gen_traces;
use zkregex::dfa::symbol_classes;
use zkregex::dfa::traces_of;
use zkregex::dfa::PatternCompileError;
use zkregex::dfa::TraceError;
use zkregex::regex::assemble;

fn sparse(config: Config, pattern: &str) -> DFA<Vec<u8>> {
    Builder::new().configure(config).build(pattern).and_then(|dense| dense.to_sparse()).unwrap()
}

fn accepted(pattern: &str, input: &[u8]) -> bool {
    let def = gen_regex_dfa_def(pattern).unwrap();
    let traces = gen_traces(pattern, input).unwrap();
    traces.last().unwrap().2 == def.accepted_state_val
}

fn match_ends_with_input(pattern: &str, input: &[u8]) -> bool {
    match Regex::new(pattern).unwrap().find(input) {
        Some(found) => found.end() == input.len(),
        None => false,
    }
}

#[test]
fn test_regex_gen() {
    let regex = r"[0-9]+[a-z]+o";
    let input = b"0ao";
    let def = gen_regex_dfa_def(regex);
    let traces = gen_traces(regex, input);
    println!("def: {:?}", def);
    println!("traces: {:?}", traces);
}

#[test]
fn lowercase_run_is_accepted_and_satisfied() {
    let regex = "[a-z]+";
    let input = b"auidsafddsavbjhsaoefd";
    let def = gen_regex_dfa_def(regex).unwrap();
    let traces = gen_traces(regex, input).unwrap();
    assert_eq!(traces.len(), 23);
    assert_eq!(traces[0].2, def.first_state_val);
    assert_eq!(traces[22].2, def.accepted_state_val);
    let config = assemble(&def, &traces, 32).unwrap();
    assert!(config.is_satisfied());
}

#[test]
fn digits_letters_o_reaches_the_accepting_state() {
    let regex = "[0-9]+[a-z]+o";
    let def = gen_regex_dfa_def(regex).unwrap();
    let traces = gen_traces(regex, b"0ao").unwrap();
    assert_eq!(traces.len(), 5);
    assert_eq!(traces[4].2, def.accepted_state_val);
    for step in &traces[..4] {
        assert_ne!(step.2, def.accepted_state_val);
    }
    assert!(assemble(&def, &traces, 8).unwrap().is_satisfied());
}

#[test]
fn trace_records_byte_class_and_state() {
    let traces = gen_traces("[0-9]+[a-z]+o", b"0ao").unwrap();
    assert_eq!(traces, vec![(48, 2, 117), (97, 4, 183), (111, 5, 222), (0, 0, 144), (0, 0, 18)]);
}

#[test]
fn empty_input_is_checked_on_both_ends() {
    let def = gen_regex_dfa_def("[a-z]*").unwrap();
    let traces = gen_traces("[a-z]*", b"").unwrap();
    assert_eq!(traces.len(), 2);
    assert_eq!(traces[0], (0, 0, def.first_state_val));
    assert_eq!(traces[1], (0, 0, def.accepted_state_val));
    let config = assemble(&def, &traces, 4).unwrap();
    assert_eq!(config.q_state_check, vec![true, true, false, false]);
    assert_eq!(config.expected_state, vec![def.first_state_val, def.accepted_state_val, 0, 0]);
    assert!(config.is_satisfied());

    let def = gen_regex_dfa_def("[a-z]+").unwrap();
    let traces = gen_traces("[a-z]+", b"").unwrap();
    assert_eq!(traces.len(), 2);
    assert_ne!(traces[1].2, def.accepted_state_val);
    assert!(!assemble(&def, &traces, 4).unwrap().is_satisfied());
}

#[test]
fn definition_is_deterministic() {
    for regex in ["[a-z]+", "[0-9]+[a-z]+o", "a$", "(ab|cd)*e", "x.y"] {
        let def = gen_regex_dfa_def(regex).unwrap();
        let rows: Vec<(u8, u64, u64)> = def.state_lookup.iter().copied().collect();
        assert!(!rows.is_empty());
        for pair in rows.windows(2) {
            assert!((pair[0].0, pair[0].1) != (pair[1].0, pair[1].1));
        }
        for row in &rows {
            assert!(row.1 < MAX_STATE);
        }
        assert!(def.contains(0, def.accepted_state_val, 0));
    }
}

#[test]
fn definition_holds_every_step_of_a_trace() {
    let regex = "[0-9]+[a-z]+o";
    let def = gen_regex_dfa_def(regex).unwrap();
    for input in [&b"0ao"[..], b"zzz", b"", b"12ab3co", b"\x00\xff"] {
        let traces = gen_traces(regex, input).unwrap();
        for pair in traces.windows(2) {
            assert!(def.contains(pair[0].1, pair[0].2, pair[1].2));
        }
    }
}

#[test]
fn acceptance_agrees_with_a_search_that_ends_with_the_input() {
    let cases: [(&str, &[u8]); 12] = [
        ("[a-z]+", b"auidsafddsavbjhsaoefd"),
        ("[a-z]+", b"123abc"),
        ("[a-z]+", b"123"),
        ("[a-z]+", b""),
        ("[0-9]+[a-z]+o", b"0ao"),
        ("[0-9]+[a-z]+o", b"0a"),
        ("[0-9]+[a-z]+o", b"xx12abo"),
        ("[0-9]+[a-z]+o", b"o"),
        ("a$", b"bba"),
        ("a$", b"ab"),
        ("(ab|cd)*e", b"abcde"),
        ("x.y", b"xzy"),
    ];
    for (regex, input) in cases {
        assert_eq!(accepted(regex, input), match_ends_with_input(regex, input), "{} {:?}", regex, input);
        let def = gen_regex_dfa_def(regex).unwrap();
        let traces = gen_traces(regex, input).unwrap();
        let config = assemble(&def, &traces, 64).unwrap();
        assert_eq!(config.is_satisfied(), accepted(regex, input));
    }
}

#[test]
fn match_that_ends_before_the_input_is_not_accepted() {
    assert!(Regex::new("a").unwrap().is_match(b"ab"));
    assert!(!accepted("a", b"ab"));
    assert!(accepted("a", b"ba"));
}

#[test]
fn altered_final_state_of_a_compiled_trace_is_rejected() {
    let regex = "[a-z]+";
    let def = gen_regex_dfa_def(regex).unwrap();
    let mut traces = gen_traces(regex, b"abc").unwrap();
    assert!(assemble(&def, &traces, 16).unwrap().is_satisfied());
    let last = traces.len() - 1;
    for state in [0, def.first_state_val, traces[last - 1].2, def.accepted_state_val + 1, MAX_STATE] {
        traces[last].2 = state;
        assert!(!assemble(&def, &traces, 16).unwrap().is_satisfied());
    }
}

#[test]
fn bytes_of_one_class_are_interchangeable() {
    let regex = "[0-9]+[a-z]+o";
    let dfa = sparse(Config::new().start_kind(StartKind::Unanchored), regex);
    let classes = symbol_classes(&dfa).unwrap();
    assert_eq!(classes.len(), 256);
    assert!(classes.iter().all(|class| *class >= 1));
    assert_eq!(classes[b'a' as usize], classes[b'n' as usize]);
    assert_eq!(classes[b'0' as usize], classes[b'9' as usize]);
    assert_ne!(classes[b'a' as usize], classes[b'o' as usize]);
    assert_ne!(classes[b'a' as usize], classes[b'0' as usize]);
    let one = gen_traces(regex, b"1ano").unwrap();
    let other = gen_traces(regex, b"7bko").unwrap();
    for (a, b) in one.iter().zip(other.iter()) {
        assert_eq!((a.1, a.2), (b.1, b.2));
    }
    let def = gen_regex_dfa_def(regex).unwrap();
    let mut used: Vec<u8> = def.state_lookup.iter().map(|row| row.0).collect();
    used.sort();
    used.dedup();
    assert!(used.len() <= 256);
    assert_eq!(used, vec![0, 1, 2, 3, 4, 5, 6, 7]);
}

#[test]
fn malformed_pattern_has_no_definition() {
    assert_eq!(gen_regex_dfa_def("[a-z").err(), Some(PatternCompileError::Rejected));
    assert_eq!(gen_regex_dfa_def("(a").err(), Some(PatternCompileError::Rejected));
    assert_eq!(gen_traces("(a", b"a"), Err(TraceError::PatternRejected));
}

#[test]
fn pattern_that_matches_nothing_has_no_accepting_state() {
    assert_eq!(gen_regex_dfa_def(r"[^\s\S]").err(), Some(PatternCompileError::NoAcceptState));
}

#[test]
fn anchored_automaton_has_no_start_state() {
    let dfa = sparse(Config::new().start_kind(StartKind::Anchored), "[a-z]+");
    assert_eq!(definition_of(&dfa).err(), Some(PatternCompileError::NoStartState));
    assert_eq!(traces_of(&dfa, b"abc"), Err(TraceError::NoStartState));
}

#[test]
fn automaton_without_byte_classes_has_too_many() {
    let dfa = sparse(Config::new().start_kind(StartKind::Unanchored).byte_classes(false), "[a-z]+");
    assert!(symbol_classes(&dfa).is_none());
    assert_eq!(definition_of(&dfa).err(), Some(PatternCompileError::TooManyClasses));
    assert_eq!(traces_of(&dfa, b"abc"), Err(TraceError::TooManyClasses));
}

#[test]
fn automaton_of_two_patterns_has_several_accepting_states() {
    let dfa = Builder::new()
        .configure(Config::new().start_kind(StartKind::Unanchored))
        .build_many(&["[a-z]+", "[0-9]+"])
        .and_then(|dense| dense.to_sparse())
        .unwrap();
    assert_eq!(definition_of(&dfa).err(), Some(PatternCompileError::SeveralAcceptStates));
}

#[test]
fn definition_and_trace_of_one_automaton_agree_with_the_pattern() {
    let regex = "[a-z]+";
    let dfa = sparse(
        Config::new()
            .minimize(true)
            .start_kind(StartKind::Unanchored)
            .starts_for_each_pattern(false)
            .specialize_start_states(true)
            .match_kind(regex_automata::MatchKind::LeftmostFirst),
        regex,
    );
    let def = definition_of(&dfa).unwrap();
    let compiled = gen_regex_dfa_def(regex).unwrap();
    assert_eq!(def.state_lookup, compiled.state_lookup);
    assert_eq!(def.first_state_val, compiled.first_state_val);
    assert_eq!(def.accepted_state_val, compiled.accepted_state_val);
    assert_eq!(traces_of(&dfa, b"abc"), gen_traces(regex, b"abc"));
}

#[test]
fn pattern_that_compiles_has_a_trace_for_every_input() {
    let every_byte: Vec<u8> = (0..=255u8).collect();
    for regex in ["[a-z]+", "[0-9]+[a-z]+o", "a$", "(ab|cd)*e", "x.y", r"[^\s\S]", "", r"\xff"] {
        assert!(compile(regex).is_some());
        for input in [&b""[..], b"\x00", b"\xff\xfe", b"0ao", &every_byte[..]] {
            let traces = gen_traces(regex, input).unwrap();
            assert_eq!(traces.len(), input.len() + 2);
            for (step, byte) in traces.iter().zip(input.iter()) {
                assert_eq!(step.0, *byte as u16);
                assert!(step.1 >= 1);
            }
        }
    }
}

#[test]
fn acceptance_is_ending_in_a_match_state() {
    for (regex, input) in [("[a-z]+", &b"abc"[..]), ("[a-z]+", b"ab1"), ("a$", b"ba"), ("a", b"ab"), ("x.y", b"")] {
        let dfa = compile(regex).unwrap();
        let def = definition_of(&dfa).unwrap();
        let last = traces_of(&dfa, input).unwrap().last().unwrap().2;
        let id = regex_automata::util::primitives::StateID::new(last as usize).unwrap();
        assert_eq!(last == def.accepted_state_val, regex_automata::dfa::Automaton::is_match_state(&dfa, id));
    }
}

#[test]
fn compile_gives_an_automaton_or_nothing() {
    let dfa = compile("[0-9]+[a-z]+o").unwrap();
    assert_eq!(traces_of(&dfa, b"0ao"), gen_traces("[0-9]+[a-z]+o", b"0ao"));
    assert!(definition_of(&dfa).is_ok());
    assert!(compile("[0-9]+[a-z").is_none());
    assert!(compile(r"\b{").is_none());
}
