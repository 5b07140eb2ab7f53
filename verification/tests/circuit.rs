use zkregex::constants::MAX_STATE;
use zkregex::regex::assemble;
use zkregex::regex::blend;
use zkregex::regex::class_value;
use zkregex::regex::state_check;
use zkregex::regex::RegexCircuitConfig;
use zkregex::regex::AssembleError;
use zkregex::regex::CircuitOverflowError;
use zkregex::regex::DFADef;
use zkregex::regex::DFATable;

fn toy() -> DFADef {
    let mut def = DFADef::new(0, 2);
    assert!(def.insert(1, 0, 1));
    assert!(def.insert(2, 1, 2));
    assert!(def.insert(3, 2, 0));
    def
}

#[test]
fn toy_automaton_is_satisfied() {
    let def = toy();
    let traces = vec![(9u16, 1u8, 0u64), (9, 2, 1), (9, 3, 2)];
    let config = assemble(&def, &traces, 10).unwrap();
    assert!(config.is_satisfied());
    assert_eq!(config.q_enable, vec![true, true, true, false, false, false, false, false, false, false]);
    assert_eq!(config.q_state_check, vec![true, false, true, false, false, false, false, false, false, false]);
    assert_eq!(config.state, vec![0, 1, 2, 0, 0, 0, 0, 0, 0, 0]);
    assert_eq!(config.expected_state, vec![0, 0, 2, 0, 0, 0, 0, 0, 0, 0]);
    assert_eq!(config.class_id, vec![1, 2, 3, 0, 0, 0, 0, 0, 0, 0]);
    assert_eq!(config.character, vec![9, 9, 9, 0, 0, 0, 0, 0, 0, 0]);
}

#[test]
fn table_starts_with_the_sentinel_row() {
    let mut table = DFATable::configure();
    table.assign(&toy());
    assert_eq!(table.class_id, vec![0, 1, 2, 3]);
    assert_eq!(table.state, vec![MAX_STATE, 0, 1, 2]);
    assert_eq!(table.next_state, vec![MAX_STATE, 1, 2, 0]);
    assert!(table.lookup(0, MAX_STATE, MAX_STATE));
    assert!(table.lookup(2, 1, 2));
    assert!(!table.lookup(2, 1, 0));
}

#[test]
fn altered_final_state_is_rejected() {
    let def = toy();
    let traces = vec![(9u16, 1u8, 0u64), (9, 2, 1), (9, 3, 1)];
    let config = assemble(&def, &traces, 10).unwrap();
    assert!(!config.is_satisfied());
}

#[test]
fn trace_that_fills_the_rows_overflows() {
    let def = toy();
    let traces = vec![(9u16, 1u8, 0u64), (9, 2, 1), (9, 3, 2)];
    assert_eq!(
        assemble(&def, &traces, 3).err(),
        Some(AssembleError::Overflow(CircuitOverflowError { trace_len: 3, row_capacity: 3 }))
    );
    assert_eq!(
        assemble(&def, &traces, 0).err(),
        Some(AssembleError::Overflow(CircuitOverflowError { trace_len: 3, row_capacity: 0 }))
    );
    assert!(assemble(&def, &traces, 4).is_ok());
}

#[test]
fn rows_that_are_switched_off_do_not_decide() {
    let def = toy();
    let short = vec![(9u16, 3u8, 2u64)];
    let long = vec![(9u16, 1u8, 0u64), (9, 2, 1), (9, 3, 2), (9, 1, 0), (9, 2, 1), (9, 3, 2)];
    let def_short = {
        let mut def = DFADef::new(2, 2);
        def.insert(3, 2, 0);
        def
    };
    let a = assemble(&def_short, &short, 8).unwrap();
    let b = assemble(&def, &long, 8).unwrap();
    assert!(a.is_satisfied());
    assert!(b.is_satisfied());
    assert_eq!(a.q_enable, vec![true, false, false, false, false, false, false, false]);
    assert_eq!(b.q_enable, vec![true, true, true, true, true, true, false, false]);

    let mut scribbled = assemble(&def, &long, 8).unwrap();
    scribbled.character[6] = 77;
    scribbled.class_id[6] = 3;
    scribbled.expected_state[6] = 12345;
    scribbled.q_state_check[6] = true;
    scribbled.character[7] = 1;
    scribbled.class_id[7] = 2;
    scribbled.state[7] = 99;
    scribbled.expected_state[7] = 4;
    scribbled.q_state_check[7] = true;
    assert!(scribbled.is_satisfied());

    let wrong = vec![(9u16, 1u8, 0u64), (9, 2, 1), (9, 3, 1)];
    let mut rejected = assemble(&def, &wrong, 8).unwrap();
    assert!(!rejected.is_satisfied());
    rejected.state[7] = 2;
    rejected.class_id[5] = 3;
    rejected.expected_state[4] = 1;
    assert!(!rejected.is_satisfied());
}

#[test]
fn state_behind_the_last_step_is_read() {
    let def = toy();
    let traces = vec![(9u16, 1u8, 0u64), (9, 2, 1), (9, 3, 2)];
    let mut config = assemble(&def, &traces, 8).unwrap();
    assert!(config.is_satisfied());
    config.state[3] = 1;
    assert!(!config.is_satisfied());
}

#[test]
fn one_step_is_checked_against_both_states() {
    let mut both = DFADef::new(5, 5);
    both.insert(1, 5, 0);
    assert!(assemble(&both, &[(9, 1, 5)], 2).unwrap().is_satisfied());

    let mut apart = DFADef::new(0, 2);
    apart.insert(1, 0, 0);
    apart.insert(3, 2, 0);
    let first_only = assemble(&apart, &[(9, 1, 0)], 2).unwrap();
    assert_eq!(first_only.expected_state, vec![2, 0]);
    assert_eq!(first_only.q_state_check, vec![true, false]);
    assert!(!first_only.is_satisfied());
    let accepting_only = assemble(&apart, &[(9, 3, 2)], 2).unwrap();
    assert_eq!(accepting_only.expected_state, vec![0, 0]);
    assert!(!accepting_only.is_satisfied());
}

#[test]
fn trace_without_steps_is_refused() {
    assert_eq!(assemble(&toy(), &[], 4).err(), Some(AssembleError::EmptyTrace));
    assert_eq!(assemble(&toy(), &[], 1).err(), Some(AssembleError::EmptyTrace));
    assert_eq!(assemble(&toy(), &[], 0).err(), Some(AssembleError::EmptyTrace));
    let mut same = DFADef::new(0, 0);
    same.insert(0, 0, 0);
    assert_eq!(assemble(&same, &[], 4).err(), Some(AssembleError::EmptyTrace));

    let mut config = RegexCircuitConfig::configure(4);
    config.load(&toy(), &[(9, 1, 0), (9, 2, 1), (9, 3, 2)]).unwrap();
    let before = config.clone();
    assert_eq!(config.load(&toy(), &[]), Err(AssembleError::EmptyTrace));
    assert_eq!(config.q_enable, before.q_enable);
    assert_eq!(config.state, before.state);
}

#[test]
fn transition_that_the_table_lacks_is_rejected() {
    let def = toy();
    let traces = vec![(9u16, 1u8, 0u64), (9, 3, 1), (9, 3, 2)];
    assert!(!assemble(&def, &traces, 8).unwrap().is_satisfied());
    let traces = vec![(9u16, 1u8, 0u64), (9, 2, 1), (9, 2, 2)];
    assert!(!assemble(&def, &traces, 8).unwrap().is_satisfied());
    let traces = vec![(9u16, 1u8, 1u64), (9, 2, 1), (9, 3, 2)];
    assert!(!assemble(&def, &traces, 8).unwrap().is_satisfied());
}

#[test]
fn load_that_overflows_changes_nothing() {
    let def = toy();
    let mut config = RegexCircuitConfig::configure(3);
    assert!(config.load(&def, &[(9, 1, 0), (9, 3, 2)]).is_ok());
    let before = config.clone();
    assert_eq!(
        config.load(&def, &[(9, 1, 0), (9, 2, 1), (9, 3, 2)]),
        Err(AssembleError::Overflow(CircuitOverflowError { trace_len: 3, row_capacity: 3 }))
    );
    assert_eq!(config.state, before.state);
    assert_eq!(config.q_enable, before.q_enable);
    assert_eq!(config.dfa_table.state, before.dfa_table.state);
}

#[test]
fn load_writes_over_an_earlier_trace() {
    let def = toy();
    let mut config = RegexCircuitConfig::configure(5);
    config.load(&def, &[(9, 1, 0), (9, 2, 1), (9, 3, 2), (9, 1, 0)]).unwrap();
    config.load(&def, &[(7, 1, 0), (8, 2, 1)]).unwrap();
    assert_eq!(config.q_enable, vec![true, true, false, false, false]);
    assert_eq!(config.character, vec![7, 8, 0, 0, 0]);
    assert_eq!(config.state, vec![0, 1, 0, 0, 0]);
    assert_eq!(config.expected_state, vec![0, 2, 0, 0, 0]);
    assert_eq!(config.dfa_table.state.len(), 4);
}

#[test]
fn configure_switches_every_row_off() {
    let config = RegexCircuitConfig::configure(3);
    assert_eq!(config.q_enable, vec![false, false, false]);
    assert_eq!(config.q_state_check, vec![false, false, false]);
    assert_eq!(config.state, vec![0, 0, 0]);
    assert_eq!(config.character, vec![0, 0, 0]);
    assert_eq!(config.class_id, vec![0, 0, 0]);
    assert_eq!(config.expected_state, vec![0, 0, 0]);
    assert!(config.dfa_table.state.is_empty());
    assert!(!config.is_satisfied());
    assert!(RegexCircuitConfig::configure(0).is_satisfied());
}

#[test]
fn columns_of_different_length_are_not_satisfied() {
    let mut config = assemble(&toy(), &[(9, 1, 0), (9, 2, 1), (9, 3, 2)], 5).unwrap();
    assert!(config.is_satisfied());
    config.expected_state.pop();
    assert!(!config.is_satisfied());
}

#[test]
fn gates_on_single_cells() {
    assert_eq!(blend(true, 7, MAX_STATE), 7);
    assert_eq!(blend(false, 7, MAX_STATE), MAX_STATE);
    assert_eq!(blend(false, 7, 0), 0);
    assert_eq!(blend(true, MAX_STATE, 3), MAX_STATE);
    assert!(state_check(true, true, 4, 4));
    assert!(!state_check(true, true, 4, 5));
    assert!(state_check(true, false, 4, 5));
    assert!(state_check(false, true, 4, 5));
    assert_eq!(class_value(255), 255);
}

#[test]
fn automaton_is_a_set_of_transitions() {
    let mut def = DFADef::default();
    assert_eq!(def.first_state_val, 0);
    assert_eq!(def.accepted_state_val, 0);
    assert!(def.state_lookup.is_empty());
    assert!(def.insert(3, 2, 0));
    assert!(!def.insert(3, 2, 0));
    assert!(def.insert(1, 0, 1));
    assert!(def.contains(3, 2, 0));
    assert!(!def.contains(3, 2, 1));
    let rows: Vec<(u8, u64, u64)> = def.state_lookup.iter().copied().collect();
    assert_eq!(rows, vec![(1, 0, 1), (3, 2, 0)]);
}

#[test]
fn table_with_columns_of_different_length_holds_nothing() {
    let mut table = DFATable::configure();
    table.assign(&toy());
    assert!(table.lookup(1, 0, 1));
    table.next_state.pop();
    assert!(!table.lookup(1, 0, 1));
    assert!(!table.lookup(0, MAX_STATE, MAX_STATE));
}
