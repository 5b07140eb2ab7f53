use vstd::prelude::*;
use std::collections::BTreeSet;
use vstd::std_specs::btree::spec_btree_keys_iter;
use vstd::std_specs::iter::IteratorSpec;
use vstd::std_specs::cmp::OrdSpec;
use crate::constants::MAX_STATE;
use crate::constants::REST_STATE;
use crate::constants::REQUIRED_PADDING;
use crate::laws::lemma_satisfied_iff_accepting;

verus! {

/// One step of a witness trace: the byte read, its symbol class, and the
/// state that the automaton is in before it reads the byte.
pub type Step = (u16, u8, u64);

/// A transition: the symbol class, the state it leaves and the state it
/// enters.
pub type Transition = (u8, u64, u64);

/// A row of the lookup table.
pub type TableRow = (u64, u64, u64);

/// An automaton: its transitions, the state a run starts in and the one state
/// that accepts.
#[derive(Debug)]
pub struct DFADef {
    /// A set of (symbol class, current state, next state).
    pub state_lookup: BTreeSet<Transition>,
    /// The state every run starts in.
    pub first_state_val: u64,
    /// The accepting state. There is only one.
    pub accepted_state_val: u64,
}

impl Default for DFADef {
    fn default() -> (r: Self)
        ensures
            r.state_lookup@ == Set::<Transition>::empty(),
            r.first_state_val == 0,
            r.accepted_state_val == 0,
    {
        DFADef { state_lookup: BTreeSet::new(), first_state_val: 0, accepted_state_val: 0 }
    }
}

impl DFADef {
    /// Whether the automaton goes from `state` to `next` on `class`.
    pub open spec fn has(self, class: u8, state: u64, next: u64) -> bool {
        self.state_lookup@.contains((class, state, next))
    }

    /// A state and a symbol class decide the next state.
    pub open spec fn is_deterministic(self) -> bool {
        forall|class: u8, state: u64, n1: u64, n2: u64|
            self.has(class, state, n1) && self.has(class, state, n2) ==> n1 == n2
    }

    /// No transition leaves from `MAX_STATE`.
    pub open spec fn below_dummy(self) -> bool {
        forall|class: u8, state: u64, next: u64| #[trigger]
            self.has(class, state, next) ==> state != MAX_STATE
    }

    /// An automaton without transitions.
    pub fn new(first_state_val: u64, accepted_state_val: u64) -> (r: Self)
        ensures
            r.state_lookup@ == Set::<Transition>::empty(),
            r.first_state_val == first_state_val,
            r.accepted_state_val == accepted_state_val,
    {
        DFADef { state_lookup: BTreeSet::new(), first_state_val, accepted_state_val }
    }

    /// Adds a transition. Returns whether it is new.
    pub fn insert(&mut self, class: u8, state: u64, next: u64) -> (r: bool)
        ensures
            final(self).state_lookup@ == old(self).state_lookup@.insert((class, state, next)),
            final(self).first_state_val == old(self).first_state_val,
            final(self).accepted_state_val == old(self).accepted_state_val,
            r == !old(self).has(class, state, next),
    {
        broadcast use vstd::laws_cmp::group_laws_cmp;
        self.state_lookup.insert((class, state, next))
    }

    /// Whether the automaton goes from `state` to `next` on `class`.
    pub fn contains(&self, class: u8, state: u64, next: u64) -> (r: bool)
        ensures
            r == self.has(class, state, next),
    {
        broadcast use vstd::laws_cmp::group_laws_cmp;
        let key: Transition = (class, state, next);
        self.state_lookup.contains(&key)
    }
}

/// What the lookup table holds for a transition.
pub open spec fn widened(t: Transition) -> TableRow {
    (t.0 as u64, t.1, t.2)
}

/// The symbol class as the lookup table holds it.
pub fn class_value(class: u8) -> (r: u64)
    ensures
        r == class as u64,
{
    class as u64
}

/// The first row of every lookup table.
pub open spec fn sentinel_row() -> TableRow {
    (0, MAX_STATE, MAX_STATE)
}

/// The order of the rows of a lookup table: by symbol class, then by state,
/// then by next state.
pub open spec fn row_lt(a: TableRow, b: TableRow) -> bool {
    a.0 < b.0 || (a.0 == b.0 && (a.1 < b.1 || (a.1 == b.1 && a.2 < b.2)))
}

/// Whether `row` is what the lookup table holds for a transition of the
/// automaton.
pub open spec fn is_row_of(row: TableRow, def: DFADef) -> bool {
    row.0 < 256 && def.has(row.0 as u8, row.1, row.2)
}

/// Whether `rows` is the lookup table of an automaton: the sentinel row, then
/// one row for each transition, in increasing order.
pub open spec fn is_table_of(rows: Seq<TableRow>, def: DFADef) -> bool {
    &&& rows.len() == 1 + def.state_lookup@.len()
    &&& rows[0] == sentinel_row()
    &&& forall|i: int| 1 <= i < rows.len() ==> is_row_of(#[trigger] rows[i], def)
    &&& forall|t: Transition| def.state_lookup@.contains(t) ==> rows.contains(#[trigger] widened(t))
    &&& forall|i: int, j: int| 1 <= i < j < rows.len() ==> row_lt(#[trigger] rows[i], #[trigger] rows[j])
}

/// The lookup table: three columns of equal length.
#[derive(Clone, Debug)]
pub struct DFATable {
    pub class_id: Vec<u64>,
    pub state: Vec<u64>,
    pub next_state: Vec<u64>,
}

impl DFATable {
    /// The columns have one length.
    pub open spec fn wf(self) -> bool {
        &&& self.class_id@.len() == self.state@.len()
        &&& self.next_state@.len() == self.state@.len()
    }

    /// The rows of the table.
    pub open spec fn rows(self) -> Seq<TableRow> {
        Seq::new(self.state@.len(), |i: int| (self.class_id@[i], self.state@[i], self.next_state@[i]))
    }

    /// Whether some row of the table is `row`.
    pub open spec fn contains_row(self, row: TableRow) -> bool {
        self.rows().contains(row)
    }

    /// A table without rows.
    pub fn configure() -> (r: Self)
        ensures
            r.wf(),
            r.rows() == Seq::<TableRow>::empty(),
    {
        let r = DFATable { class_id: Vec::new(), state: Vec::new(), next_state: Vec::new() };
        assert(r.rows() =~= Seq::<TableRow>::empty());
        r
    }

    /// Writes one row behind the others.
    fn assign_row(&mut self, class: u64, cur_state: u64, next_state: u64)
        requires
            old(self).wf(),
        ensures
            final(self).wf(),
            final(self).rows() == old(self).rows().push((class, cur_state, next_state)),
    {
        self.class_id.push(class);
        self.state.push(cur_state);
        self.next_state.push(next_state);
        assert(self.rows() =~= old(self).rows().push((class, cur_state, next_state)));
    }

    /// Fills the table from an automaton: the sentinel row, then one row for
    /// each transition. What the table held before is dropped.
    pub fn assign(&mut self, def: &DFADef)
        ensures
            final(self).wf(),
            is_table_of(final(self).rows(), *def),
    {
        broadcast use vstd::laws_cmp::group_laws_cmp;
        self.class_id = Vec::new();
        self.state = Vec::new();
        self.next_state = Vec::new();
        assert(self.rows() =~= Seq::<TableRow>::empty());
        self.assign_row(0, MAX_STATE, MAX_STATE);
        let it = def.state_lookup.iter();
        for t in cursor: it
            invariant
                self.wf(),
                cursor.seq() == spec_btree_keys_iter(&def.state_lookup).remaining(),
                self.rows().len() == 1 + cursor.index(),
                self.rows()[0] == sentinel_row(),
                forall|i: int| 0 <= i < cursor.index() ==> self.rows()[i + 1] == widened(*(#[trigger] cursor.seq()[i])),
        {
            self.assign_row(class_value(t.0), t.1, t.2);
        }
        proof {
            let keys = spec_btree_keys_iter(&def.state_lookup).remaining();
            vstd::std_specs::btree::axiom_spec_btree_keys_iter(&def.state_lookup);
            vstd::std_specs::btree::axiom_increasing_seq_meaning(keys);
            let rows = self.rows();
            assert forall|i: int| 1 <= i < rows.len() implies is_row_of(#[trigger] rows[i], *def) by {
                let t = *keys[i - 1];
                assert(rows[i] == widened(t));
                assert(keys.unref()[i - 1] == t);
                assert(keys.unref().to_set().contains(t));
            }
            assert forall|t: Transition| def.state_lookup@.contains(t) implies rows.contains(
                #[trigger] widened(t),
            ) by {
                assert(keys.unref().to_set().contains(t));
                let k = choose|k: int| 0 <= k < keys.unref().len() && keys.unref()[k] == t;
                assert(rows[k + 1] == widened(*keys[k]));
            }
            assert forall|i: int, j: int| 1 <= i < j < rows.len() implies row_lt(
                #[trigger] rows[i],
                #[trigger] rows[j],
            ) by {
                assert(rows[i] == widened(*keys[i - 1]));
                assert(rows[j] == widened(*keys[j - 1]));
                let a = keys[i - 1];
                let b = keys[j - 1];
                assert(<&Transition>::cmp_spec(&a, &b) is Less);
            }
        }
    }

    /// Whether the table holds the row. A table whose columns differ in
    /// length holds none.
    pub fn lookup(&self, class: u64, cur_state: u64, next_state: u64) -> (r: bool)
        ensures
            r == (self.wf() && self.contains_row((class, cur_state, next_state))),
    {
        let n = self.state.len();
        if self.class_id.len() != n || self.next_state.len() != n {
            return false;
        }
        let mut i: usize = 0;
        while i < n
            invariant
                self.wf(),
                n == self.state@.len(),
                i <= n,
                forall|j: int| 0 <= j < i ==> self.rows()[j] != (class, cur_state, next_state),
            decreases n - i,
        {
            if self.class_id[i] == class && self.state[i] == cur_state && self.next_state[i] == next_state {
                assert(self.rows()[i as int] == (class, cur_state, next_state));
                return true;
            }
            i += 1;
        }
        false
    }
}

/// The value of a selector in a gate: one where the row is switched on.
pub open spec fn selector(flag: bool) -> int {
    if flag {
        1
    } else {
        0
    }
}

/// The polynomial of the state check: it must be zero on every row.
pub open spec fn state_check_poly(q_enable: bool, q_state_check: bool, state: u64, expected: u64) -> int {
    selector(q_enable) * selector(q_state_check) * (state - expected)
}

/// A lookup input: the value of the row where the row is switched on, the
/// dummy value where it is not.
pub open spec fn blended(q_enable: bool, value: u64, dummy: u64) -> int {
    selector(q_enable) * value + (1 - selector(q_enable)) * dummy
}

/// Whether the state check holds on a row with these cells.
pub fn state_check(q_enable: bool, q_state_check: bool, state: u64, expected: u64) -> (r: bool)
    ensures
        r == (state_check_poly(q_enable, q_state_check, state, expected) == 0),
        r == (q_enable && q_state_check ==> state == expected),
{
    proof {
        lemma_state_check(q_enable, q_state_check, state, expected);
    }
    !(q_enable && q_state_check) || state == expected
}

/// The state check is zero exactly where a row that is switched on and
/// checked holds the expected state.
pub proof fn lemma_state_check(q_enable: bool, q_state_check: bool, state: u64, expected: u64)
    ensures
        state_check_poly(q_enable, q_state_check, state, expected) == 0 <==> (q_enable
            && q_state_check ==> state == expected),
{
    if q_enable && q_state_check {
        assert(selector(q_enable) * selector(q_state_check) == 1) by (nonlinear_arith)
            requires
                selector(q_enable) == 1,
                selector(q_state_check) == 1,
        ;
        assert(1 * (state - expected) == state - expected);
    } else {
        assert(selector(q_enable) * selector(q_state_check) == 0) by (nonlinear_arith)
            requires
                selector(q_enable) == 0 || selector(q_state_check) == 0,
        ;
        assert(0 * (state - expected) == 0);
    }
}

/// A blended value is one of the two it is made of.
pub proof fn lemma_blended(q_enable: bool, value: u64, dummy: u64)
    ensures
        blended(q_enable, value, dummy) == if q_enable {
            value
        } else {
            dummy
        },
{
    if q_enable {
        assert(1 * value + (1 - 1) * dummy == value);
    } else {
        assert(0 * value + (1 - 0) * dummy == dummy);
    }
}

/// The lookup input of one column on one row.
pub fn blend(q_enable: bool, value: u64, dummy: u64) -> (r: u64)
    ensures
        r == blended(q_enable, value, dummy),
        r == if q_enable {
            value
        } else {
            dummy
        },
{
    proof {
        lemma_blended(q_enable, value, dummy);
    }
    let flag: u64 = if q_enable {
        1
    } else {
        0
    };
    assert(flag * value == if q_enable {
        value as int
    } else {
        0
    });
    assert((1 - flag) * dummy == if q_enable {
        0
    } else {
        dummy as int
    });
    flag * value + (1 - flag) * dummy
}

/// Whether the automaton allows step `i` of the trace: it goes from the state
/// of the step, on its symbol class, to the state of the next step. Behind
/// the last step the automaton is at rest.
pub open spec fn step_allowed(def: DFADef, trace: Seq<Step>, i: int) -> bool {
    def.has(
        trace[i].1,
        trace[i].2,
        if i + 1 < trace.len() {
            trace[i + 1].2
        } else {
            REST_STATE
        },
    )
}

/// Whether the trace is a run of the automaton from its first state to its
/// accepting state.
pub open spec fn accepting_run(def: DFADef, trace: Seq<Step>) -> bool {
    &&& trace.len() > 0
    &&& trace[0].2 == def.first_state_val
    &&& trace.last().2 == def.accepted_state_val
    &&& forall|i: int| 0 <= i < trace.len() ==> step_allowed(def, trace, i)
}

/// The trace does not fit: it needs its own rows and `REQUIRED_PADDING` more.
#[derive(Debug, Clone, Copy, PartialEq, Eq, Structural)]
pub struct CircuitOverflowError {
    /// The steps of the trace.
    pub trace_len: usize,
    /// The rows of the circuit.
    pub row_capacity: usize,
}

/// Why a trace has no witness.
#[derive(Debug, Clone, Copy, PartialEq, Eq, Structural)]
pub enum AssembleError {
    /// The trace has no step: it is no run, and nothing could be checked.
    EmptyTrace,
    /// The trace does not fit into the rows.
    Overflow(CircuitOverflowError),
}

/// Why a trace of `trace_len` steps has no witness of `row_capacity` rows, if
/// it has none.
pub open spec fn load_refusal(trace_len: nat, row_capacity: nat) -> Option<AssembleError> {
    if trace_len == 0 {
        Some(AssembleError::EmptyTrace)
    } else if trace_len + REQUIRED_PADDING > row_capacity {
        Some(
            AssembleError::Overflow(
                CircuitOverflowError {
                    trace_len: trace_len as usize,
                    row_capacity: row_capacity as usize,
                },
            ),
        )
    } else {
        None
    }
}

/// The state that the boundary check asks for on row `i`: the first state on
/// the first step, the accepting state on the last. Where one step is both,
/// it is held to whichever of the two it may miss.
pub open spec fn expected_state_at(def: DFADef, trace: Seq<Step>, i: int) -> u64 {
    if i < 0 || i >= trace.len() {
        0
    } else if trace.len() == 1 {
        if trace[0].2 == def.first_state_val {
            def.accepted_state_val
        } else {
            def.first_state_val
        }
    } else if i == 0 {
        def.first_state_val
    } else if i == trace.len() - 1 {
        def.accepted_state_val
    } else {
        0
    }
}

/// Whether the boundary check is switched on on row `i`.
pub open spec fn is_boundary(trace: Seq<Step>, i: int) -> bool {
    0 <= i < trace.len() && (i == 0 || i == trace.len() - 1)
}

/// The witness: one row for each step of a trace and rows that are switched
/// off behind them, with the lookup table.
///
/// | character | class_id | state | expected_state | q_state_check | q_enable |
#[derive(Clone, Debug)]
pub struct RegexCircuitConfig {
    pub q_state_check: Vec<bool>,
    pub state: Vec<u64>,
    pub character: Vec<u64>,
    pub class_id: Vec<u64>,
    pub expected_state: Vec<u64>,
    pub q_enable: Vec<bool>,
    pub dfa_table: DFATable,
}

impl RegexCircuitConfig {
    /// The columns have one length.
    pub open spec fn wf(self) -> bool {
        &&& self.dfa_table.wf()
        &&& self.q_state_check@.len() == self.state@.len()
        &&& self.character@.len() == self.state@.len()
        &&& self.class_id@.len() == self.state@.len()
        &&& self.expected_state@.len() == self.state@.len()
        &&& self.q_enable@.len() == self.state@.len()
    }

    /// The number of rows.
    pub open spec fn row_capacity(self) -> nat {
        self.state@.len()
    }

    /// The state on the row behind row `i`. Behind the last row nothing is
    /// assigned.
    pub open spec fn next_state_at(self, i: int) -> u64 {
        if i + 1 < self.state@.len() {
            self.state@[i + 1]
        } else {
            REST_STATE
        }
    }

    /// What row `i` looks up in the table.
    pub open spec fn lookup_input(self, i: int) -> TableRow {
        if self.q_enable@[i] {
            (self.class_id@[i], self.state@[i], self.next_state_at(i))
        } else {
            sentinel_row()
        }
    }

    /// Whether both gates hold on row `i`.
    pub open spec fn row_holds(self, i: int) -> bool {
        &&& state_check_poly(
            self.q_enable@[i],
            self.q_state_check@[i],
            self.state@[i],
            self.expected_state@[i],
        ) == 0
        &&& self.dfa_table.contains_row(self.lookup_input(i))
    }

    /// Whether both gates hold on every row.
    pub open spec fn satisfied(self) -> bool {
        &&& self.wf()
        &&& forall|i: int| 0 <= i < self.state@.len() ==> self.row_holds(i)
    }

    /// Whether row `i` is the one that `load` writes for the trace.
    pub open spec fn row_is_loaded(self, def: DFADef, trace: Seq<Step>, i: int) -> bool {
        &&& self.q_enable@[i] == (i < trace.len())
        &&& self.q_state_check@[i] == is_boundary(trace, i)
        &&& self.expected_state@[i] == expected_state_at(def, trace, i)
        &&& self.character@[i] == if i < trace.len() {
            trace[i].0 as u64
        } else {
            0
        }
        &&& self.class_id@[i] == if i < trace.len() {
            trace[i].1 as u64
        } else {
            0
        }
        &&& self.state@[i] == if i < trace.len() {
            trace[i].2
        } else {
            REST_STATE
        }
    }

    /// Whether the witness is the one that `load` writes for the automaton
    /// and the trace. Only a trace that has a step and leaves
    /// `REQUIRED_PADDING` rows free has one.
    pub open spec fn is_loaded(self, def: DFADef, trace: Seq<Step>) -> bool {
        &&& self.wf()
        &&& 0 < trace.len()
        &&& trace.len() + REQUIRED_PADDING <= self.state@.len()
        &&& is_table_of(self.dfa_table.rows(), def)
        &&& forall|i: int| 0 <= i < self.state@.len() ==> self.row_is_loaded(def, trace, i)
    }

    /// A witness of `row_capacity` rows, all switched off, and an empty table.
    /// Every row looks up the sentinel row, which the empty table lacks: the
    /// witness is satisfied only after `load`.
    pub fn configure(row_capacity: usize) -> (r: Self)
        ensures
            r.wf(),
            r.row_capacity() == row_capacity,
            r.dfa_table.rows() == Seq::<TableRow>::empty(),
            forall|i: int|
                0 <= i < row_capacity ==> !r.q_enable@[i] && !r.q_state_check@[i] && r.state@[i]
                    == REST_STATE && r.character@[i] == 0 && r.class_id@[i] == 0
                    && r.expected_state@[i] == 0,
            forall|i: int| 0 <= i < row_capacity ==> #[trigger] r.lookup_input(i) == sentinel_row(),
            !r.satisfied() <==> row_capacity > 0,
    {
        let mut r = RegexCircuitConfig {
            q_state_check: Vec::new(),
            state: Vec::new(),
            character: Vec::new(),
            class_id: Vec::new(),
            expected_state: Vec::new(),
            q_enable: Vec::new(),
            dfa_table: DFATable::configure(),
        };
        let mut i: usize = 0;
        while i < row_capacity
            invariant
                i <= row_capacity,
                r.wf(),
                r.state@.len() == i,
                r.dfa_table.rows() == Seq::<TableRow>::empty(),
                forall|j: int|
                    0 <= j < i ==> !r.q_enable@[j] && !r.q_state_check@[j] && r.state@[j]
                        == REST_STATE && r.character@[j] == 0 && r.class_id@[j] == 0
                        && r.expected_state@[j] == 0,
            decreases row_capacity - i,
        {
            r.q_state_check.push(false);
            r.state.push(REST_STATE);
            r.character.push(0);
            r.class_id.push(0);
            r.expected_state.push(0);
            r.q_enable.push(false);
            i += 1;
        }
        proof {
            if row_capacity > 0 {
                assert(!r.dfa_table.contains_row(r.lookup_input(0)));
                assert(!r.row_holds(0));
            }
        }
        r
    }

    /// Fills the table from the automaton and the rows from the trace: row
    /// `i` holds step `i` and is switched on, the first and the last of them
    /// are checked against the first and the accepting state, and the rows
    /// behind the trace are switched off and hold nothing. A trace without
    /// steps, and one that leaves fewer than `REQUIRED_PADDING` rows free, is
    /// refused, and nothing changes.
    pub fn load(&mut self, dfa_def: &DFADef, traces: &[Step]) -> (r: Result<(), AssembleError>)
        ensures
            match r {
                Ok(()) => load_refusal(traces@.len(), old(self).row_capacity()) is None,
                Err(e) => load_refusal(traces@.len(), old(self).row_capacity()) == Some(e),
            },
            r is Err ==> *final(self) == *old(self),
            r is Ok ==> final(self).is_loaded(*dfa_def, traces@) && final(self).row_capacity() == old(
                self,
            ).row_capacity(),
            r is Ok && dfa_def.below_dummy() ==> (final(self).satisfied() <==> accepting_run(
                *dfa_def,
                traces@,
            )),
    {
        let row_capacity = self.state.len();
        let n = traces.len();
        if n == 0 {
            return Err(AssembleError::EmptyTrace);
        }
        if n >= row_capacity {
            return Err(AssembleError::Overflow(CircuitOverflowError { trace_len: n, row_capacity }));
        }
        self.dfa_table.assign(dfa_def);
        let mut q_state_check: Vec<bool> = Vec::new();
        let mut state: Vec<u64> = Vec::new();
        let mut character: Vec<u64> = Vec::new();
        let mut class_id: Vec<u64> = Vec::new();
        let mut expected_state: Vec<u64> = Vec::new();
        let mut q_enable: Vec<bool> = Vec::new();
        let mut offset: usize = 0;
        while offset < row_capacity
            invariant
                offset <= row_capacity,
                n == traces@.len(),
                n < row_capacity,
                q_state_check@.len() == offset,
                state@.len() == offset,
                character@.len() == offset,
                class_id@.len() == offset,
                expected_state@.len() == offset,
                q_enable@.len() == offset,
                forall|j: int|
                    0 <= j < offset ==> {
                        &&& q_enable@[j] == (j < n)
                        &&& q_state_check@[j] == is_boundary(traces@, j)
                        &&& expected_state@[j] == expected_state_at(*dfa_def, traces@, j)
                        &&& character@[j] == if j < n {
                            traces@[j].0 as u64
                        } else {
                            0
                        }
                        &&& class_id@[j] == if j < n {
                            traces@[j].1 as u64
                        } else {
                            0
                        }
                        &&& state@[j] == if j < n {
                            traces@[j].2
                        } else {
                            REST_STATE
                        }
                    },
            decreases row_capacity - offset,
        {
            if offset < n {
                let step = traces[offset];
                let first = offset == 0;
                let last = offset == n - 1;
                let expected = if first && last {
                    if traces[0].2 == dfa_def.first_state_val {
                        dfa_def.accepted_state_val
                    } else {
                        dfa_def.first_state_val
                    }
                } else if first {
                    dfa_def.first_state_val
                } else if last {
                    dfa_def.accepted_state_val
                } else {
                    0
                };
                q_enable.push(true);
                q_state_check.push(first || last);
                expected_state.push(expected);
                character.push(step.0 as u64);
                class_id.push(step.1 as u64);
                state.push(step.2);
            } else {
                q_enable.push(false);
                q_state_check.push(false);
                expected_state.push(0);
                character.push(0);
                class_id.push(0);
                state.push(REST_STATE);
            }
            offset += 1;
        }
        self.q_state_check = q_state_check;
        self.state = state;
        self.character = character;
        self.class_id = class_id;
        self.expected_state = expected_state;
        self.q_enable = q_enable;
        proof {
            if dfa_def.below_dummy() {
                lemma_satisfied_iff_accepting(*self, *dfa_def, traces@);
            }
        }
        Ok(())
    }

    /// Whether both gates hold on every row.
    pub fn is_satisfied(&self) -> (r: bool)
        ensures
            r == self.satisfied(),
    {
        let n = self.state.len();
        if self.dfa_table.class_id.len() != self.dfa_table.state.len()
            || self.dfa_table.next_state.len() != self.dfa_table.state.len()
            || self.q_state_check.len() != n || self.character.len() != n || self.class_id.len() != n
            || self.expected_state.len() != n || self.q_enable.len() != n {
            return false;
        }
        let mut i: usize = 0;
        while i < n
            invariant
                self.wf(),
                n == self.state@.len(),
                i <= n,
                forall|j: int| 0 <= j < i ==> self.row_holds(j),
            decreases n - i,
        {
            let enabled = self.q_enable[i];
            let next = if i + 1 < n {
                self.state[i + 1]
            } else {
                REST_STATE
            };
            let checked = state_check(enabled, self.q_state_check[i], self.state[i], self.expected_state[i]);
            let found = self.dfa_table.lookup(
                blend(enabled, self.class_id[i], 0),
                blend(enabled, self.state[i], MAX_STATE),
                blend(enabled, next, MAX_STATE),
            );
            if !checked || !found {
                assert(!self.row_holds(i as int));
                return false;
            }
            assert(self.row_holds(i as int));
            i += 1;
        }
        true
    }
}

/// The witness of `row_capacity` rows for the automaton and the trace. A
/// trace without steps, and one that leaves fewer than `REQUIRED_PADDING`
/// rows free, has none.
pub fn assemble(def: &DFADef, trace: &[Step], row_capacity: usize) -> (r: Result<
    RegexCircuitConfig,
    AssembleError,
>)
    ensures
        match r {
            Ok(config) => load_refusal(trace@.len(), row_capacity as nat) is None,
            Err(e) => load_refusal(trace@.len(), row_capacity as nat) == Some(e),
        },
        r matches Ok(config) ==> config.is_loaded(*def, trace@) && config.row_capacity() == row_capacity,
        r matches Ok(config) ==> def.below_dummy() ==> (config.satisfied() <==> accepting_run(
            *def,
            trace@,
        )),
{
    let mut config = RegexCircuitConfig::configure(row_capacity);
    match config.load(def, trace) {
        Ok(()) => Ok(config),
        Err(e) => Err(e),
    }
}

} // verus!
