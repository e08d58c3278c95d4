//! What every debugger offers, whether it drives one program or stands for
//! a whole tree of them.

use crate::metadata::{BacktraceState, RunState, SymbolTable};
use crate::snapshot::map_keys;
use std::collections::HashMap;
use vstd::prelude::*;

verus! {

/// Whether a run state is that of a program that has come to its end.
pub open spec fn spec_run_exited(st: RunState) -> bool {
    match st {
        RunState::Stopped(reason) => reason.spec_exited(),
        RunState::Running(_) => false,
    }
}

/// Whether a run state is that of a program that has come to its end.
pub fn run_exited(st: &RunState) -> (r: bool)
    ensures
        r == spec_run_exited(*st),
{
    match st {
        RunState::Stopped(reason) => reason.exited(),
        RunState::Running(_) => false,
    }
}

/// Whether a run state is that of a program in execution.
pub fn run_running(st: &RunState) -> (r: bool)
    ensures
        r == (*st is Running),
{
    match st {
        RunState::Stopped(_) => false,
        RunState::Running(_) => true,
    }
}

/// Whether a run state is that of a program that has stopped.
pub fn run_stopped(st: &RunState) -> (r: bool)
    ensures
        r == (*st is Stopped),
{
    match st {
        RunState::Stopped(_) => true,
        RunState::Running(_) => false,
    }
}

/// Whether the program `id` is known and has come to its end.
pub fn state_is_exited(st: &HashMap<u64, RunState>, id: u64) -> (r: bool)
    ensures
        r == (st@.contains_key(id) && spec_run_exited(st@[id])),
{
    broadcast use vstd::std_specs::hash::group_hash_axioms;

    match st.get(&id) {
        Some(rs) => run_exited(rs),
        None => false,
    }
}

/// Whether the program `id` is known and in execution.
pub fn state_is_running(st: &HashMap<u64, RunState>, id: u64) -> (r: bool)
    ensures
        r == (st@.contains_key(id) && st@[id] is Running),
{
    broadcast use vstd::std_specs::hash::group_hash_axioms;

    match st.get(&id) {
        Some(rs) => run_running(rs),
        None => false,
    }
}

/// Whether the program `id` is known and has stopped.
pub fn state_is_stopped(st: &HashMap<u64, RunState>, id: u64) -> (r: bool)
    ensures
        r == (st@.contains_key(id) && st@[id] is Stopped),
{
    broadcast use vstd::std_specs::hash::group_hash_axioms;

    match st.get(&id) {
        Some(rs) => run_stopped(rs),
        None => false,
    }
}

/// Which question to ask of each program's run state.
#[derive(Debug, Clone, Copy, PartialEq, Eq, Structural)]
pub enum StateQuery {
    Exited,
    Running,
    Stopped,
}

/// The answer of a run state to a question.
pub open spec fn spec_answer(q: StateQuery, st: RunState) -> bool {
    match q {
        StateQuery::Exited => spec_run_exited(st),
        StateQuery::Running => st is Running,
        StateQuery::Stopped => st is Stopped,
    }
}

/// For each program, the answer of its run state to the question.
pub fn state_answers(st: &HashMap<u64, RunState>, q: StateQuery) -> (r: HashMap<u64, bool>)
    ensures
        r@.dom() == st@.dom(),
        forall|k: u64| st@.contains_key(k) ==> r@[k] == spec_answer(q, #[trigger] st@[k]),
{
    broadcast use vstd::std_specs::hash::group_hash_axioms;

    let keys = map_keys(st);
    let mut out: HashMap<u64, bool> = HashMap::new();
    let mut i: usize = 0;
    while i < keys.len()
        invariant
            i <= keys.len(),
            keys@.to_set() == st@.dom(),
            forall|k: u64| out@.contains_key(k) <==> exists|j: int| 0 <= j < i && keys@[j] == k,
            forall|k: u64| out@.contains_key(k) ==> out@[k] == spec_answer(q, st@[k]),
        decreases keys.len() - i,
    {
        let k: u64 = keys[i];
        assert(keys@.to_set().contains(keys@[i as int]));
        let ghost before = out@;
        match st.get(&k) {
            Some(rs) => {
                let answer = match q {
                    StateQuery::Exited => run_exited(rs),
                    StateQuery::Running => run_running(rs),
                    StateQuery::Stopped => run_stopped(rs),
                };
                out.insert(k, answer);
            },
            None => {
                assert(false);
            },
        }
        proof {
            assert forall|x: u64| out@.contains_key(x) <==> exists|j: int|
                0 <= j < i + 1 && keys@[j] == x by {
                if out@.contains_key(x) {
                    if x == k {
                        assert(keys@[i as int] == x);
                    } else {
                        assert(before.contains_key(x));
                        let j = choose|j: int| 0 <= j < i && keys@[j] == x;
                        assert(0 <= j < i + 1 && keys@[j] == x);
                    }
                }
                if exists|j: int| 0 <= j < i + 1 && keys@[j] == x {
                    let j = choose|j: int| 0 <= j < i + 1 && keys@[j] == x;
                    if j < i {
                        assert(before.contains_key(x));
                    }
                }
            }
        }
        i = i + 1;
    }
    proof {
        assert forall|k: u64| st@.contains_key(k) implies out@.contains_key(k) by {
            assert(keys@.to_set().contains(k));
            let j = choose|j: int| 0 <= j < keys@.len() && keys@[j] == k;
            assert(0 <= j < i && keys@[j] == k);
        }
        assert forall|k: u64| out@.contains_key(k) implies st@.contains_key(k) by {
            let j = choose|j: int| 0 <= j < i && keys@[j] == k;
            assert(keys@.to_set().contains(keys@[j]));
        }
        assert(out@.dom() =~= st@.dom());
    }
    out
}

/// Whether every answer is yes.
pub fn all_true(answers: &HashMap<u64, bool>) -> (r: bool)
    ensures
        r == forall|k: u64| answers@.contains_key(k) ==> #[trigger] answers@[k],
{
    broadcast use vstd::std_specs::hash::group_hash_axioms;

    let keys = map_keys(answers);
    let mut i: usize = 0;
    while i < keys.len()
        invariant
            i <= keys.len(),
            keys@.to_set() == answers@.dom(),
            forall|j: int| 0 <= j < i ==> answers@[#[trigger] keys@[j]],
        decreases keys.len() - i,
    {
        assert(keys@.to_set().contains(keys@[i as int]));
        match answers.get(&keys[i]) {
            Some(b) => {
                if !*b {
                    return false;
                }
            },
            None => {
                assert(false);
            },
        }
        i = i + 1;
    }
    proof {
        assert forall|k: u64| answers@.contains_key(k) implies #[trigger] answers@[k] by {
            assert(keys@.to_set().contains(k));
            let j = choose|j: int| 0 <= j < keys@.len() && keys@[j] == k;
            assert(answers@[keys@[j]]);
        }
    }
    true
}

/// What comes of asking each program of a run state, where `st` is what
/// `state` has returned: its error, or the answer for each program.
pub open spec fn answers_of(
    st: Result<HashMap<u64, RunState>, String>,
    q: StateQuery,
    r: Result<HashMap<u64, bool>, String>,
) -> bool {
    match st {
        Ok(m) => r is Ok && r->Ok_0@.dom() == m@.dom() && forall|k: u64|
            m@.contains_key(k) ==> r->Ok_0@[k] == spec_answer(q, #[trigger] m@[k]),
        Err(e) => r == Err::<HashMap<u64, bool>, String>(e),
    }
}

/// What comes of asking the program `id` of a run state, where `st` is what
/// `state` has returned: its error, or whether the program is known and
/// answers yes.
pub open spec fn answer_of(
    st: Result<HashMap<u64, RunState>, String>,
    q: StateQuery,
    id: u64,
    r: Result<bool, String>,
) -> bool {
    match st {
        Ok(m) => r == Ok::<bool, String>(m@.contains_key(id) && spec_answer(q, m@[id])),
        Err(e) => r == Err::<bool, String>(e),
    }
}

/// The surface of a debugger.
pub trait Debugger {
    /// Whether `st` is what `state` may return on the debugger `self`, and
    /// `after` the debugger it leaves behind. Each debugger may say so for
    /// itself, for this and for the other outcomes below; of one that does
    /// not, nothing is known of what the method returns. What the trait
    /// proves of its own methods, and what is proved of any debugger, holds
    /// whatever the debugger says here.
    open spec fn state_outcome(
        &self,
        after: &Self,
        st: Result<HashMap<u64, RunState>, String>,
    ) -> bool {
        true
    }

    /// Whether `r` is what `count` may return on the debugger `self`, and
    /// `after` the debugger it leaves behind.
    open spec fn count_outcome(&self, after: &Self, r: Result<u64, String>) -> bool {
        true
    }

    /// Whether `r` is what `start` may return on the debugger `self`, and
    /// `after` the debugger it leaves behind.
    open spec fn start_outcome(&self, after: &Self, r: Result<(), String>) -> bool {
        true
    }

    /// Whether `r` is what `stop` may return on the debugger `self`, and
    /// `after` the debugger it leaves behind.
    open spec fn stop_outcome(&self, after: &Self, r: Result<(), String>) -> bool {
        true
    }

    /// Whether `r` is what `cont` may return on the debugger `self`, and
    /// `after` the debugger it leaves behind.
    open spec fn cont_outcome(&self, after: &Self, r: Result<(), String>) -> bool {
        true
    }

    /// Whether `r` is what `snapshot` may return on the debugger `self`,
    /// and `after` the debugger it leaves behind.
    open spec fn snapshot_outcome(
        &self,
        after: &Self,
        r: Result<HashMap<u64, (u64, Vec<BacktraceState>)>, String>,
    ) -> bool {
        true
    }

    /// Whether `r` is what `symbols` may return on the debugger `self`, and
    /// `after` the debugger it leaves behind.
    open spec fn symbols_outcome(&self, after: &Self, r: Result<SymbolTable, String>) -> bool {
        true
    }

    /// How many debuggers stand behind this one.
    fn count(&mut self) -> (r: Result<u64, String>)
        ensures
            old(self).count_outcome(final(self), r),
    ;

    /// Gives the debugger its identifier.
    fn set_id(&mut self, id: u64);

    /// The identifier of the debugger; 0 where it was given none.
    fn get_id(&self) -> u64;

    /// Starts the program.
    fn start(&mut self) -> (r: Result<(), String>)
        ensures
            old(self).start_outcome(final(self), r),
    ;

    /// Stops the program.
    fn stop(&mut self) -> (r: Result<(), String>)
        ensures
            old(self).stop_outcome(final(self), r),
    ;

    /// Lets a stopped program go on.
    fn cont(&mut self) -> (r: Result<(), String>)
        ensures
            old(self).cont_outcome(final(self), r),
    ;

    /// The run state of each program.
    fn state(&mut self) -> (r: Result<HashMap<u64, RunState>, String>)
        ensures
            old(self).state_outcome(final(self), r),
    ;

    /// The deduplicated backtraces of the stopped programs.
    fn snapshot(&mut self) -> (r: Result<HashMap<u64, (u64, Vec<BacktraceState>)>, String>)
        ensures
            old(self).snapshot_outcome(final(self), r),
    ;

    /// The symbols of the program.
    fn symbols(&mut self) -> (r: Result<SymbolTable, String>)
        ensures
            old(self).symbols_outcome(final(self), r),
    ;

    /// Whether the program `id` has come to its end: the error of `state`,
    /// or whether the state that it returned knows the program as exited.
    fn id_is_exited(&mut self, id: u64) -> (r: Result<bool, String>)
        ensures
            exists|st: Result<HashMap<u64, RunState>, String>|
                #[trigger] old(self).state_outcome(final(self), st) && answer_of(
                    st,
                    StateQuery::Exited,
                    id,
                    r,
                ),
    {
        match self.state() {
            Ok(st) => Ok(state_is_exited(&st, id)),
            Err(e) => Err(e),
        }
    }

    /// Whether the program `id` is in execution: the error of `state`, or
    /// whether the state that it returned knows the program as running.
    fn id_is_running(&mut self, id: u64) -> (r: Result<bool, String>)
        ensures
            exists|st: Result<HashMap<u64, RunState>, String>|
                #[trigger] old(self).state_outcome(final(self), st) && answer_of(
                    st,
                    StateQuery::Running,
                    id,
                    r,
                ),
    {
        match self.state() {
            Ok(st) => Ok(state_is_running(&st, id)),
            Err(e) => Err(e),
        }
    }

    /// Whether the program `id` has stopped: the error of `state`, or
    /// whether the state that it returned knows the program as stopped.
    fn id_is_stopped(&mut self, id: u64) -> (r: Result<bool, String>)
        ensures
            exists|st: Result<HashMap<u64, RunState>, String>|
                #[trigger] old(self).state_outcome(final(self), st) && answer_of(
                    st,
                    StateQuery::Stopped,
                    id,
                    r,
                ),
    {
        match self.state() {
            Ok(st) => Ok(state_is_stopped(&st, id)),
            Err(e) => Err(e),
        }
    }

    /// For each program, whether it has come to its end: the error of
    /// `state`, or the answer for each program of the state that it
    /// returned.
    fn isexited(&mut self) -> (r: Result<HashMap<u64, bool>, String>)
        ensures
            exists|st: Result<HashMap<u64, RunState>, String>|
                #[trigger] old(self).state_outcome(final(self), st) && answers_of(
                    st,
                    StateQuery::Exited,
                    r,
                ),
    {
        match self.state() {
            Ok(st) => Ok(state_answers(&st, StateQuery::Exited)),
            Err(e) => Err(e),
        }
    }

    /// For each program, whether it is in execution: the error of `state`,
    /// or the answer for each program of the state that it returned.
    fn isrunning(&mut self) -> (r: Result<HashMap<u64, bool>, String>)
        ensures
            exists|st: Result<HashMap<u64, RunState>, String>|
                #[trigger] old(self).state_outcome(final(self), st) && answers_of(
                    st,
                    StateQuery::Running,
                    r,
                ),
    {
        match self.state() {
            Ok(st) => Ok(state_answers(&st, StateQuery::Running)),
            Err(e) => Err(e),
        }
    }

    /// Whether every program is in execution: the error of `state`, or
    /// whether every program of the state that it returned runs.
    fn all_running(&mut self) -> (r: Result<bool, String>)
        ensures
            exists|st: Result<HashMap<u64, RunState>, String>|
                #[trigger] old(self).state_outcome(final(self), st) && match st {
                    Ok(m) => r == Ok::<bool, String>(
                        forall|k: u64| m@.contains_key(k) ==> #[trigger] m@[k] is Running,
                    ),
                    Err(e) => r == Err::<bool, String>(e),
                },
    {
        let answers = self.isrunning();
        let ghost st = choose|st: Result<HashMap<u64, RunState>, String>|
            #[trigger] old(self).state_outcome(self, st) && answers_of(
                st,
                StateQuery::Running,
                answers,
            );
        match answers {
            Ok(runs) => {
                let all = all_true(&runs);
                proof {
                    let m = st->Ok_0;
                    assert(st is Ok);
                    assert(all == forall|k: u64|
                        m@.contains_key(k) ==> #[trigger] m@[k] is Running) by {
                        if all {
                            assert forall|k: u64| m@.contains_key(k) implies #[trigger] m@[k]
                                is Running by {
                                assert(runs@.contains_key(k));
                                assert(runs@[k]);
                            }
                        } else {
                            let k = choose|k: u64| runs@.contains_key(k) && !#[trigger] runs@[k];
                            assert(m@.contains_key(k));
                            assert(!(m@[k] is Running));
                        }
                    }
                }
                Ok(all)
            },
            Err(e) => Err(e),
        }
    }

    /// For each program, whether it has stopped: the error of `state`, or
    /// the answer for each program of the state that it returned.
    fn isstopped(&mut self) -> (r: Result<HashMap<u64, bool>, String>)
        ensures
            exists|st: Result<HashMap<u64, RunState>, String>|
                #[trigger] old(self).state_outcome(final(self), st) && answers_of(
                    st,
                    StateQuery::Stopped,
                    r,
                ),
    {
        match self.state() {
            Ok(st) => Ok(state_answers(&st, StateQuery::Stopped)),
            Err(e) => Err(e),
        }
    }
}

/// The debugger of a node that drives no program.
#[derive(Debug)]
pub struct DummyDebugger;

impl Debugger for DummyDebugger {
    open spec fn state_outcome(
        &self,
        after: &Self,
        st: Result<HashMap<u64, RunState>, String>,
    ) -> bool {
        st is Ok && st->Ok_0@ == Map::<u64, RunState>::empty()
    }

    open spec fn count_outcome(&self, after: &Self, r: Result<u64, String>) -> bool {
        r == Ok::<u64, String>(0)
    }

    open spec fn start_outcome(&self, after: &Self, r: Result<(), String>) -> bool {
        r is Err && r->Err_0@ == "Dummy debugger"@
    }

    open spec fn stop_outcome(&self, after: &Self, r: Result<(), String>) -> bool {
        r is Err && r->Err_0@ == "Dummy debugger"@
    }

    open spec fn cont_outcome(&self, after: &Self, r: Result<(), String>) -> bool {
        r is Err && r->Err_0@ == "Dummy debugger"@
    }

    open spec fn snapshot_outcome(
        &self,
        after: &Self,
        r: Result<HashMap<u64, (u64, Vec<BacktraceState>)>, String>,
    ) -> bool {
        r is Ok && r->Ok_0@ == Map::<u64, (u64, Vec<BacktraceState>)>::empty()
    }

    open spec fn symbols_outcome(&self, after: &Self, r: Result<SymbolTable, String>) -> bool {
        r is Err && r->Err_0@ == "Dummy debugger"@
    }

    fn count(&mut self) -> (r: Result<u64, String>)
        ensures
            r == Ok::<u64, String>(0),
    {
        Ok(0)
    }

    fn set_id(&mut self, id: u64) {
    }

    fn get_id(&self) -> (r: u64)
        ensures
            r == 0,
    {
        0
    }

    fn start(&mut self) -> (r: Result<(), String>)
        ensures
            r is Err && r->Err_0@ == "Dummy debugger"@,
    {
        Err(String::from_str("Dummy debugger"))
    }

    fn stop(&mut self) -> (r: Result<(), String>)
        ensures
            r is Err && r->Err_0@ == "Dummy debugger"@,
    {
        Err(String::from_str("Dummy debugger"))
    }

    fn cont(&mut self) -> (r: Result<(), String>)
        ensures
            r is Err && r->Err_0@ == "Dummy debugger"@,
    {
        Err(String::from_str("Dummy debugger"))
    }

    fn state(&mut self) -> (r: Result<HashMap<u64, RunState>, String>)
        ensures
            r is Ok && r->Ok_0@ == Map::<u64, RunState>::empty(),
    {
        Ok(HashMap::new())
    }

    fn snapshot(&mut self) -> (r: Result<HashMap<u64, (u64, Vec<BacktraceState>)>, String>)
        ensures
            r is Ok && r->Ok_0@ == Map::<u64, (u64, Vec<BacktraceState>)>::empty(),
    {
        Ok(HashMap::new())
    }

    fn symbols(&mut self) -> (r: Result<SymbolTable, String>)
        ensures
            r is Err && r->Err_0@ == "Dummy debugger"@,
    {
        Err(String::from_str("Dummy debugger"))
    }
}

} // verus!
