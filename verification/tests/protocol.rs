use gdb_machine::machine::{pivot_from_response, pivot_response, Dispatch};
use gdb_machine::metadata::{ProcessInfo, RunState, Symbol, SymbolTable};
use gdb_machine::protocol::{GdbMachineCommand, GdbMachineResponse};
use gdb_machine::debugger::{Debugger, DummyDebugger};
use gdb_machine::tree::PivotError;
use gdb_machine::{GdbMachine, TreeState};
use std::collections::HashMap;

type Resp = GdbMachineResponse;

fn info(locator: &str) -> ProcessInfo {
    ProcessInfo { mpirank: Some(2), pid: 9, hostname: "h".to_string(), locality_descriptor: locator.to_string() }
}

#[test]
fn ok_reads_the_three_kinds_of_answer() {
    assert!(Resp::Okay.ok().is_ok());
    assert_eq!(Resp::Error("boom".to_string()).ok().unwrap_err(), "Error: boom");
    assert_eq!(Resp::Count(1).ok().unwrap_err(), "This is not a return type");
    assert_eq!(Resp::State(HashMap::new()).ok().unwrap_err(), "This is not a return type");
}

#[test]
fn results_become_responses() {
    assert!(matches!(Resp::from_result(Ok(())), Resp::Okay));
    assert!(matches!(Resp::from_result(Err("e".to_string())), Resp::Error(e) if e == "e"));
    let mut st = HashMap::new();
    st.insert(4, RunState::Running("x".to_string()));
    assert!(matches!(Resp::from_state(Ok(st)), Resp::State(m) if m.len() == 1 && m.contains_key(&4)));
    assert!(matches!(Resp::from_state(Err("s".to_string())), Resp::Error(e) if e == "s"));
    assert!(matches!(Resp::snapshot_from_result(Ok(HashMap::new())), Resp::Snapshot(m) if m.is_empty()));
    assert!(matches!(Resp::snapshot_from_result(Err("n".to_string())), Resp::Error(e) if e == "n"));
    let mut table = SymbolTable::default();
    table.insert("a.c".to_string(), vec![Symbol { name: "f".to_string(), address: None, line: None, type_: None, description: None }]);
    assert!(matches!(Resp::symbols_from_result(Ok(table)), Resp::Symbols(t) if t.symbols_per_file.len() == 1));
    assert!(matches!(Resp::symbols_from_result(Err("y".to_string())), Resp::Error(e) if e == "y"));
}

#[test]
fn responses_give_their_payload_back() {
    let mut st = HashMap::new();
    st.insert(4, RunState::Running("x".to_string()));
    assert_eq!(Resp::State(st).state().len(), 1);
    assert!(Resp::Snapshot(HashMap::new()).snapshot().unwrap().is_empty());
    assert_eq!(Resp::Okay.snapshot().unwrap_err(), "Failed to retrieve snapshot from command");
    assert!(Resp::Symbols(SymbolTable::default()).symbols().unwrap().symbols_per_file.is_empty());
    assert_eq!(Resp::Count(1).symbols().unwrap_err(), "Failed to retrieve snapshot from command");
}

#[test]
fn commands_clone_with_their_payload() {
    match GdbMachineCommand::Pivot(info("loc"), "me:1".to_string()).clone() {
        GdbMachineCommand::Pivot(p, url) => {
            assert_eq!(p.locality_descriptor, "loc");
            assert_eq!(p.mpirank, Some(2));
            assert_eq!(url, "me:1");
        }
        other => panic!("expected a pivot, got {:?}", other),
    }
    assert!(matches!(GdbMachineCommand::Join("u".to_string()).clone(), GdbMachineCommand::Join(u) if u == "u"));
    assert!(matches!(GdbMachineCommand::GetSnapshot.clone(), GdbMachineCommand::GetSnapshot));
}

#[test]
fn url_is_host_and_port() {
    assert_eq!(GdbMachine::new("node1".to_string(), 4000).url(), "node1:4000");
    assert_eq!(GdbMachine::new("h".to_string(), 0).url(), "h:0");
    assert_eq!(GdbMachine::new("h".to_string(), u16::MAX).url(), "h:65535");
}

#[test]
fn dummy_debugger_answers_as_a_node_without_program() {
    let mut d = DummyDebugger;
    assert_eq!(d.count().unwrap(), 0);
    d.set_id(5);
    assert_eq!(d.get_id(), 0);
    assert_eq!(d.start().unwrap_err(), "Dummy debugger");
    assert_eq!(d.stop().unwrap_err(), "Dummy debugger");
    assert_eq!(d.cont().unwrap_err(), "Dummy debugger");
    assert!(d.state().unwrap().is_empty());
    assert!(d.snapshot().unwrap().is_empty());
    assert_eq!(d.symbols().unwrap_err(), "Dummy debugger");
    assert!(!d.id_is_exited(0).unwrap());
    assert!(!d.id_is_running(0).unwrap());
    assert!(!d.id_is_stopped(0).unwrap());
    assert!(d.isexited().unwrap().is_empty());
    assert!(d.isrunning().unwrap().is_empty());
    assert!(d.isstopped().unwrap().is_empty());
    assert!(d.all_running().unwrap());
}

#[test]
fn do_cmd_wraps_what_the_debugger_returns() {
    let mut d = DummyDebugger;
    assert!(matches!(GdbMachine::do_cmd(&mut d, &GdbMachineCommand::Start), Some(Resp::Error(e)) if e == "Dummy debugger"));
    assert!(matches!(GdbMachine::do_cmd(&mut d, &GdbMachineCommand::Stop), Some(Resp::Error(_))));
    assert!(matches!(GdbMachine::do_cmd(&mut d, &GdbMachineCommand::Continue), Some(Resp::Error(_))));
    assert!(matches!(GdbMachine::do_cmd(&mut d, &GdbMachineCommand::Count), Some(Resp::Count(0))));
    assert!(matches!(GdbMachine::do_cmd(&mut d, &GdbMachineCommand::GetState), Some(Resp::State(m)) if m.is_empty()));
    assert!(matches!(GdbMachine::do_cmd(&mut d, &GdbMachineCommand::GetSnapshot), Some(Resp::Snapshot(m)) if m.is_empty()));
    assert!(matches!(GdbMachine::do_cmd(&mut d, &GdbMachineCommand::GetSymbols), Some(Resp::Error(_))));
    assert!(GdbMachine::do_cmd(&mut d, &GdbMachineCommand::Join("u".to_string())).is_none());
    assert!(GdbMachine::do_cmd(&mut d, &GdbMachineCommand::Pivot(info("l"), "u".to_string())).is_none());
}

#[test]
fn tree_commands_seat_and_connect() {
    let mut t = TreeState::default();
    t.set_root("root:1".to_string());
    match GdbMachine::do_tree_cmd(&mut t, &GdbMachineCommand::Pivot(info("a"), "a:1".to_string())) {
        Dispatch::Reply(Some(Resp::Pivot(id, url))) => {
            assert_eq!(id, 1);
            assert_eq!(url, "root:1");
        }
        other => panic!("expected a seat, got {:?}", other),
    }
    match GdbMachine::do_tree_cmd(&mut t, &GdbMachineCommand::Pivot(info("a"), "b:1".to_string())) {
        Dispatch::Reply(Some(Resp::Error(e))) => assert!(e.contains("already registered")),
        other => panic!("expected an error, got {:?}", other),
    }
    assert!(matches!(
        GdbMachine::do_tree_cmd(&mut t, &GdbMachineCommand::Join("c:1".to_string())),
        Dispatch::Connect(u) if u == "c:1"
    ));
    assert_eq!(t.children_count(), 0);
    assert!(matches!(GdbMachine::do_tree_cmd(&mut t, &GdbMachineCommand::Start), Dispatch::Reply(None)));
    assert_eq!(t.tree_count(), Some(1));
}

#[test]
fn join_result_records_a_connected_child() {
    let mut t = TreeState::default();
    assert!(matches!(GdbMachine::join_result(&mut t, "c:1".to_string(), Ok(())), Resp::Okay));
    assert_eq!(t.children_count(), 1);
    assert!(matches!(
        GdbMachine::join_result(&mut t, "d:1".to_string(), Err("refused".to_string())),
        Resp::Error(e) if e == "refused"
    ));
    assert_eq!(t.children_count(), 1);
}

#[test]
fn run_command_needs_a_local_answer() {
    assert!(matches!(GdbMachine::_run_command(Some(Resp::Count(1)), Some(Resp::Count(2))), Resp::Count(3)));
    assert!(matches!(GdbMachine::_run_command(Some(Resp::Okay), None), Resp::Okay));
    assert!(matches!(
        GdbMachine::_run_command(None, Some(Resp::Okay)),
        Resp::Error(e) if e == "Local command did not return a response"
    ));
}

#[test]
fn waiting_for_children_compares_counts() {
    assert!(GdbMachine::all_seated(Some(4), 4));
    assert!(!GdbMachine::all_seated(Some(3), 4));
    assert!(!GdbMachine::all_seated(None, 0));
    assert!(GdbMachine::all_connected(4, 4));
    assert!(!GdbMachine::all_connected(4, 5));
}

#[test]
fn pivot_answers_are_read_and_written() {
    assert!(matches!(pivot_response(Ok((7, "u:1".to_string()))), Resp::Pivot(7, u) if u == "u:1"));
    assert!(matches!(
        pivot_response(Err(PivotError::AlreadyRegistered("x".to_string()))),
        Resp::Error(e) if e == "Process \"x\" is already registered"
    ));
    assert_eq!(pivot_from_response(Resp::Pivot(7, "u:1".to_string())).unwrap(), (7, "u:1".to_string()));
    assert_eq!(pivot_from_response(Resp::Okay).unwrap_err(), "Bad response for pivot");
    assert_eq!(pivot_from_response(Resp::Error("e".to_string())).unwrap_err(), "Bad response for pivot");
}

struct Scripted {
    broken: bool,
}

#[test]
fn counts_become_responses() {
    assert!(matches!(Resp::count_from_result(Ok(4)), Resp::Count(4)));
    assert!(matches!(Resp::count_from_result(Err("c".to_string())), Resp::Error(e) if e == "c"));
}

impl Debugger for Scripted {
    fn count(&mut self) -> Result<u64, String> {
        if self.broken {
            return Err("no count".to_string());
        }
        Ok(3)
    }

    fn set_id(&mut self, _id: u64) {}

    fn get_id(&self) -> u64 {
        0
    }

    fn start(&mut self) -> Result<(), String> {
        Ok(())
    }

    fn stop(&mut self) -> Result<(), String> {
        Ok(())
    }

    fn cont(&mut self) -> Result<(), String> {
        Ok(())
    }

    fn state(&mut self) -> Result<HashMap<u64, RunState>, String> {
        if self.broken {
            return Err("no state".to_string());
        }
        let mut m = HashMap::new();
        m.insert(1, RunState::Running("r".to_string()));
        m.insert(2, RunState::new_from_gdb("stopped,reason=\"exited\"\n").unwrap());
        m.insert(3, RunState::new_from_gdb("stopped,reason=\"breakpoint-hit\"\n").unwrap());
        Ok(m)
    }

    fn snapshot(&mut self) -> Result<HashMap<u64, (u64, Vec<gdb_machine::metadata::BacktraceState>)>, String> {
        Ok(HashMap::new())
    }

    fn symbols(&mut self) -> Result<SymbolTable, String> {
        Ok(SymbolTable::default())
    }
}

#[test]
fn default_methods_answer_from_the_state() {
    let mut d = Scripted { broken: false };
    assert_eq!(d.id_is_exited(2), Ok(true));
    assert_eq!(d.id_is_exited(3), Ok(false));
    assert_eq!(d.id_is_exited(9), Ok(false));
    assert_eq!(d.id_is_running(1), Ok(true));
    assert_eq!(d.id_is_running(2), Ok(false));
    assert_eq!(d.id_is_stopped(3), Ok(true));
    assert_eq!(d.id_is_stopped(1), Ok(false));
    let exited = d.isexited().unwrap();
    assert_eq!((exited[&1], exited[&2], exited[&3]), (false, true, false));
    let running = d.isrunning().unwrap();
    assert_eq!((running[&1], running[&2], running[&3]), (true, false, false));
    let stopped = d.isstopped().unwrap();
    assert_eq!((stopped[&1], stopped[&2], stopped[&3]), (false, true, true));
    assert_eq!(stopped.len(), 3);
    assert_eq!(d.all_running(), Ok(false));
    assert!(matches!(GdbMachine::do_cmd(&mut d, &GdbMachineCommand::Count), Some(Resp::Count(3))));
    assert!(matches!(GdbMachine::do_cmd(&mut d, &GdbMachineCommand::Start), Some(Resp::Okay)));
    assert!(matches!(GdbMachine::do_cmd(&mut d, &GdbMachineCommand::GetState), Some(Resp::State(m)) if m.len() == 3));
}

#[test]
fn default_methods_hand_on_the_error_of_state() {
    let mut d = Scripted { broken: true };
    assert_eq!(d.id_is_exited(1), Err("no state".to_string()));
    assert_eq!(d.id_is_running(1), Err("no state".to_string()));
    assert_eq!(d.id_is_stopped(1), Err("no state".to_string()));
    assert_eq!(d.isexited().unwrap_err(), "no state");
    assert_eq!(d.isrunning().unwrap_err(), "no state");
    assert_eq!(d.isstopped().unwrap_err(), "no state");
    assert_eq!(d.all_running(), Err("no state".to_string()));
    assert!(matches!(GdbMachine::do_cmd(&mut d, &GdbMachineCommand::Count), Some(Resp::Error(e)) if e == "no count"));
    assert!(matches!(GdbMachine::do_cmd(&mut d, &GdbMachineCommand::GetState), Some(Resp::Error(e)) if e == "no state"));
}
