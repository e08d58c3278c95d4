use gdb_machine::debugger::{
    all_true, run_exited, run_running, run_stopped, state_answers, state_is_exited,
    state_is_running, state_is_stopped, StateQuery,
};
use gdb_machine::gdbmi::{
    backtrace, classify_line, frames_from_records, leaf_components, list_thread_id, locals,
    locals_command, numbers_from_texts, select_thread_command, symbol_table_from_record,
    symbols_payload, to_common_symbols, AwaitStep, GdbFileSymbols, GdbMiCommandResponse,
    GdbMiRemote, GdbMiState, GdbSymbol, GdbSymbolRecord, LineClass, LineEffect, RunStateError,
};
use gdb_machine::metadata::{ProgramSnapshot, RunState};
use std::collections::HashMap;

fn stopped_line(reason: &str) -> String {
    format!("*stopped,reason=\"{}\",thread-id=\"1\"\n", reason)
}

fn gsym(name: &str, line: Option<&str>) -> GdbSymbol {
    GdbSymbol {
        name: name.to_string(),
        address: Some("0x10".to_string()),
        line: line.map(|l| l.to_string()),
        type_: Some("int (void)".to_string()),
        description: None,
    }
}

#[test]
fn debugger_arguments_wrap_the_command() {
    let r = GdbMiRemote::Command(vec!["/bin/sleep".to_string(), "3600".to_string()]);
    assert_eq!(r.gdbargs(), vec!["--interpreter=mi3", "--args", "/bin/sleep", "3600"]);
    assert_eq!(GdbMiRemote::Command(Vec::new()).gdbargs(), vec!["--interpreter=mi3", "--args"]);
}

#[test]
fn responses_are_read_by_their_class() {
    assert!(matches!(GdbMiCommandResponse::new("done,x=\"1\""), GdbMiCommandResponse::Done(p) if p == ",x=\"1\""));
    assert!(matches!(GdbMiCommandResponse::new("running"), GdbMiCommandResponse::Done(p) if p.is_empty()));
    assert!(matches!(GdbMiCommandResponse::new("error,msg=\"no\""), GdbMiCommandResponse::Error(p) if p == ",msg=\"no\""));
    assert!(matches!(GdbMiCommandResponse::new("exit"), GdbMiCommandResponse::ParseError(p) if p == "exit"));
    assert!(matches!(GdbMiCommandResponse::new(""), GdbMiCommandResponse::ParseError(p) if p.is_empty()));
}

#[test]
fn responses_become_results() {
    assert_eq!(GdbMiCommandResponse::Done("x".to_string()).into_result().unwrap(), "x");
    assert_eq!(
        GdbMiCommandResponse::Error("e".to_string()).into_result().unwrap_err(),
        "Command returned an error : e"
    );
    assert_eq!(
        GdbMiCommandResponse::ParseError("p".to_string()).into_result().unwrap_err(),
        "Failed to parse response : p"
    );
}

#[test]
fn run_states_are_read_from_records() {
    assert!(matches!(RunState::new_from_gdb("running,thread-id=\"all\"\n").unwrap(), RunState::Running(c) if c == ",thread-id=\"all\"\n"));
    match RunState::new_from_gdb("stopped,reason=\"exited\",exit-code=\"3\"\n").unwrap() {
        RunState::Stopped(r) => {
            assert_eq!(r.reason, "exited");
            assert_eq!(r.exit_code, Some(3));
        }
        RunState::Running(_) => panic!("a stopped record reads as stopped"),
    }
    let e = RunState::new_from_gdb("paused\n").unwrap_err();
    assert!(matches!(&e, RunStateError::NoSuchState(r) if r == "paused\n"));
    assert_eq!(e.message(), "No such gdb run state: paused\n");
    assert_eq!(RunStateError::BadPattern.message(), "The pattern of a stop record does not compile");
}

#[test]
fn lines_are_classified_by_their_sigil() {
    assert!(matches!(classify_line("~\"hello\"\n"), LineClass::Log(l) if l == "\"hello\"\n"));
    assert!(matches!(classify_line("4^done,a\n"), LineClass::Response(4, p) if p == "done,a"));
    assert!(matches!(classify_line("*running,thread-id=\"all\"\n"), LineClass::Record(r) if r == "running,thread-id=\"all\"\n"));
    assert!(matches!(classify_line("=thread-created,id=\"1\"\n"), LineClass::Skipped));
    assert!(matches!(classify_line("&\"warning\"\n"), LineClass::Skipped));
    assert!(matches!(classify_line("(gdb) \n"), LineClass::Skipped));
    assert!(matches!(classify_line("\u{1b}[H\u{1b}[2J"), LineClass::Skipped));
    assert!(matches!(classify_line("hello from the program\n"), LineClass::Echo));
    assert!(matches!(classify_line(""), LineClass::Echo));
    assert!(matches!(classify_line("^done\n"), LineClass::Echo));
}

#[test]
fn reader_fills_log_answers_and_run_state() {
    let mut st = GdbMiState::new();
    assert!(st.isrunning());
    assert!(st.get_stop_state().is_none());
    assert!(matches!(st.consume_line("~\"GNU gdb\"\n").unwrap(), LineEffect::Logged));
    assert!(matches!(st.consume_line("~\"ready\"\n").unwrap(), LineEffect::Logged));
    assert!(matches!(st.consume_line("=thread-group-added,id=\"i1\"\n").unwrap(), LineEffect::Ignored));
    assert!(matches!(st.consume_line("hello\n").unwrap(), LineEffect::Echo));
    assert!(matches!(st.consume_line("0^done\n").unwrap(), LineEffect::Answered(0)));
    assert!(matches!(st.consume_line("3^error,msg=\"bad\"\n").unwrap(), LineEffect::Answered(3)));
    assert!(matches!(st.resps.get(&0), Some(GdbMiCommandResponse::Done(p)) if p.is_empty()));
    assert!(matches!(st.resps.get(&3), Some(GdbMiCommandResponse::Error(p)) if p == ",msg=\"bad\""));
    assert!(matches!(st.consume_line("*running,thread-id=\"all\"\n").unwrap(), LineEffect::StateChanged));
    assert!(matches!(st.runstate, Some(RunState::Running(_))));
    assert!(matches!(st.consume_line(&stopped_line("signal-received")).unwrap(), LineEffect::StateChanged));
    assert_eq!(st.get_stop_state().unwrap().reason, "signal-received");
    assert!(st.isrunning());
    assert!(matches!(st.consume_line("*weird\n").unwrap_err(), RunStateError::NoSuchState(_)));
    assert_eq!(st.get_stop_state().unwrap().reason, "signal-received");
    assert_eq!(st.getlog(), vec!["\"GNU gdb\"\n", "\"ready\"\n"]);
    assert!(st.getlog().is_empty());
    st.consume_line(&stopped_line("exited-normally")).unwrap();
    assert!(!st.isrunning());
}

#[test]
fn later_answers_replace_unfetched_ones() {
    let mut st = GdbMiState::new();
    st.pushresp(1, GdbMiCommandResponse::Done("old".to_string()));
    st.pushresp(1, GdbMiCommandResponse::Done("new".to_string()));
    assert_eq!(st.resps.len(), 1);
    assert!(matches!(st.poll_response(1, 0, 0), AwaitStep::Ready(GdbMiCommandResponse::Done(p)) if p == "new"));
    assert!(st.resps.is_empty());
}

#[test]
fn commands_get_rising_tokens() {
    let mut st = GdbMiState::new();
    assert_eq!(st.next_command("-exec-run"), Some((0, "0-exec-run\n".to_string())));
    assert_eq!(st.next_command("-exec-interrupt --all"), Some((1, "1-exec-interrupt --all\n".to_string())));
    assert_eq!(st.response_id, 2);
    st.response_id = u64::MAX;
    assert_eq!(st.next_command("-x"), None);
    assert_eq!(st.response_id, u64::MAX);
}

#[test]
fn waiting_ends_with_the_answer_or_the_timeout() {
    let mut st = GdbMiState::new();
    assert!(matches!(st.poll_response(2, 0, 1_000_000), AwaitStep::Wait));
    assert!(matches!(st.poll_response(2, 100, 100), AwaitStep::Wait));
    assert!(matches!(st.poll_response(2, 100, 101), AwaitStep::TimedOut));
    st.consume_line("2^done,ok\n").unwrap();
    assert!(matches!(st.poll_response(1, 100, 101), AwaitStep::TimedOut));
    assert!(matches!(st.poll_response(2, 100, 101), AwaitStep::Ready(GdbMiCommandResponse::Done(p)) if p == ",ok"));
    assert!(matches!(st.poll_response(2, 0, 0), AwaitStep::Wait));
}

#[test]
fn stop_on_a_stopped_target_sends_nothing() {
    let mut st = GdbMiState::new();
    assert_eq!(st.stop_command().as_deref(), Some("-exec-interrupt --all"));
    st.consume_line("*running,thread-id=\"all\"\n").unwrap();
    assert_eq!(st.stop_command().as_deref(), Some("-exec-interrupt --all"));
    assert!(st.snapshot_needs_stop());
    st.consume_line(&stopped_line("signal-received")).unwrap();
    assert_eq!(st.stop_command(), None);
    assert!(!st.snapshot_needs_stop());
}

#[test]
fn continue_on_a_running_target_sends_nothing() {
    let mut st = GdbMiState::new();
    assert_eq!(st.cont_command().as_deref(), Some("-exec-continue"));
    st.consume_line("*running,thread-id=\"all\"\n").unwrap();
    assert_eq!(st.cont_command(), None);
    st.consume_line(&stopped_line("breakpoint-hit")).unwrap();
    assert_eq!(st.cont_command().as_deref(), Some("-exec-continue"));
}

#[test]
fn symbols_need_a_stopped_target() {
    let mut st = GdbMiState::new();
    assert_eq!(st.symbols_command().unwrap_err(), "Symbols can only be retrieved on a stopped target");
    st.consume_line("*running,thread-id=\"all\"\n").unwrap();
    assert_eq!(st.symbols_command().unwrap_err(), "Symbols can only be retrieved on a stopped target");
    st.consume_line(&stopped_line("signal-received")).unwrap();
    assert_eq!(st.symbols_command().unwrap(), "-symbol-info-functions --include-nondebug");
}

#[test]
fn state_is_keyed_by_the_identifier() {
    let mut st = GdbMiState::new();
    assert!(st.state(5).is_empty());
    st.consume_line("*running,thread-id=\"all\"\n").unwrap();
    let m = st.state(5);
    assert_eq!(m.len(), 1);
    assert!(matches!(&m[&5], RunState::Running(_)));
    assert!(state_is_running(&m, 5));
    assert!(!state_is_running(&m, 6));
    assert!(!state_is_stopped(&m, 5));
    assert!(!state_is_exited(&m, 5));
}

#[test]
fn exited_target_gives_the_placeholder_snapshot() {
    let mut st = GdbMiState::new();
    assert!(st.exited_snapshot().is_none());
    st.consume_line(&stopped_line("breakpoint-hit")).unwrap();
    assert!(st.exited_snapshot().is_none());
    st.consume_line("*stopped,reason=\"exited\",exit-code=\"2\"\n").unwrap();
    let snap = st.exited_snapshot().unwrap();
    assert_eq!(snap.state[&0][0].func, "Process has exited (no stack)");
    assert_eq!(snap.stop_state.as_ref().unwrap().exit_code, Some(2));
    let comps = leaf_components(4, snap);
    assert_eq!(comps.len(), 1);
    let (count, elems) = comps.values().next().unwrap();
    assert_eq!(*count, 1);
    assert_eq!(elems.len(), 2);
    assert_eq!(elems[0].print(), "exited ");
    assert_eq!(elems[1].print(), "Process has exited (no stack) Unknown:0");
}

#[test]
fn leaf_components_of_an_empty_snapshot_are_empty() {
    let snap = ProgramSnapshot { state: HashMap::new(), stop_state: None };
    assert!(leaf_components(1, snap).is_empty());
}

#[test]
fn state_helpers_answer_per_program() {
    let mut m = HashMap::new();
    m.insert(1, RunState::Running("r".to_string()));
    m.insert(2, RunState::new_from_gdb("stopped,reason=\"exited-normally\"\n").unwrap());
    m.insert(3, RunState::new_from_gdb("stopped,reason=\"breakpoint-hit\"\n").unwrap());
    assert!(run_running(&m[&1]) && !run_stopped(&m[&1]) && !run_exited(&m[&1]));
    assert!(run_stopped(&m[&2]) && run_exited(&m[&2]));
    assert!(run_stopped(&m[&3]) && !run_exited(&m[&3]));
    assert!(state_is_exited(&m, 2) && !state_is_exited(&m, 3) && !state_is_exited(&m, 9));
    assert!(state_is_stopped(&m, 2) && state_is_stopped(&m, 3) && !state_is_stopped(&m, 1));
    let exited = state_answers(&m, StateQuery::Exited);
    assert_eq!((exited[&1], exited[&2], exited[&3]), (false, true, false));
    let running = state_answers(&m, StateQuery::Running);
    assert_eq!((running[&1], running[&2], running[&3]), (true, false, false));
    let stopped = state_answers(&m, StateQuery::Stopped);
    assert_eq!((stopped[&1], stopped[&2], stopped[&3]), (false, true, true));
    assert!(!all_true(&running));
    assert!(all_true(&HashMap::new()));
    let mut yes = HashMap::new();
    yes.insert(1, true);
    yes.insert(2, true);
    assert!(all_true(&yes));
}

#[test]
fn thread_ids_are_read_from_the_list() {
    let resp = ",thread-ids={thread-id=\"3\",thread-id=\"2\",thread-id=\"1\"},current-thread-id=\"1\",number-of-threads=\"3\"";
    assert_eq!(list_thread_id(resp), Some(vec![3, 2, 1]));
    assert_eq!(list_thread_id(",thread-ids={}"), Some(Vec::new()));
    assert_eq!(list_thread_id(",thread-ids={thread-id=\"99999999999\",thread-id=\"7\"}"), Some(vec![7]));
    assert_eq!(numbers_from_texts(&vec!["1".to_string(), "x".to_string(), "+2".to_string()]), vec![1, 2]);
}

#[test]
fn frames_are_read_from_the_list() {
    let resp = ",stack=[frame={level=\"0\",addr=\"0x1\",func=\"nanosleep\",from=\"/lib/libc.so.6\"},frame={level=\"1\",addr=\"0x2\",func=\"main\",file=\"s.c\",fullname=\"/s.c\",line=\"9\"}]";
    let frames = backtrace(resp).unwrap();
    assert_eq!(frames.len(), 2);
    assert_eq!(frames[0].func, "nanosleep");
    assert_eq!(frames[0].level, 0);
    assert_eq!(frames[0].from.as_deref(), Some("/lib/libc.so.6"));
    assert_eq!(frames[1].func, "main");
    assert_eq!(frames[1].level, 1);
    assert_eq!(frames[1].line, Some(9));
    assert!(backtrace(",stack=[]").unwrap().is_empty());
    let direct = frames_from_records(&vec!["func=\"f\"".to_string(), "level=\"4\"".to_string()]);
    assert_eq!(direct[0].func, "f");
    assert_eq!(direct[1].level, 4);
}

#[test]
fn variables_are_read_from_the_list() {
    let resp = ",variables=[{name=\"argc\",arg=\"1\",value=\"2\"},{name=\"i\",value=\"0\"},{name=\"novalue\"},{name=\"p\",arg=\"0\",value=\"0x0\"}]";
    assert_eq!(
        locals(resp),
        vec![
            ("argc".to_string(), true, "2".to_string()),
            ("i".to_string(), false, "0".to_string()),
            ("p".to_string(), false, "0x0".to_string()),
        ]
    );
    assert!(locals(",variables=[]").is_empty());
}

#[test]
fn commands_carry_their_numbers() {
    assert_eq!(select_thread_command(12), "-thread-select 12");
    assert_eq!(select_thread_command(0), "-thread-select 0");
    assert_eq!(locals_command(3, 0), "-stack-list-variables --thread 3 --frame 0 --all-values");
}

#[test]
fn symbols_payload_is_made_ready_for_json() {
    assert_eq!(
        symbols_payload(",symbols={debug=[{filename=\"a.c\",symbols=[]}]}"),
        Ok(Some("{\"debug\" : [{\"filename\" : \"a.c\",\"symbols\" : []}]}".to_string()))
    );
    assert_eq!(symbols_payload(",other={}"), Ok(None));
    assert_eq!(symbols_payload(""), Ok(None));
    assert_eq!(symbols_payload(",symbols="), Ok(Some(String::new())));
}

#[test]
fn symbols_keep_their_fields() {
    let out = to_common_symbols(&vec![gsym("main", Some("12")), gsym("f", Some("x")), gsym("g", None)]);
    assert_eq!(out.len(), 3);
    assert_eq!(out[0].name, "main");
    assert_eq!(out[0].line, Some(12));
    assert_eq!(out[0].address.as_deref(), Some("0x10"));
    assert_eq!(out[0].type_.as_deref(), Some("int (void)"));
    assert_eq!(out[0].description, None);
    assert_eq!(out[1].line, None);
    assert_eq!(out[2].line, None);
    assert_eq!(gsym("h", Some("-4")).to_common_symbol().line, Some(-4));
}

#[test]
fn symbol_table_has_files_and_the_unknown_bucket() {
    let record = GdbSymbolRecord {
        debug: Some(vec![
            GdbFileSymbols { filename: "a.c".to_string(), fullname: "/src/a.c".to_string(), symbols: vec![gsym("old", None)] },
            GdbFileSymbols { filename: "b.c".to_string(), fullname: "/src/b.c".to_string(), symbols: vec![gsym("g", None), gsym("h", None)] },
            GdbFileSymbols { filename: "a.c".to_string(), fullname: "/src/a.c".to_string(), symbols: vec![gsym("new", Some("3"))] },
        ]),
        nondebug: Some(vec![gsym("_start", None)]),
    };
    let t = symbol_table_from_record(&record);
    assert_eq!(t.symbols_per_file.len(), 3);
    assert_eq!(t.get("/src/a.c").unwrap()[0].name, "new");
    assert_eq!(t.get("/src/b.c").unwrap().len(), 2);
    assert_eq!(t.get("Unknown").unwrap()[0].name, "_start");
    assert!(t.get("a.c").is_none());
    let empty = symbol_table_from_record(&GdbSymbolRecord { debug: None, nondebug: None });
    assert!(empty.symbols_per_file.is_empty());
    let only = symbol_table_from_record(&GdbSymbolRecord { debug: None, nondebug: Some(Vec::new()) });
    assert!(only.get("Unknown").unwrap().is_empty());
}
