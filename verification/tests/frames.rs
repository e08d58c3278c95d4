use gdb_machine::metadata::{
    BacktraceState, DebugFrame, DisplayFrame, DisplayState, ProcessInfo, RunState, StopReason,
    Symbol, SymbolTable,
};

fn frame_text() -> &'static str {
    "level=\"2\",addr=\"0x0000555555555139\",func=\"main\",file=\"a.c\",fullname=\"/src/a.c\",line=\"12\",arch=\"i386:x86-64\""
}

fn stop(reason: &str, signal: Option<&str>, code: Option<i32>) -> StopReason {
    StopReason {
        reason: reason.to_string(),
        disp: None,
        breakpoint_num: None,
        addr: None,
        function: None,
        meaning: None,
        signal_name: signal.map(|s| s.to_string()),
        file: None,
        fullname: None,
        line: None,
        arch: None,
        thread_id: None,
        stopped_threads: None,
        core: None,
        exit_code: code,
    }
}

#[test]
fn frame_is_read_from_its_record() {
    let f = DebugFrame::new(frame_text());
    assert_eq!(f.level, 2);
    assert_eq!(f.addr, "0x0000555555555139");
    assert_eq!(f.func, "main");
    assert_eq!(f.file.as_deref(), Some("a.c"));
    assert_eq!(f.fullname.as_deref(), Some("/src/a.c"));
    assert_eq!(f.line, Some(12));
    assert_eq!(f.from, None);
    assert_eq!(f.arch.as_deref(), Some("i386:x86-64"));
    assert!(f.args.is_none());
    assert!(f.locals.is_none());
}

#[test]
fn frame_without_fields_has_defaults() {
    let f = DebugFrame::new("");
    assert_eq!(f.level, 0);
    assert_eq!(f.addr, "");
    assert_eq!(f.func, "");
    assert!(f.file.is_none());
    assert!(f.fullname.is_none());
    assert!(f.line.is_none());
    assert!(f.from.is_none());
    assert!(f.arch.is_none());
}

#[test]
fn frame_with_bad_numbers_falls_back() {
    let f = DebugFrame::new("level=\"x\",line=\"-3\",func=\"f\",from=\"/lib/libc.so.6\"");
    assert_eq!(f.level, 0);
    assert_eq!(f.line, None);
    assert_eq!(f.func, "f");
    assert_eq!(f.from.as_deref(), Some("/lib/libc.so.6"));
}

#[test]
fn frame_from_entries_takes_the_last_value() {
    let entries = vec![
        ("func".to_string(), "first".to_string()),
        ("func".to_string(), "second".to_string()),
    ];
    assert_eq!(DebugFrame::from_entries(&entries).func, "second");
}

#[test]
fn exited_frame_is_the_placeholder() {
    let f = DebugFrame::exited();
    assert_eq!(f.level, 0);
    assert_eq!(f.addr, "");
    assert_eq!(f.func, "Process has exited (no stack)");
    assert!(f.file.is_none() && f.fullname.is_none() && f.line.is_none());
    assert!(f.from.is_none() && f.arch.is_none() && f.args.is_none() && f.locals.is_none());
}

#[test]
fn attach_locals_parts_arguments_from_locals() {
    let mut f = DebugFrame::new(frame_text());
    f.attach_locals(vec![
        ("argc".to_string(), true, "1".to_string()),
        ("i".to_string(), false, "0".to_string()),
        ("argv".to_string(), true, "0x7ffe".to_string()),
    ]);
    assert_eq!(
        f.args,
        Some(vec![("argc".to_string(), "1".to_string()), ("argv".to_string(), "0x7ffe".to_string())])
    );
    assert_eq!(f.locals, Some(vec![("i".to_string(), "0".to_string())]));
    assert_eq!(f.func, "main");
    assert_eq!(f.line, Some(12));
}

#[test]
fn attach_locals_leaves_empty_parts_alone() {
    let mut f = DebugFrame::exited();
    f.attach_locals(Vec::new());
    assert!(f.args.is_none());
    assert!(f.locals.is_none());
    f.attach_locals(vec![("i".to_string(), false, "0".to_string())]);
    assert!(f.args.is_none());
    assert_eq!(f.locals, Some(vec![("i".to_string(), "0".to_string())]));
    f.attach_locals(vec![("a".to_string(), true, "1".to_string())]);
    assert_eq!(f.args, Some(vec![("a".to_string(), "1".to_string())]));
    assert_eq!(f.locals, Some(vec![("i".to_string(), "0".to_string())]));
}

#[test]
fn frame_descriptor_uses_the_full_path() {
    let f = DebugFrame::new(frame_text());
    match f.descriptor() {
        BacktraceState::Frame(d) => {
            assert_eq!(d.func, "main");
            assert_eq!(d.file.as_deref(), Some("/src/a.c"));
            assert_eq!(d.line, Some(12));
        }
        BacktraceState::State(_) => panic!("a frame describes itself as a frame"),
    }
    match BacktraceState::from(&f) {
        BacktraceState::Frame(d) => {
            assert_eq!(d.func, "main");
            assert_eq!(d.file.as_deref(), Some("/src/a.c"));
            assert_eq!(d.line, Some(12));
        }
        BacktraceState::State(_) => panic!("a frame converts to a frame"),
    }
}

#[test]
fn to_component_keeps_the_order() {
    let frames = vec![DebugFrame::new("func=\"f\""), DebugFrame::new("func=\"g\""), DebugFrame::new("func=\"h\"")];
    let comp = DebugFrame::to_component(&frames);
    let names: Vec<String> = comp.iter().map(|e| e.print()).collect();
    assert_eq!(names, vec!["f Unknown:0", "g Unknown:0", "h Unknown:0"]);
}

#[test]
fn root_element_is_a_dot_frame() {
    match BacktraceState::root() {
        BacktraceState::Frame(d) => {
            assert_eq!(d.func, ".");
            assert!(d.file.is_none());
            assert!(d.line.is_none());
        }
        BacktraceState::State(_) => panic!("the root is a frame"),
    }
}

#[test]
fn print_describes_frames_and_states() {
    let f = BacktraceState::Frame(DisplayFrame {
        func: "main".to_string(),
        file: Some("/src/a.c".to_string()),
        line: Some(12),
    });
    assert_eq!(f.print(), "main /src/a.c:12");
    let g = BacktraceState::Frame(DisplayFrame { func: "g".to_string(), file: None, line: None });
    assert_eq!(g.print(), "g Unknown:0");
    let s = BacktraceState::State(DisplayState {
        reason: "signal-received".to_string(),
        signal_name: Some("SIGSEGV".to_string()),
        exit_code: None,
    });
    assert_eq!(s.print(), "signal-received SIGSEGV");
    let e = BacktraceState::State(DisplayState {
        reason: "exited".to_string(),
        signal_name: None,
        exit_code: Some(1),
    });
    assert_eq!(e.print(), "exited ");
}

#[test]
fn exited_holds_for_the_two_exit_reasons_only() {
    assert!(stop("exited", None, Some(1)).exited());
    assert!(stop("exited-normally", None, None).exited());
    for reason in ["signal-received", "breakpoint-hit", "exited-signalled", "Exited", "exited ", "", "end-stepping-range"] {
        assert!(!stop(reason, None, None).exited());
    }
}

#[test]
fn sigint_is_told_by_the_signal_name() {
    assert!(stop("signal-received", Some("SIGINT"), None).is_sigint());
    assert!(!stop("signal-received", Some("SIGSEGV"), None).is_sigint());
    assert!(!stop("signal-received", Some("sigint"), None).is_sigint());
    assert!(!stop("SIGINT", None, None).is_sigint());
}

#[test]
fn stop_reason_is_read_from_its_record() {
    let text = ",reason=\"signal-received\",signal-name=\"SIGSEGV\",signal-meaning=\"Segmentation fault\",frame={addr=\"0x1139\",func=\"main\",args=[],file=\"a.c\",fullname=\"/src/a.c\",line=\"5\",arch=\"i386:x86-64\"},thread-id=\"1\",stopped-threads=\"all\",core=\"3\"\n";
    let r = StopReason::new(text).unwrap();
    assert_eq!(r.reason, "signal-received");
    assert_eq!(r.signal_name.as_deref(), Some("SIGSEGV"));
    assert_eq!(r.meaning, None);
    assert_eq!(r.addr.as_deref(), Some("0x1139"));
    assert_eq!(r.file.as_deref(), Some("a.c"));
    assert_eq!(r.fullname.as_deref(), Some("/src/a.c"));
    assert_eq!(r.line, Some(5));
    assert_eq!(r.arch.as_deref(), Some("i386:x86-64"));
    assert_eq!(r.core, Some(3));
    assert_eq!(r.exit_code, None);
    assert_eq!(r.function, None);
    assert_eq!(r.thread_id, Some(1));
    assert_eq!(r.stopped_threads.as_deref(), Some("all"));
    assert_eq!(r.breakpoint_num, None);
    assert_eq!(r.disp, None);
    assert!(!r.exited());
    assert!(!r.is_sigint());
}

#[test]
fn stop_reason_reads_plain_keys_only() {
    let r = StopReason::new(",reason=\"x\",meaning=\"m\",disp=\"keep\",function=\"f\",breakpoint_num=\"4\"\n").unwrap();
    assert_eq!(r.meaning.as_deref(), Some("m"));
    assert_eq!(r.disp.as_deref(), Some("keep"));
    assert_eq!(r.function.as_deref(), Some("f"));
    assert_eq!(r.breakpoint_num, None);
    assert_eq!(r.thread_id, None);
}

#[test]
fn stop_reason_reads_the_breakpoint_and_the_threads() {
    let r = StopReason::new(",reason=\"breakpoint-hit\",disp=\"keep\",bkptno=\"2\",thread-id=\"7\",stopped-threads=\"all\"\n").unwrap();
    assert_eq!(r.reason, "breakpoint-hit");
    assert_eq!(r.breakpoint_num, Some(2));
    assert_eq!(r.thread_id, Some(7));
    assert_eq!(r.stopped_threads.as_deref(), Some("all"));
}

#[test]
fn stop_reason_reads_the_exit_code() {
    let r = StopReason::new(",reason=\"exited\",exit-code=\"01\"\n").unwrap();
    assert_eq!(r.reason, "exited");
    assert_eq!(r.exit_code, Some(1));
    assert!(r.exited());
    let n = StopReason::new(",reason=\"exited-normally\"\n").unwrap();
    assert!(n.exited());
    assert_eq!(n.exit_code, None);
}

#[test]
fn stop_reason_leaves_the_arguments_out() {
    let text = ",reason=\"breakpoint-hit\",line=\"7\",frame={args=[{name=\"line\",line=\"99\",reason=\"inner\"}]}\n";
    let r = StopReason::new(text).unwrap();
    assert_eq!(r.reason, "breakpoint-hit");
    assert_eq!(r.line, Some(7));
}

#[test]
fn stop_reason_without_a_reason_is_empty() {
    let r = StopReason::new("").unwrap();
    assert_eq!(r.reason, "");
    assert!(!r.exited());
}

#[test]
fn stop_descriptor_carries_reason_signal_and_code() {
    let r = stop("signal-received", Some("SIGSEGV"), Some(3));
    match r.descriptor() {
        BacktraceState::State(d) => {
            assert_eq!(d.reason, "signal-received");
            assert_eq!(d.signal_name.as_deref(), Some("SIGSEGV"));
            assert_eq!(d.exit_code, Some(3));
        }
        BacktraceState::Frame(_) => panic!("a stop reason describes itself as a state"),
    }
    match BacktraceState::from(&r) {
        BacktraceState::State(d) => assert_eq!(d.reason, "signal-received"),
        BacktraceState::Frame(_) => panic!("a stop reason converts to a state"),
    }
}

#[test]
fn clones_are_equal_field_by_field() {
    let r = stop("exited", Some("SIGKILL"), Some(9));
    let c = r.clone();
    assert_eq!(c.reason, r.reason);
    assert_eq!(c.signal_name, r.signal_name);
    assert_eq!(c.exit_code, r.exit_code);
    match RunState::Stopped(Box::new(r)).clone() {
        RunState::Stopped(b) => assert_eq!(b.reason, "exited"),
        RunState::Running(_) => panic!("a stopped state stays stopped"),
    }
    match RunState::Running("ctx".to_string()).clone() {
        RunState::Running(ctx) => assert_eq!(ctx, "ctx"),
        RunState::Stopped(_) => panic!("a running state stays running"),
    }
}

#[test]
fn hashes_depend_on_content_alone() {
    let a = BacktraceState::Frame(DisplayFrame { func: "f".to_string(), file: None, line: Some(1) });
    let b = BacktraceState::Frame(DisplayFrame { func: "f".to_string(), file: None, line: Some(1) });
    let c = BacktraceState::Frame(DisplayFrame { func: "f".to_string(), file: None, line: Some(2) });
    assert_eq!(a.get_hash(), b.get_hash());
    assert_ne!(a.get_hash(), c.get_hash());
    assert_eq!(a.clone().get_hash(), a.get_hash());
    let l1 = vec![a.clone(), c.clone()];
    let l2 = vec![b, c.clone()];
    let l3 = vec![c, a];
    assert_eq!(DebugFrame::hash_component(&l1), DebugFrame::hash_component(&l2));
    assert_ne!(DebugFrame::hash_component(&l1), DebugFrame::hash_component(&l3));
    assert_ne!(DebugFrame::hash_component(&l1), DebugFrame::hash_component(&Vec::new()));
}

#[test]
fn process_info_builds_its_locality_descriptor() {
    assert_eq!(ProcessInfo::locality_descriptor("node7", 1, 4711), "node7-1-4711");
    let p = ProcessInfo::default("node7", None, 4711, Some("12"));
    assert_eq!(p.hostname, "node7");
    assert_eq!(p.pid, 4711);
    assert_eq!(p.locality_descriptor, "node7-0-4711");
    assert_eq!(p.mpirank, Some(12));
    let q = ProcessInfo::default("n", Some(3), 1, Some("rank"));
    assert_eq!(q.locality_descriptor, "n-3-1");
    assert_eq!(q.mpirank, None);
    assert_eq!(ProcessInfo::default("n", Some(3), 1, None).mpirank, None);
    let c = q.clone();
    assert_eq!(c.locality_descriptor, q.locality_descriptor);
}

fn sym(name: &str) -> Symbol {
    Symbol { name: name.to_string(), address: None, line: None, type_: None, description: None }
}

#[test]
fn symbol_table_keeps_one_entry_per_file() {
    let mut t = SymbolTable::default();
    assert!(t.get("a.c").is_none());
    t.insert("a.c".to_string(), vec![sym("f")]);
    t.insert("b.c".to_string(), vec![sym("g"), sym("h")]);
    assert_eq!(t.get("a.c").unwrap().len(), 1);
    assert_eq!(t.get("b.c").unwrap()[1].name, "h");
    t.insert("a.c".to_string(), vec![sym("x"), sym("y")]);
    assert_eq!(t.symbols_per_file.len(), 2);
    assert_eq!(t.get("a.c").unwrap()[0].name, "x");
    assert_eq!(t.get("b.c").unwrap().len(), 2);
    assert!(t.get("c.c").is_none());
}
