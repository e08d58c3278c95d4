use gdb_machine::metadata::{BacktraceState, DebugFrame, ProcessInfo, RunState, StopReason};
use gdb_machine::protocol::GdbMachineResponse;
use gdb_machine::tree::{collect_responses, merge_states, PivotError};
use gdb_machine::TreeState;
use std::collections::HashMap;

type Resp = GdbMachineResponse;

fn info(locator: &str) -> ProcessInfo {
    ProcessInfo {
        mpirank: None,
        pid: 1,
        hostname: "host".to_string(),
        locality_descriptor: locator.to_string(),
    }
}

fn root() -> TreeState {
    let mut t = TreeState::default();
    t.set_root("root:1".to_string());
    t
}

fn running(ctx: &str) -> RunState {
    RunState::Running(ctx.to_string())
}

fn stopped(reason: &str) -> RunState {
    RunState::Stopped(Box::new(StopReason::new(&format!(",reason=\"{}\"\n", reason)).unwrap()))
}

fn components(funcs: &[&str], count: u64) -> HashMap<u64, (u64, Vec<BacktraceState>)> {
    let frames: Vec<DebugFrame> = funcs.iter().map(|f| DebugFrame::new(&format!("func=\"{}\"", f))).collect();
    let elems = DebugFrame::to_component(&frames);
    let mut m = HashMap::new();
    m.insert(DebugFrame::hash_component(&elems), (count, elems));
    m
}

fn error_text(r: GdbMachineResponse) -> String {
    match r {
        GdbMachineResponse::Error(e) => e,
        other => panic!("expected an error, got {:?}", other),
    }
}

#[test]
fn fresh_state_has_no_identifier() {
    let mut t = TreeState::default();
    assert_eq!(t.get_id(), 0);
    assert_eq!(t.tree_count(), None);
    assert_eq!(t.children_count(), 0);
    t.set_id(12);
    assert_eq!(t.get_id(), 12);
}

#[test]
fn tree_count_leaves_the_root_out() {
    let mut t = root();
    assert_eq!(t.tree_count(), Some(0));
    t.pivot(&info("a"), "a:1".to_string()).unwrap();
    t.pivot(&info("b"), "b:1".to_string()).unwrap();
    assert_eq!(t.tree_count(), Some(2));
    t.set_id(0);
    assert_eq!(t.tree_count(), None);
    t.set_id(1);
    assert_eq!(t.tree_count(), Some(2));
}

#[test]
fn pivot_on_empty_tree_seats_under_root() {
    let mut t = root();
    let (id, url) = t.pivot(&info("node1-0-10"), "node1:4000".to_string()).unwrap();
    assert_eq!(id, 1);
    assert_eq!(url, "root:1");
}

#[test]
fn four_root_level_pivots_get_strided_ids() {
    let s = (u64::MAX - 1) / 24;
    let mut t = root();
    for i in 0..4u64 {
        let (id, url) = t.pivot(&info(&format!("n{}", i)), format!("n{}:1", i)).unwrap();
        assert_eq!(id, 1 + i * s);
        assert_eq!(url, "root:1");
    }
}

#[test]
fn duplicate_pivot_is_rejected() {
    let mut t = root();
    t.pivot(&info("node1-0-10"), "a:1".to_string()).unwrap();
    let before = t.tree_count();
    let e = t.pivot(&info("node1-0-10"), "b:1".to_string()).unwrap_err();
    assert!(matches!(e, PivotError::AlreadyRegistered(ref l) if l == "node1-0-10"));
    assert!(e.message().contains("already registered"));
    assert_eq!(e.message(), "Process \"node1-0-10\" is already registered");
    assert_eq!(t.tree_count(), before);
    let again = t.pivot(&info("ROOT"), "c:1".to_string()).unwrap_err();
    assert!(matches!(again, PivotError::AlreadyRegistered(_)));
}

#[test]
fn pivot_without_a_root_is_refused() {
    let mut t = TreeState::default();
    let e = t.pivot(&info("a"), "a:1".to_string()).unwrap_err();
    assert!(matches!(e, PivotError::NotRoot));
    assert_eq!(e.message(), "It is only possible to pivot on root process");
    assert_eq!(PivotError::NoAttachPoint.message(), "Root should have had at least another child");
    assert_eq!(PivotError::Exhausted.message(), "No identifier is left under the closest process");
}

#[test]
fn full_root_hands_over_to_the_closest_child() {
    let s = (u64::MAX - 1) / 24;
    let mut t = root();
    for i in 0..24u64 {
        let name = format!("node{:02}-0-1", i);
        let (id, url) = t.pivot(&info(&name), format!("{}:1", name)).unwrap();
        assert_eq!(id, 1 + i * s);
        assert_eq!(url, "root:1");
    }
    let (id, url) = t.pivot(&info("node07-0-2"), "x:1".to_string()).unwrap();
    assert_eq!(url, "node07-0-1:1");
    assert_eq!(id, 1 + 7 * s + 1);
    let (id2, url2) = t.pivot(&info("node07-0-3"), "y:1".to_string()).unwrap();
    assert_eq!(url2, "x:1");
    assert_eq!(id2, 1 + 7 * s + 2);
    let (id3, url3) = t.pivot(&info("node07-0-0"), "z:1".to_string()).unwrap();
    assert_eq!(url3, "node07-0-1:1");
    assert_eq!(id3, 1 + 7 * s + 1 + (s / 24));
    assert_eq!(t.tree_count(), Some(27));
}

#[test]
fn ties_go_to_the_entry_seen_first() {
    let mut t = root();
    for i in 0..24u64 {
        let name = if i == 3 { "b".to_string() } else if i == 9 { "d".to_string() } else { format!("zzzzzz{:02}", i) };
        t.pivot(&info(&name), format!("url{}", i)).unwrap();
    }
    let (_, url) = t.pivot(&info("c"), "c:1".to_string()).unwrap();
    assert_eq!(url, "url3");
}

#[test]
fn identifiers_never_repeat() {
    let mut t = root();
    let mut seen = std::collections::HashSet::new();
    seen.insert(0u64);
    let mut seated = 0;
    let mut refused = 0;
    for i in 0..700u64 {
        match t.pivot(&info(&format!("n{}-{}", i % 13, i)), format!("u{}", i)) {
            Ok((id, _)) => {
                assert!(seen.insert(id), "identifier {} was given twice", id);
                seated += 1;
            }
            Err(e) => {
                assert!(matches!(e, PivotError::Exhausted));
                refused += 1;
            }
        }
        assert_eq!(t.tree_count(), Some(seated));
    }
    assert_eq!(seated + refused, 700);
    assert!(seated >= 24);
}

#[test]
fn a_chain_of_nodes_runs_out_of_identifiers() {
    let mut t = root();
    for i in 0..24u64 {
        t.pivot(&info(&format!("A{:02}", i)), format!("a{}", i)).unwrap();
    }
    let names: Vec<String> = (0..13u8).map(|k| format!("node-{}", (b'a' + k) as char)).collect();
    let mut last_id = 0;
    for (k, name) in names.iter().take(12).enumerate() {
        let (id, url) = t.pivot(&info(name), format!("u{}", k)).unwrap();
        if k > 0 {
            assert_eq!(url, format!("u{}", k - 1));
            assert_eq!(id, last_id + 1);
        }
        last_id = id;
    }
    let before = t.tree_count();
    let e = t.pivot(&info(&names[12]), "u12".to_string()).unwrap_err();
    assert!(matches!(e, PivotError::Exhausted));
    assert_eq!(t.tree_count(), before);
}

#[test]
fn set_root_twice_keeps_what_was_seated() {
    let mut t = root();
    t.pivot(&info("a"), "a:1".to_string()).unwrap();
    t.set_root("root:2".to_string());
    assert_eq!(t.tree_count(), Some(1));
    let (id, url) = t.pivot(&info("b"), "b:1".to_string()).unwrap();
    assert_eq!(url, "root:2");
    assert_eq!(id, 1 + (u64::MAX - 1) / 24);
}

#[test]
fn join_adds_a_child() {
    let mut t = TreeState::default();
    t.join("a:1".to_string());
    t.join("b:1".to_string());
    assert_eq!(t.children_count(), 2);
}

#[test]
fn merge_without_a_second_answer_keeps_the_first() {
    assert!(matches!(TreeState::merge_results(GdbMachineResponse::Okay, None), GdbMachineResponse::Okay));
    assert!(matches!(TreeState::merge_results(GdbMachineResponse::Count(3), None), GdbMachineResponse::Count(3)));
    assert!(matches!(
        TreeState::merge_results(GdbMachineResponse::Pivot(3, "u".to_string()), None),
        GdbMachineResponse::Pivot(3, _)
    ));
}

#[test]
fn merge_of_okay_and_errors() {
    assert!(matches!(TreeState::merge_results(Resp::Okay, Some(Resp::Okay)), Resp::Okay));
    assert_eq!(error_text(TreeState::merge_results(Resp::Error("a".to_string()), Some(Resp::Okay))), "a");
    assert_eq!(error_text(TreeState::merge_results(Resp::Okay, Some(Resp::Error("b".to_string())))), "b");
    assert_eq!(error_text(TreeState::merge_results(Resp::Error("a".to_string()), Some(Resp::Error("b".to_string())))), "a");
    assert_eq!(error_text(TreeState::merge_results(Resp::Okay, Some(Resp::Count(1)))), "Incompatible type to be merged Ok");
    assert_eq!(error_text(TreeState::merge_results(Resp::Count(1), Some(Resp::Okay))), "Incompatible type to be merged Count");
    assert_eq!(error_text(TreeState::merge_results(Resp::Count(1), Some(Resp::Error("c".to_string())))), "c");
    assert_eq!(
        error_text(TreeState::merge_results(Resp::State(HashMap::new()), Some(Resp::Okay))),
        "Incompatible type to be merged State"
    );
    assert_eq!(error_text(TreeState::merge_results(Resp::State(HashMap::new()), Some(Resp::Error("s".to_string())))), "s");
    assert_eq!(
        error_text(TreeState::merge_results(Resp::Snapshot(HashMap::new()), Some(Resp::Count(1)))),
        "Incompatible type to be merged snapshot"
    );
    assert_eq!(error_text(TreeState::merge_results(Resp::Snapshot(HashMap::new()), Some(Resp::Error("n".to_string())))), "n");
    assert_eq!(
        error_text(TreeState::merge_results(Resp::Pivot(1, "u".to_string()), Some(Resp::Okay))),
        "Conversion case not handled"
    );
    assert_eq!(
        error_text(TreeState::merge_results(Resp::Symbols(gdb_machine::metadata::SymbolTable::default()), Some(Resp::Okay))),
        "Conversion case not handled"
    );
}

#[test]
fn merge_of_counts_is_their_sum() {
    assert!(matches!(TreeState::merge_results(Resp::Count(2), Some(Resp::Count(3))), Resp::Count(5)));
    assert!(matches!(TreeState::merge_results(Resp::Count(0), Some(Resp::Count(0))), Resp::Count(0)));
    assert!(matches!(TreeState::merge_results(Resp::Count(u64::MAX), Some(Resp::Count(1))), Resp::Count(u64::MAX)));
}

#[test]
fn merge_of_states_is_their_union() {
    let mut a = HashMap::new();
    a.insert(1, running("a1"));
    a.insert(2, running("a2"));
    let mut b = HashMap::new();
    b.insert(2, stopped("exited"));
    b.insert(3, running("b3"));
    match TreeState::merge_results(GdbMachineResponse::State(a), Some(GdbMachineResponse::State(b))) {
        GdbMachineResponse::State(m) => {
            assert_eq!(m.len(), 3);
            assert!(matches!(&m[&1], RunState::Running(c) if c == "a1"));
            assert!(matches!(&m[&2], RunState::Stopped(r) if r.reason == "exited"));
            assert!(matches!(&m[&3], RunState::Running(c) if c == "b3"));
        }
        other => panic!("expected a state, got {:?}", other),
    }
}

#[test]
fn merge_states_prefers_the_second() {
    let mut a = HashMap::new();
    a.insert(1, running("old"));
    let mut b = HashMap::new();
    b.insert(1, running("new"));
    merge_states(&mut a, &b);
    assert!(matches!(&a[&1], RunState::Running(c) if c == "new"));
    merge_states(&mut a, &HashMap::new());
    assert_eq!(a.len(), 1);
}

#[test]
fn merge_of_snapshots_sums_the_counts() {
    let r = TreeState::merge_results(
        GdbMachineResponse::Snapshot(components(&["f", "g", "h"], 1)),
        Some(GdbMachineResponse::Snapshot(components(&["f", "g", "h"], 1))),
    );
    match r {
        GdbMachineResponse::Snapshot(m) => {
            assert_eq!(m.len(), 1);
            assert_eq!(m.values().next().unwrap().0, 2);
        }
        other => panic!("expected components, got {:?}", other),
    }
}

#[test]
fn all_resp_ok_joins_the_errors() {
    assert!(TreeState::all_resp_ok(&Vec::new()).is_ok());
    assert!(TreeState::all_resp_ok(&vec![Resp::Okay, Resp::Count(1), Resp::Okay]).is_ok());
    assert_eq!(TreeState::all_resp_ok(&vec![Resp::Okay, Resp::Error("a".to_string())]).unwrap_err(), "a");
    assert_eq!(
        TreeState::all_resp_ok(&vec![Resp::Error("a".to_string()), Resp::Okay, Resp::Error("b".to_string()), Resp::Error(String::new())]).unwrap_err(),
        "a,b,"
    );
}

#[test]
fn count_sums_the_counts_and_skips_the_rest() {
    assert_eq!(TreeState::count(&Vec::new()), Ok(0));
    assert_eq!(TreeState::count(&vec![Resp::Count(1), Resp::Okay, Resp::Count(4)]), Ok(5));
    assert_eq!(TreeState::count(&vec![Resp::Count(u64::MAX), Resp::Count(4)]), Ok(u64::MAX));
}

#[test]
fn count_surfaces_the_errors_of_the_children() {
    assert_eq!(
        TreeState::count(&vec![Resp::Error("down".to_string()), Resp::Count(2)]),
        Err("down".to_string())
    );
    assert_eq!(
        TreeState::count(&vec![Resp::Count(1), Resp::Error("a".to_string()), Resp::Error("b".to_string())]),
        Err("a,b".to_string())
    );
}

#[test]
fn state_is_the_union_or_the_errors() {
    assert!(TreeState::state(&Vec::new()).unwrap().is_empty());
    let mut a = HashMap::new();
    a.insert(1, running("a"));
    let mut b = HashMap::new();
    b.insert(2, running("b"));
    b.insert(1, running("late"));
    let m = TreeState::state(&vec![Resp::State(a), Resp::Okay, Resp::State(b)]).unwrap();
    assert_eq!(m.len(), 2);
    assert!(matches!(&m[&1], RunState::Running(c) if c == "late"));
    let mut c = HashMap::new();
    c.insert(1, running("a"));
    assert_eq!(TreeState::state(&vec![Resp::State(c), Resp::Error("down".to_string())]).unwrap_err(), "down");
}

#[test]
fn snapshot_merges_the_components_or_gives_the_errors() {
    assert!(TreeState::snapshot(&Vec::new()).unwrap().is_empty());
    let m = TreeState::snapshot(&vec![
        Resp::Snapshot(components(&["f"], 1)),
        Resp::Okay,
        Resp::Snapshot(components(&["g"], 2)),
        Resp::Snapshot(components(&["f"], 4)),
    ])
    .unwrap();
    assert_eq!(m.len(), 2);
    let mut counts: Vec<u64> = m.values().map(|(n, _)| *n).collect();
    counts.sort();
    assert_eq!(counts, vec![2, 5]);
    assert_eq!(
        TreeState::snapshot(&vec![Resp::Snapshot(components(&["f"], 1)), Resp::Error("e1".to_string()), Resp::Error("e2".to_string())]).unwrap_err(),
        "e1,e2"
    );
}

#[test]
fn symbols_are_not_gathered() {
    assert_eq!(TreeState::symbols(&Vec::new()).unwrap_err(), "Symbols are not gathered across the tree");
}

#[test]
fn collect_responses_stops_at_the_first_failure() {
    let all = collect_responses(vec![Ok(Resp::Okay), Ok(Resp::Count(2)), Ok(Resp::Count(3))]).unwrap();
    assert!(matches!(all.as_slice(), [Resp::Okay, Resp::Count(2), Resp::Count(3)]));
    assert!(collect_responses(Vec::new()).unwrap().is_empty());
    let failed = collect_responses(vec![Ok(Resp::Okay), Err("first".to_string()), Ok(Resp::Okay), Err("second".to_string())]);
    assert_eq!(failed.unwrap_err(), "first");
}
