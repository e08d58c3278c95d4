use gdb_machine::metadata::{
    BacktraceState, DebugFrame, DisplayFrame, DisplayState, ProgramSnapshot, StopReason,
};
use gdb_machine::snapshot::{clone_elements, map_keys, merge_one};
use std::collections::HashMap;

type Components = HashMap<u64, (u64, Vec<BacktraceState>)>;

fn frame(func: &str) -> DebugFrame {
    DebugFrame::new(&format!("func=\"{}\"", func))
}

fn stack(funcs: &[&str]) -> Vec<DebugFrame> {
    funcs.iter().map(|f| frame(f)).collect()
}

fn stop(reason: &str, signal: Option<&str>) -> StopReason {
    StopReason {
        reason: reason.to_string(),
        disp: None,
        breakpoint_num: None,
        addr: None,
        function: None,
        meaning: None,
        signal_name: signal.map(|s| s.to_string()),
        file: None,
        fullname: None,
        line: None,
        arch: None,
        thread_id: None,
        stopped_threads: None,
        core: None,
        exit_code: None,
    }
}

fn snapshot(threads: Vec<(u32, Vec<DebugFrame>)>, stop_state: Option<StopReason>) -> ProgramSnapshot {
    let mut state = HashMap::new();
    for (id, frames) in threads {
        state.insert(id, frames);
    }
    ProgramSnapshot { state, stop_state }
}

fn single(id: u64, snap: ProgramSnapshot) -> HashMap<u64, ProgramSnapshot> {
    let mut m = HashMap::new();
    m.insert(id, snap);
    m
}

fn names(elems: &[BacktraceState]) -> Vec<String> {
    elems.iter().map(|e| e.print()).collect()
}

fn counts(c: &Components) -> Vec<(u64, u64)> {
    let mut v: Vec<(u64, u64)> = c.iter().map(|(h, (n, _))| (*h, *n)).collect();
    v.sort();
    v
}

fn leaf(funcs: &[&str]) -> Components {
    ProgramSnapshot::generate_components(single(1, snapshot(vec![(1, stack(funcs))], None)))
}

fn copy(c: &Components) -> Components {
    let mut out = HashMap::new();
    merge_one(&mut out, c);
    out
}

#[test]
fn keys_come_once_each() {
    let mut m: HashMap<u64, u8> = HashMap::new();
    m.insert(3, 0);
    m.insert(1, 0);
    m.insert(2, 0);
    let mut k = map_keys(&m);
    k.sort();
    assert_eq!(k, vec![1, 2, 3]);
    let mut t: HashMap<u32, u8> = HashMap::new();
    t.insert(9, 0);
    assert_eq!(map_keys(&t), vec![9]);
    assert!(map_keys(&HashMap::<u64, u8>::new()).is_empty());
}

#[test]
fn exited_snapshot_has_one_placeholder_thread() {
    let s = ProgramSnapshot::exited(Some(stop("exited", None)));
    assert_eq!(s.state.len(), 1);
    let frames = &s.state[&0];
    assert_eq!(frames.len(), 1);
    assert_eq!(frames[0].func, "Process has exited (no stack)");
    assert_eq!(s.stop_state.unwrap().reason, "exited");
    assert!(ProgramSnapshot::exited(None).stop_state.is_none());
}

#[test]
fn component_of_puts_the_stop_state_first() {
    let s = snapshot(Vec::new(), Some(stop("signal-received", Some("SIGSEGV"))));
    let comp = s.component_of(&stack(&["f", "g"]));
    assert_eq!(names(&comp), vec!["signal-received SIGSEGV", "f Unknown:0", "g Unknown:0"]);
    let none = snapshot(Vec::new(), None);
    assert_eq!(names(&none.component_of(&stack(&["f"]))), vec!["f Unknown:0"]);
}

#[test]
fn sigint_stop_adds_no_state_element() {
    let s = snapshot(vec![(1, stack(&["nanosleep", "main"]))], Some(stop("signal-received", Some("SIGINT"))));
    let c = ProgramSnapshot::generate_components(single(7, s));
    assert_eq!(c.len(), 1);
    let (count, elems) = c.values().next().unwrap();
    assert_eq!(*count, 1);
    assert_eq!(names(elems), vec!["nanosleep Unknown:0", "main Unknown:0"]);
    assert!(elems.iter().all(|e| matches!(e, BacktraceState::Frame(_))));
}

#[test]
fn sigsegv_stop_adds_a_state_element() {
    let s = snapshot(vec![(1, stack(&["f"]))], Some(stop("signal-received", Some("SIGSEGV"))));
    let c = ProgramSnapshot::generate_components(single(7, s));
    assert_eq!(c.len(), 1);
    let (count, elems) = c.values().next().unwrap();
    assert_eq!(*count, 1);
    assert_eq!(elems.len(), 2);
    match &elems[0] {
        BacktraceState::State(DisplayState { reason, signal_name, exit_code }) => {
            assert_eq!(reason, "signal-received");
            assert_eq!(signal_name.as_deref(), Some("SIGSEGV"));
            assert_eq!(*exit_code, None);
        }
        BacktraceState::Frame(_) => panic!("the stop state comes first"),
    }
    match &elems[1] {
        BacktraceState::Frame(DisplayFrame { func, .. }) => assert_eq!(func, "f"),
        BacktraceState::State(_) => panic!("the frames follow"),
    }
}

#[test]
fn equal_stacks_are_counted_together() {
    let s = snapshot(
        vec![(1, stack(&["f", "g"])), (2, stack(&["f", "g"])), (3, stack(&["f", "h"])), (4, Vec::new())],
        None,
    );
    let c = ProgramSnapshot::generate_components(single(1, s));
    assert_eq!(c.len(), 3);
    for (hash, (count, elems)) in &c {
        assert_eq!(*hash, DebugFrame::hash_component(elems));
        let n = names(elems);
        if n == vec!["f Unknown:0", "g Unknown:0"] {
            assert_eq!(*count, 2);
        } else if n == vec!["f Unknown:0", "h Unknown:0"] {
            assert_eq!(*count, 1);
        } else {
            assert!(n.is_empty());
            assert_eq!(*count, 1);
        }
    }
}

#[test]
fn threads_of_several_programs_are_counted_together() {
    let mut ds = HashMap::new();
    ds.insert(1, snapshot(vec![(1, stack(&["f"])), (2, stack(&["g"]))], None));
    ds.insert(2, snapshot(vec![(1, stack(&["f"]))], None));
    ds.insert(3, snapshot(Vec::new(), None));
    let c = ProgramSnapshot::generate_components(ds);
    assert_eq!(c.len(), 2);
    let total: u64 = c.values().map(|(n, _)| *n).sum();
    assert_eq!(total, 3);
    let f = DebugFrame::hash_component(&DebugFrame::to_component(&stack(&["f"])));
    assert_eq!(c[&f].0, 2);
}

#[test]
fn no_program_gives_no_component() {
    assert!(ProgramSnapshot::generate_components(HashMap::new()).is_empty());
}

#[test]
fn two_leaves_with_one_stack_merge_to_one_entry() {
    let merged = ProgramSnapshot::components_merge(vec![leaf(&["f", "g", "h"]), leaf(&["f", "g", "h"])]);
    assert_eq!(merged.len(), 1);
    let (count, elems) = merged.values().next().unwrap();
    assert_eq!(*count, 2);
    assert_eq!(names(elems), vec!["f Unknown:0", "g Unknown:0", "h Unknown:0"]);
}

#[test]
fn merging_a_map_with_itself_doubles_the_counts() {
    let s = snapshot(vec![(1, stack(&["f"])), (2, stack(&["f"])), (3, stack(&["g"]))], Some(stop("breakpoint-hit", None)));
    let one = ProgramSnapshot::generate_components(single(1, s));
    let two = ProgramSnapshot::components_merge(vec![copy(&one), copy(&one)]);
    assert_eq!(two.len(), one.len());
    for (hash, (count, elems)) in &one {
        let (c2, e2) = &two[hash];
        assert_eq!(*c2, 2 * count);
        assert_eq!(names(e2), names(elems));
    }
}

#[test]
fn merge_is_commutative_and_associative_on_counts() {
    let a = || ProgramSnapshot::components_merge(vec![leaf(&["f"]), leaf(&["g"])]);
    let b = || ProgramSnapshot::components_merge(vec![leaf(&["g"]), leaf(&["h"]), leaf(&["g"])]);
    let c = || leaf(&["f"]);
    let m = |x: Components, y: Components| ProgramSnapshot::components_merge(vec![x, y]);
    let left = m(m(a(), b()), c());
    let right = m(a(), m(b(), c()));
    let turned = m(m(c(), a()), b());
    assert_eq!(counts(&left), counts(&right));
    assert_eq!(counts(&left), counts(&turned));
    assert_eq!(counts(&m(a(), b())), counts(&m(b(), a())));
    let f = DebugFrame::hash_component(&DebugFrame::to_component(&stack(&["f"])));
    let g = DebugFrame::hash_component(&DebugFrame::to_component(&stack(&["g"])));
    let h = DebugFrame::hash_component(&DebugFrame::to_component(&stack(&["h"])));
    assert_eq!(left[&f].0, 2);
    assert_eq!(left[&g].0, 3);
    assert_eq!(left[&h].0, 1);
    assert_eq!(left.len(), 3);
}

#[test]
fn merging_nothing_gives_nothing() {
    assert!(ProgramSnapshot::components_merge(Vec::new()).is_empty());
    let one = ProgramSnapshot::components_merge(vec![leaf(&["f"])]);
    assert_eq!(counts(&one), counts(&leaf(&["f"])));
    let with_empty = ProgramSnapshot::components_merge(vec![HashMap::new(), leaf(&["f"]), HashMap::new()]);
    assert_eq!(counts(&with_empty), counts(&leaf(&["f"])));
}

#[test]
fn merge_keeps_the_elements_of_the_base() {
    let f = DebugFrame::to_component(&stack(&["f"]));
    let g = DebugFrame::to_component(&stack(&["g"]));
    let mut base: Components = HashMap::new();
    base.insert(5, (2, clone_elements(&f)));
    let mut other: Components = HashMap::new();
    other.insert(5, (3, clone_elements(&g)));
    other.insert(6, (1, clone_elements(&g)));
    merge_one(&mut base, &other);
    assert_eq!(base.len(), 2);
    assert_eq!(base[&5].0, 5);
    assert_eq!(names(&base[&5].1), vec!["f Unknown:0"]);
    assert_eq!(base[&6].0, 1);
    assert_eq!(names(&base[&6].1), vec!["g Unknown:0"]);
}

#[test]
fn merged_counts_stop_at_the_largest_number() {
    let f = DebugFrame::to_component(&stack(&["f"]));
    let mut base: Components = HashMap::new();
    base.insert(5, (u64::MAX - 1, clone_elements(&f)));
    let mut other: Components = HashMap::new();
    other.insert(5, (7, f));
    merge_one(&mut base, &other);
    assert_eq!(base[&5].0, u64::MAX);
}

#[test]
fn components_vec_lists_every_entry() {
    let mut m: HashMap<u64, (u64, Vec<DisplayFrame>)> = HashMap::new();
    m.insert(1, (2, vec![DisplayFrame { func: "f".to_string(), file: None, line: None }]));
    m.insert(2, (5, Vec::new()));
    let mut v: Vec<(u64, usize)> = ProgramSnapshot::components_vec(&m).iter().map(|(n, f)| (*n, f.len())).collect();
    v.sort();
    assert_eq!(v, vec![(2, 1), (5, 0)]);
    assert!(ProgramSnapshot::components_vec(&HashMap::new()).is_empty());
}
