//! Data carried through the tree: identifier ranges, frames, stop reasons.

use crate::tools::{
    decimal, entry_value, lookup_last, parse_gdb_equal_list, parse_i32, parse_u32, push_decimal,
    regex_replace_first, replace_first, spec_equal_list, spec_parse_signed, spec_parse_unsigned,
    str_eq,
};
use std::collections::hash_map::DefaultHasher;
use std::hash::{Hash, Hasher};
use vstd::prelude::*;
use vstd::std_specs::hash::DefaultHasherAdditionalSpecFns;

pub use crate::snapshot::ProgramSnapshot;

verus! {

/// The largest number of direct children a tree node seats.
pub const TREE_ARITY: u64 = 24;

/// Why a range could not hand out a sub-range.
#[derive(Debug, Clone, Copy, PartialEq, Eq, Structural)]
pub enum IdError {
    /// Every one of the `TREE_ARITY` slots is taken.
    Full,
    /// The range is too small to give a child an identifier of its own.
    Exhausted,
}

/// An allocatable range of node identifiers.
///
/// The range starts at `root_id`, the identifier of its owner, and spans
/// `dynamic` identifiers. Children are seated `stride` apart, after the
/// owner's identifier; `offset` counts the children seated so far.
#[derive(Debug)]
pub struct TreeIdFactory {
    root_id: u64,
    dynamic: u64,
    stride: u64,
    offset: u64,
}

impl TreeIdFactory {
    /// The identifier of the owner, with which the range begins.
    pub closed spec fn spec_id(&self) -> u64 {
        self.root_id
    }

    /// How many identifiers the range spans.
    pub closed spec fn spec_dynamic(&self) -> u64 {
        self.dynamic
    }

    /// How far apart the children are seated.
    pub closed spec fn spec_stride(&self) -> u64 {
        self.stride
    }

    /// How many children were seated.
    pub closed spec fn spec_offset(&self) -> u64 {
        self.offset
    }

    /// The invariant of every range: at most `TREE_ARITY` children, a stride
    /// that is the `TREE_ARITY`-th part of the span, and a span that ends
    /// within `u64`.
    pub open spec fn wf(&self) -> bool {
        &&& self.spec_offset() <= TREE_ARITY
        &&& self.spec_stride() == self.spec_dynamic() / TREE_ARITY
        &&& self.spec_id() + self.spec_dynamic() <= u64::MAX
    }

    /// Whether every slot is taken.
    pub open spec fn spec_full(&self) -> bool {
        self.spec_offset() == TREE_ARITY
    }

    /// A range can seat one more child when a slot is free and the child
    /// would get a span of at least its own identifier.
    ///
    /// A span of exactly `TREE_ARITY` is refused although its stride is 1:
    /// its children would get a span of 0, and the child in the last slot
    /// would stand one past the end of the span, at the identifier of the
    /// range that follows. No range that comes from `default` through
    /// `inherit` has that span.
    pub open spec fn can_inherit(&self) -> bool {
        !self.spec_full() && self.spec_dynamic() > TREE_ARITY
    }

    /// One past the last identifier of the range.
    pub open spec fn span_end(&self) -> int {
        self.spec_id() + self.spec_dynamic()
    }

    /// The identifier at which the child in slot `slot` is seated.
    pub open spec fn slot_id(&self, slot: int) -> int {
        self.spec_id() + 1 + self.spec_stride() * slot
    }

    /// The first identifier behind the slots that are taken.
    pub open spec fn used_end(&self) -> int {
        self.slot_id(self.spec_offset() as int)
    }

    /// `child` is what `parent` hands out from its next free slot.
    pub open spec fn is_child_of(child: TreeIdFactory, parent: TreeIdFactory) -> bool {
        &&& child.spec_id() == parent.slot_id(parent.spec_offset() as int)
        &&& child.spec_dynamic() == (parent.spec_dynamic() - 1) / (TREE_ARITY as int)
        &&& child.spec_stride() == child.spec_dynamic() / TREE_ARITY
        &&& child.spec_offset() == 0
    }

    /// `after` is `before` with one more slot taken.
    pub open spec fn is_advanced(after: TreeIdFactory, before: TreeIdFactory) -> bool {
        &&& after.spec_id() == before.spec_id()
        &&& after.spec_dynamic() == before.spec_dynamic()
        &&& after.spec_stride() == before.spec_stride()
        &&& after.spec_offset() == before.spec_offset() + 1
    }

    /// The range of a root: identifier 0, every `u64` below it, no child yet.
    pub fn default() -> (r: TreeIdFactory)
        ensures
            r.wf(),
            r.spec_id() == 0,
            r.spec_dynamic() == u64::MAX,
            r.spec_stride() == (u64::MAX - 1) / 24,
            r.spec_offset() == 0,
    {
        TreeIdFactory {
            root_id: 0,
            dynamic: u64::MAX,
            stride: (u64::MAX - 1) / TREE_ARITY,
            offset: 0,
        }
    }

    /// Hands the next free slot to a child and returns the child's range.
    ///
    /// Fails, and leaves the range as it was, when every slot is taken or
    /// when the span is too small for a child.
    pub fn inherit(&mut self) -> (r: Result<TreeIdFactory, IdError>)
        requires
            old(self).wf(),
        ensures
            final(self).wf(),
            old(self).spec_full() ==> r == Err::<TreeIdFactory, IdError>(IdError::Full),
            !old(self).spec_full() && !old(self).can_inherit() ==> r == Err::<
                TreeIdFactory,
                IdError,
            >(IdError::Exhausted),
            r is Err ==> *final(self) == *old(self),
            r is Ok <==> old(self).can_inherit(),
            r is Ok ==> {
                &&& TreeIdFactory::is_child_of(r->Ok_0, *old(self))
                &&& TreeIdFactory::is_advanced(*final(self), *old(self))
                &&& r->Ok_0.wf()
                &&& r->Ok_0.spec_dynamic() >= 1
                &&& r->Ok_0.span_end() <= final(self).used_end()
                &&& r->Ok_0.span_end() <= final(self).span_end()
            },
    {
        if self.offset == TREE_ARITY {
            return Err(IdError::Full);
        }
        if self.dynamic <= TREE_ARITY {
            return Err(IdError::Exhausted);
        }
        proof {
            lemma_slots_fit(self.dynamic as int, self.stride as int, self.offset as int);
        }
        let root_id: u64 = self.root_id + 1 + self.stride * self.offset;
        self.offset = self.offset + 1;
        let dynamic: u64 = (self.dynamic - 1) / TREE_ARITY;
        let stride: u64 = dynamic / TREE_ARITY;
        Ok(TreeIdFactory { root_id, dynamic, stride, offset: 0 })
    }

    /// The identifier of the node that owns this range.
    pub fn id(&self) -> (r: u64)
        ensures
            r == self.spec_id(),
    {
        self.root_id
    }

    /// Whether every slot is taken.
    pub fn full(&self) -> (r: bool)
        ensures
            r == self.spec_full(),
    {
        self.offset == TREE_ARITY
    }
}

/// Call `i` of a run of successful calls of `inherit`: `children[i]` is
/// what `states[i]` hands out, and `states[i + 1]` is `states[i]` with one
/// more slot taken.
pub open spec fn is_inherit_step(
    states: Seq<TreeIdFactory>,
    children: Seq<TreeIdFactory>,
    i: int,
) -> bool {
    &&& TreeIdFactory::is_child_of(children[i], states[i])
    &&& TreeIdFactory::is_advanced(states[i + 1], states[i])
}

/// A run of successful calls of `inherit` on one range: `states` holds the
/// range before and after each call, `children` what each call returned.
pub open spec fn is_inherit_run(states: Seq<TreeIdFactory>, children: Seq<TreeIdFactory>) -> bool {
    &&& states.len() == children.len() + 1
    &&& forall|i: int| 0 <= i < children.len() ==> #[trigger] is_inherit_step(states, children, i)
}

/// After `n` successful calls of `inherit` on a range that had seated no
/// child, the range has seated `n`, and the `i`-th child stands at the
/// range's identifier plus one plus `i` strides.
pub proof fn lemma_inherit_sequence(states: Seq<TreeIdFactory>, children: Seq<TreeIdFactory>)
    requires
        is_inherit_run(states, children),
        states[0].spec_offset() == 0,
    ensures
        forall|i: int| 0 <= i < states.len() ==> (#[trigger] states[i]).spec_offset() == i,
        forall|i: int|
            0 <= i < children.len() ==> (#[trigger] children[i]).spec_id() == states[0].spec_id()
                + 1 + states[0].spec_stride() * i,
        states.last().wf() ==> children.len() <= TREE_ARITY,
    decreases children.len(),
{
    if children.len() > 0 {
        let n = children.len() as int;
        let s0 = states.drop_last();
        let c0 = children.drop_last();
        assert(is_inherit_run(s0, c0)) by {
            assert forall|i: int| 0 <= i < c0.len() implies #[trigger] is_inherit_step(
                s0,
                c0,
                i,
            ) by {
                assert(is_inherit_step(states, children, i));
                assert(c0[i] == children[i]);
                assert(s0[i] == states[i]);
                assert(s0[i + 1] == states[i + 1]);
            }
        }
        assert(s0[0] == states[0]);
        lemma_inherit_sequence(s0, c0);
        assert(is_inherit_step(states, children, n - 1));
        assert(s0[n - 1] == states[n - 1]);
        assert forall|i: int| 0 <= i < states.len() implies (#[trigger] states[i]).spec_offset()
            == i by {
            if i < n {
                assert(s0[i] == states[i]);
            }
        }
        lemma_sequence_keeps_range(states, children, n - 1);
        assert forall|i: int| 0 <= i < children.len() implies (#[trigger] children[i]).spec_id()
            == states[0].spec_id() + 1 + states[0].spec_stride() * i by {
            if i < n - 1 {
                assert(c0[i] == children[i]);
            }
        }
    }
}

proof fn lemma_sequence_keeps_range(
    states: Seq<TreeIdFactory>,
    children: Seq<TreeIdFactory>,
    k: int,
)
    requires
        is_inherit_run(states, children),
        0 <= k < states.len(),
    ensures
        states[k].spec_stride() == states[0].spec_stride(),
        states[k].spec_id() == states[0].spec_id(),
        states[k].spec_dynamic() == states[0].spec_dynamic(),
    decreases k,
{
    if k > 0 {
        lemma_sequence_keeps_range(states, children, k - 1);
        assert(is_inherit_step(states, children, k - 1));
    }
}

impl Clone for TreeIdFactory {
    fn clone(&self) -> (r: Self)
        ensures
            r == *self,
    {
        TreeIdFactory {
            root_id: self.root_id,
            dynamic: self.dynamic,
            stride: self.stride,
            offset: self.offset,
        }
    }
}

/// With a span of `dynamic > 24` and slots `stride = dynamic / 24` apart,
/// the child in slot `offset < 24` ends before the next slot begins and
/// within the span.
pub proof fn lemma_slots_fit(dynamic: int, stride: int, offset: int)
    requires
        dynamic > 24,
        stride == dynamic / 24,
        0 <= offset < 24,
    ensures
        stride >= 1,
        0 <= stride * offset,
        stride * offset + stride == stride * (offset + 1),
        (dynamic - 1) / 24 >= 1,
        (dynamic - 1) / 24 <= stride,
        1 + stride * offset + (dynamic - 1) / 24 <= dynamic,
{
    assert(stride * offset + stride == stride * (offset + 1)) by (nonlinear_arith);
    assert(0 <= stride * offset) by (nonlinear_arith)
        requires
            stride >= 1,
            0 <= offset,
    ;
    assert(stride * offset <= stride * 23) by (nonlinear_arith)
        requires
            stride >= 1,
            offset <= 23,
    ;
}


/// What identifies the calling process to the tree.
#[derive(Debug)]
pub struct ProcessInfo {
    pub mpirank: Option<u32>,
    pub pid: u64,
    pub hostname: String,
    pub locality_descriptor: String,
}

impl Clone for ProcessInfo {
    fn clone(&self) -> (r: Self)
        ensures
            r == *self,
    {
        ProcessInfo {
            mpirank: self.mpirank,
            pid: self.pid,
            hostname: self.hostname.clone(),
            locality_descriptor: self.locality_descriptor.clone(),
        }
    }
}

/// A copy of an optional string.
pub fn clone_opt_string(o: &Option<String>) -> (r: Option<String>)
    ensures
        r == *o,
{
    match o {
        Some(s) => Some(s.clone()),
        None => None,
    }
}

/// The stop state as it shows in a backtrace.
#[derive(Debug, Hash)]
pub struct DisplayState {
    pub reason: String,
    pub signal_name: Option<String>,
    pub exit_code: Option<i32>,
}

/// What the structural hash of a `DisplayState` depends on.
pub struct DisplayStateView {
    pub reason: Seq<char>,
    pub signal_name: Option<Seq<char>>,
    pub exit_code: Option<i32>,
}

impl DeepView for DisplayState {
    type V = DisplayStateView;

    open spec fn deep_view(&self) -> DisplayStateView {
        DisplayStateView {
            reason: self.reason@,
            signal_name: self.signal_name.deep_view(),
            exit_code: self.exit_code,
        }
    }
}

impl Clone for DisplayState {
    fn clone(&self) -> (r: Self)
        ensures
            r == *self,
    {
        DisplayState {
            reason: self.reason.clone(),
            signal_name: clone_opt_string(&self.signal_name),
            exit_code: self.exit_code,
        }
    }
}

/// A stack frame as it shows in a backtrace.
#[derive(Debug, Hash)]
pub struct DisplayFrame {
    pub func: String,
    pub file: Option<String>,
    pub line: Option<u32>,
}

/// What the structural hash of a `DisplayFrame` depends on.
pub struct DisplayFrameView {
    pub func: Seq<char>,
    pub file: Option<Seq<char>>,
    pub line: Option<u32>,
}

impl DeepView for DisplayFrame {
    type V = DisplayFrameView;

    open spec fn deep_view(&self) -> DisplayFrameView {
        DisplayFrameView { func: self.func@, file: self.file.deep_view(), line: self.line }
    }
}

impl Clone for DisplayFrame {
    fn clone(&self) -> (r: Self)
        ensures
            r == *self,
    {
        DisplayFrame {
            func: self.func.clone(),
            file: clone_opt_string(&self.file),
            line: self.line,
        }
    }
}

/// One element of a backtrace: a frame, or the stop state put in front.
#[derive(Debug, Hash)]
pub enum BacktraceState {
    Frame(DisplayFrame),
    State(DisplayState),
}

/// What the structural hash of a `BacktraceState` depends on.
pub enum BacktraceStateView {
    Frame(DisplayFrameView),
    State(DisplayStateView),
}

impl DeepView for BacktraceState {
    type V = BacktraceStateView;

    open spec fn deep_view(&self) -> BacktraceStateView {
        match self {
            BacktraceState::Frame(f) => BacktraceStateView::Frame(f.deep_view()),
            BacktraceState::State(s) => BacktraceStateView::State(s.deep_view()),
        }
    }
}

impl Clone for BacktraceState {
    fn clone(&self) -> (r: Self)
        ensures
            r == *self,
    {
        match self {
            BacktraceState::Frame(f) => BacktraceState::Frame(f.clone()),
            BacktraceState::State(s) => BacktraceState::State(s.clone()),
        }
    }
}


/// The pairs of a debugger record, as `parse_gdb_equal_list` reads them.
pub type Entries = Seq<(Seq<char>, Seq<char>)>;

/// The `u32` that the pairs give `key`, where they give one.
pub open spec fn entry_u32(e: Entries, key: Seq<char>) -> Option<u32> {
    match lookup_last(e, key) {
        Some(t) => match spec_parse_unsigned(t, u32::MAX as nat) {
            Some(n) => Some(n as u32),
            None => None,
        },
        None => None,
    }
}

/// The `i32` that the pairs give `key`, where they give one.
pub open spec fn entry_i32(e: Entries, key: Seq<char>) -> Option<i32> {
    match lookup_last(e, key) {
        Some(t) => match spec_parse_signed(t, i32::MAX as nat) {
            Some(n) => Some(n as i32),
            None => None,
        },
        None => None,
    }
}

/// The text that the pairs give `key`, or the empty text.
pub open spec fn entry_text(e: Entries, key: Seq<char>) -> Seq<char> {
    match lookup_last(e, key) {
        Some(t) => t,
        None => Seq::empty(),
    }
}

fn get_u32(entries: &Vec<(String, String)>, key: &str) -> (r: Option<u32>)
    ensures
        r == entry_u32(entries.deep_view(), key@),
{
    match entry_value(entries, key) {
        Some(t) => parse_u32(t.as_str()),
        None => None,
    }
}

fn get_i32(entries: &Vec<(String, String)>, key: &str) -> (r: Option<i32>)
    ensures
        r == entry_i32(entries.deep_view(), key@),
{
    match entry_value(entries, key) {
        Some(t) => parse_i32(t.as_str()),
        None => None,
    }
}

fn get_text(entries: &Vec<(String, String)>, key: &str) -> (r: String)
    ensures
        r@ == entry_text(entries.deep_view(), key@),
{
    match entry_value(entries, key) {
        Some(t) => t,
        None => String::new(),
    }
}

/// One stack frame as the debugger reports it.
#[derive(Debug)]
pub struct DebugFrame {
    /// The depth of the frame; 0 is the innermost one.
    pub level: u32,
    /// The address at which the frame stands.
    pub addr: String,
    /// The function that the frame runs.
    pub func: String,
    /// The source file, as the debugger names it.
    pub file: Option<String>,
    /// The absolute path of the source file.
    pub fullname: Option<String>,
    /// The line in the source file.
    pub line: Option<u32>,
    /// The object that the frame comes from.
    pub from: Option<String>,
    /// The architecture of the frame.
    pub arch: Option<String>,
    /// The arguments of the function, by name.
    pub args: Option<Vec<(String, String)>>,
    /// The local variables of the frame, by name.
    pub locals: Option<Vec<(String, String)>>,
}

impl DebugFrame {
    /// The frame that the pairs of a frame record describe.
    pub open spec fn matches_entries(&self, e: Entries) -> bool {
        &&& self.level == match entry_u32(e, "level"@) {
            Some(n) => n,
            None => 0,
        }
        &&& self.addr@ == entry_text(e, "addr"@)
        &&& self.func@ == entry_text(e, "func"@)
        &&& self.file.deep_view() == lookup_last(e, "file"@)
        &&& self.fullname.deep_view() == lookup_last(e, "fullname"@)
        &&& self.line == entry_u32(e, "line"@)
        &&& self.from.deep_view() == lookup_last(e, "from"@)
        &&& self.arch.deep_view() == lookup_last(e, "arch"@)
        &&& self.args is None
        &&& self.locals is None
    }

    /// The frame that stands for the stack of a process that has exited.
    pub open spec fn is_exited_frame(&self) -> bool {
        &&& self.level == 0
        &&& self.addr@ == Seq::<char>::empty()
        &&& self.func@ == "Process has exited (no stack)"@
        &&& self.file is None
        &&& self.fullname is None
        &&& self.line is None
        &&& self.from is None
        &&& self.arch is None
        &&& self.args is None
        &&& self.locals is None
    }

    /// The placeholder frame of a process that has exited.
    pub fn exited() -> (r: DebugFrame)
        ensures
            r.is_exited_frame(),
    {
        DebugFrame {
            level: 0,
            addr: String::new(),
            func: String::from_str("Process has exited (no stack)"),
            file: None,
            fullname: None,
            line: None,
            from: None,
            arch: None,
            args: None,
            locals: None,
        }
    }

    /// Builds a frame from the pairs of a frame record. A level that is no
    /// number counts as 0; a line that is no number is left out.
    pub fn from_entries(entries: &Vec<(String, String)>) -> (r: DebugFrame)
        ensures
            r.matches_entries(entries.deep_view()),
    {
        let level: u32 = match get_u32(entries, "level") {
            Some(n) => n,
            None => 0,
        };
        DebugFrame {
            level,
            addr: get_text(entries, "addr"),
            func: get_text(entries, "func"),
            file: entry_value(entries, "file"),
            fullname: entry_value(entries, "fullname"),
            line: get_u32(entries, "line"),
            from: entry_value(entries, "from"),
            arch: entry_value(entries, "arch"),
            args: None,
            locals: None,
        }
    }

    /// Reads a frame from the text of a frame record.
    pub fn new(desc: &str) -> (r: DebugFrame)
        ensures
            r.matches_entries(spec_equal_list(desc@)),
    {
        let entries = parse_gdb_equal_list(desc);
        DebugFrame::from_entries(&entries)
    }

    /// The variables of `vars` that are arguments, or that are not, in
    /// order, each as its name and value.
    pub open spec fn pick_vars(vars: Seq<(String, bool, String)>, is_arg: bool) -> Seq<
        (String, String),
    >
        decreases vars.len(),
    {
        if vars.len() == 0 {
            Seq::empty()
        } else {
            let rest = DebugFrame::pick_vars(vars.drop_last(), is_arg);
            if vars.last().1 == is_arg {
                rest.push((vars.last().0, vars.last().2))
            } else {
                rest
            }
        }
    }

    /// Attaches variables to the frame. Each of `vars` is a name, whether
    /// it is an argument, and a value. The arguments replace `args` and the
    /// others replace `locals`, each only where there is at least one.
    pub fn attach_locals(&mut self, vars: Vec<(String, bool, String)>)
        ensures
            final(self).level == old(self).level,
            final(self).addr == old(self).addr,
            final(self).func == old(self).func,
            final(self).file == old(self).file,
            final(self).fullname == old(self).fullname,
            final(self).line == old(self).line,
            final(self).from == old(self).from,
            final(self).arch == old(self).arch,
            DebugFrame::pick_vars(vars@, true).len() == 0 ==> final(self).args == old(self).args,
            DebugFrame::pick_vars(vars@, true).len() > 0 ==> final(self).args is Some
                && final(self).args->0@ == DebugFrame::pick_vars(vars@, true),
            DebugFrame::pick_vars(vars@, false).len() == 0 ==> final(self).locals == old(self).locals,
            DebugFrame::pick_vars(vars@, false).len() > 0 ==> final(self).locals is Some
                && final(self).locals->0@ == DebugFrame::pick_vars(vars@, false),
    {
        let mut args: Vec<(String, String)> = Vec::new();
        let mut locals: Vec<(String, String)> = Vec::new();
        let mut i: usize = 0;
        assert(vars@.take(0) =~= Seq::empty());
        while i < vars.len()
            invariant
                i <= vars.len(),
                args@ == DebugFrame::pick_vars(vars@.take(i as int), true),
                locals@ == DebugFrame::pick_vars(vars@.take(i as int), false),
            decreases vars.len() - i,
        {
            assert(vars@.take(i + 1).drop_last() =~= vars@.take(i as int));
            assert(vars@.take(i + 1).last() == vars@[i as int]);
            let name = vars[i].0.clone();
            let value = vars[i].2.clone();
            if vars[i].1 {
                args.push((name, value));
            } else {
                locals.push((name, value));
            }
            i = i + 1;
        }
        assert(vars@.take(vars.len() as int) =~= vars@);
        if args.len() > 0 {
            self.args = Some(args);
        }
        if locals.len() > 0 {
            self.locals = Some(locals);
        }
    }

    /// The frame as an element of a backtrace: its function, the absolute
    /// path of its file, its line.
    pub open spec fn spec_descriptor(&self) -> BacktraceStateView {
        BacktraceStateView::Frame(
            DisplayFrameView { func: self.func@, file: self.fullname.deep_view(), line: self.line },
        )
    }

    /// The frame as an element of a backtrace.
    pub fn descriptor(&self) -> (r: BacktraceState)
        ensures
            r.deep_view() == self.spec_descriptor(),
    {
        BacktraceState::Frame(
            DisplayFrame {
                func: self.func.clone(),
                file: clone_opt_string(&self.fullname),
                line: self.line,
            },
        )
    }

    /// The frames of a stack, each as an element of a backtrace.
    pub open spec fn spec_component(comp: Seq<DebugFrame>) -> Seq<BacktraceStateView> {
        Seq::new(comp.len(), |i: int| comp[i].spec_descriptor())
    }

    /// The frames of a stack, each as an element of a backtrace.
    pub fn to_component(comp: &Vec<DebugFrame>) -> (r: Vec<BacktraceState>)
        ensures
            r.deep_view() == DebugFrame::spec_component(comp@),
    {
        let mut out: Vec<BacktraceState> = Vec::new();
        let mut i: usize = 0;
        while i < comp.len()
            invariant
                i <= comp.len(),
                out.len() == i,
                forall|j: int| 0 <= j < i ==> out@[j].deep_view() == comp@[j].spec_descriptor(),
            decreases comp.len() - i,
        {
            out.push(comp[i].descriptor());
            i = i + 1;
        }
        assert(out.deep_view() =~= DebugFrame::spec_component(comp@));
        out
    }
}

/// Why and where a program has stopped.
#[derive(Debug)]
pub struct StopReason {
    /// The reason tag: `exited`, `exited-normally`, `signal-received`,
    /// `breakpoint-hit` and the like.
    pub reason: String,
    /// What becomes of the breakpoint.
    pub disp: Option<String>,
    /// The number of the breakpoint that was hit.
    pub breakpoint_num: Option<u32>,
    /// The address at which the program stopped.
    pub addr: Option<String>,
    /// The function in which the program stopped.
    pub function: Option<String>,
    /// What the signal means.
    pub meaning: Option<String>,
    /// The name of the signal that stopped the program.
    pub signal_name: Option<String>,
    /// The source file, as the debugger names it.
    pub file: Option<String>,
    /// The absolute path of the source file.
    pub fullname: Option<String>,
    /// The line in the source file.
    pub line: Option<u32>,
    /// The architecture of the target.
    pub arch: Option<String>,
    /// The thread that caused the stop.
    pub thread_id: Option<u32>,
    /// The threads that stopped.
    pub stopped_threads: Option<String>,
    /// The core on which the program stopped.
    pub core: Option<u32>,
    /// The exit code of the program.
    pub exit_code: Option<i32>,
}

impl Clone for StopReason {
    fn clone(&self) -> (r: Self)
        ensures
            r == *self,
    {
        StopReason {
            reason: self.reason.clone(),
            disp: clone_opt_string(&self.disp),
            breakpoint_num: self.breakpoint_num,
            addr: clone_opt_string(&self.addr),
            function: clone_opt_string(&self.function),
            meaning: clone_opt_string(&self.meaning),
            signal_name: clone_opt_string(&self.signal_name),
            file: clone_opt_string(&self.file),
            fullname: clone_opt_string(&self.fullname),
            line: self.line,
            arch: clone_opt_string(&self.arch),
            thread_id: self.thread_id,
            stopped_threads: clone_opt_string(&self.stopped_threads),
            core: self.core,
            exit_code: self.exit_code,
        }
    }
}

/// The pattern of the argument list of a stop record.
pub open spec fn stop_args_pattern() -> Seq<char> {
    "(args=\\[.*\\])"@
}

/// A stop record without its argument list.
pub open spec fn spec_without_args(resp: Seq<char>) -> Option<Seq<char>> {
    regex_replace_first(stop_args_pattern(), resp, ""@)
}

impl StopReason {
    /// The stop reason that the pairs of a stop record describe. The
    /// breakpoint, the thread and the stopped threads are read under the
    /// keys that the debugger writes: `bkptno`, `thread-id`,
    /// `stopped-threads`.
    pub open spec fn matches_entries(&self, e: Entries) -> bool {
        &&& self.reason@ == entry_text(e, "reason"@)
        &&& self.disp.deep_view() == lookup_last(e, "disp"@)
        &&& self.breakpoint_num == entry_u32(e, "bkptno"@)
        &&& self.addr.deep_view() == lookup_last(e, "addr"@)
        &&& self.function.deep_view() == lookup_last(e, "function"@)
        &&& self.meaning.deep_view() == lookup_last(e, "meaning"@)
        &&& self.signal_name.deep_view() == lookup_last(e, "signal-name"@)
        &&& self.file.deep_view() == lookup_last(e, "file"@)
        &&& self.fullname.deep_view() == lookup_last(e, "fullname"@)
        &&& self.line == entry_u32(e, "line"@)
        &&& self.arch.deep_view() == lookup_last(e, "arch"@)
        &&& self.thread_id == entry_u32(e, "thread-id"@)
        &&& self.stopped_threads.deep_view() == lookup_last(e, "stopped-threads"@)
        &&& self.core == entry_u32(e, "core"@)
        &&& self.exit_code == entry_i32(e, "exit-code"@)
    }

    /// Whether the program was stopped by the interrupt signal.
    pub open spec fn spec_is_sigint(&self) -> bool {
        self.signal_name.deep_view() == Some("SIGINT"@)
    }

    /// Whether the program was stopped by the interrupt signal.
    pub fn is_sigint(&self) -> (r: bool)
        ensures
            r == self.spec_is_sigint(),
    {
        match &self.signal_name {
            Some(sig) => str_eq(sig.as_str(), "SIGINT"),
            None => false,
        }
    }

    /// Builds a stop reason from the pairs of a stop record.
    pub fn from_entries(entries: &Vec<(String, String)>) -> (r: StopReason)
        ensures
            r.matches_entries(entries.deep_view()),
    {
        StopReason {
            reason: get_text(entries, "reason"),
            disp: entry_value(entries, "disp"),
            breakpoint_num: get_u32(entries, "bkptno"),
            addr: entry_value(entries, "addr"),
            function: entry_value(entries, "function"),
            meaning: entry_value(entries, "meaning"),
            signal_name: entry_value(entries, "signal-name"),
            file: entry_value(entries, "file"),
            fullname: entry_value(entries, "fullname"),
            line: get_u32(entries, "line"),
            arch: entry_value(entries, "arch"),
            thread_id: get_u32(entries, "thread-id"),
            stopped_threads: entry_value(entries, "stopped-threads"),
            core: get_u32(entries, "core"),
            exit_code: get_i32(entries, "exit-code"),
        }
    }

    /// Reads a stop reason from the text of a stop record, whose argument
    /// list is left out of the reading. `None` where the pattern of the
    /// argument list could not be compiled.
    pub fn new(resp: &str) -> (r: Option<StopReason>)
        ensures
            r is Some <==> spec_without_args(resp@) is Some,
            r is Some ==> r->0.matches_entries(spec_equal_list(spec_without_args(resp@)->0)),
    {
        match replace_first("(args=\\[.*\\])", resp, "") {
            Some(resp_no_arg) => {
                let entries = parse_gdb_equal_list(resp_no_arg.as_str());
                Some(StopReason::from_entries(&entries))
            },
            None => None,
        }
    }

    /// Whether the reason is one of the two that mean the end of the program.
    pub open spec fn spec_exited(&self) -> bool {
        self.reason@ == "exited"@ || self.reason@ == "exited-normally"@
    }

    /// Whether the program has come to its end: the reason is `exited` or
    /// `exited-normally`, and no other.
    pub fn exited(&self) -> (r: bool)
        ensures
            r == self.spec_exited(),
    {
        str_eq(self.reason.as_str(), "exited") || str_eq(self.reason.as_str(), "exited-normally")
    }

    /// The stop reason as an element of a backtrace: its reason, its
    /// signal, its exit code.
    pub open spec fn spec_descriptor(&self) -> BacktraceStateView {
        BacktraceStateView::State(
            DisplayStateView {
                reason: self.reason@,
                signal_name: self.signal_name.deep_view(),
                exit_code: self.exit_code,
            },
        )
    }

    /// The stop reason as an element of a backtrace.
    pub fn descriptor(&self) -> (r: BacktraceState)
        ensures
            r.deep_view() == self.spec_descriptor(),
    {
        BacktraceState::State(
            DisplayState {
                reason: self.reason.clone(),
                signal_name: clone_opt_string(&self.signal_name),
                exit_code: self.exit_code,
            },
        )
    }
}

/// Whether a program runs, or why it has stopped.
#[derive(Debug)]
pub enum RunState {
    Stopped(Box<StopReason>),
    Running(String),
}

impl Clone for RunState {
    fn clone(&self) -> (r: Self)
        ensures
            r == *self,
    {
        match self {
            RunState::Stopped(st) => {
                let inner: StopReason = (**st).clone();
                RunState::Stopped(Box::new(inner))
            },
            RunState::Running(ctx) => RunState::Running(ctx.clone()),
        }
    }
}

/// One symbol of the program.
#[derive(Debug)]
pub struct Symbol {
    /// The name of the symbol.
    pub name: String,
    /// The address of the symbol.
    pub address: Option<String>,
    /// The line at which the symbol is declared.
    pub line: Option<i32>,
    /// The type of the symbol.
    pub type_: Option<String>,
    /// The declaration of the symbol.
    pub description: Option<String>,
}


/// What hashing one backtrace element writes into a hasher. It depends on
/// what the element holds and on nothing else.
pub uninterp spec fn element_hash_input(e: BacktraceStateView) -> Seq<Seq<u8>>;

/// What hashing a list of backtrace elements writes into a hasher. It
/// depends on what the elements hold and on nothing else.
pub uninterp spec fn component_hash_input(c: Seq<BacktraceStateView>) -> Seq<Seq<u8>>;

/// Feeds one element to `state` with `Hash::hash`, as derived for
/// `BacktraceState`. The contract says that the hasher receives, after what
/// it had, a run of writes that the element's content determines.
#[verifier::external_body]
fn feed_element(e: &BacktraceState, state: &mut DefaultHasher)
    ensures
        final(state)@ == old(state)@ + element_hash_input(e.deep_view()),
{
    e.hash(state);
}

/// Feeds a list of elements to `state` with `Hash::hash`, as std has it for
/// `Vec`. The contract says that the hasher receives, after what it had, a
/// run of writes that the elements' content determines.
#[verifier::external_body]
fn feed_component(comp: &Vec<BacktraceState>, state: &mut DefaultHasher)
    ensures
        final(state)@ == old(state)@ + component_hash_input(comp.deep_view()),
{
    comp.hash(state);
}

/// The structural hash of one backtrace element.
pub open spec fn spec_element_hash(e: BacktraceStateView) -> u64 {
    DefaultHasher::spec_finish(element_hash_input(e))
}

/// The structural hash of a list of backtrace elements.
pub open spec fn spec_component_hash(c: Seq<BacktraceStateView>) -> u64 {
    DefaultHasher::spec_finish(component_hash_input(c))
}

/// What `print` writes for a backtrace element.
pub open spec fn spec_print(e: BacktraceStateView) -> Seq<char> {
    match e {
        BacktraceStateView::Frame(b) => b.func + " "@ + (match b.file {
            Some(f) => f,
            None => "Unknown"@,
        }) + ":"@ + decimal(
            match b.line {
                Some(l) => l as nat,
                None => 0,
            },
        ),
        BacktraceStateView::State(s) => s.reason + " "@ + (match s.signal_name {
            Some(n) => n,
            None => Seq::empty(),
        }),
    }
}

impl BacktraceState {
    /// The element at the root of every backtrace: a frame named `.`.
    pub fn root() -> (r: BacktraceState)
        ensures
            r.deep_view() == BacktraceStateView::Frame(
                DisplayFrameView { func: "."@, file: None, line: None },
            ),
    {
        BacktraceState::Frame(DisplayFrame { func: String::from_str("."), file: None, line: None })
    }

    /// One line of text for the element: a frame as its function, its file
    /// (`Unknown` where it has none) and its line (0 where it has none); a
    /// stop state as its reason and its signal.
    pub fn print(&self) -> (r: String)
        ensures
            r@ == spec_print(self.deep_view()),
    {
        match self {
            BacktraceState::Frame(b) => {
                let mut out = b.func.clone();
                out.append(" ");
                match &b.file {
                    Some(f) => out.append(f.as_str()),
                    None => out.append("Unknown"),
                }
                out.append(":");
                let line: u32 = match b.line {
                    Some(l) => l,
                    None => 0,
                };
                push_decimal(&mut out, line as u64);
                out
            },
            BacktraceState::State(s) => {
                let mut out = s.reason.clone();
                out.append(" ");
                match &s.signal_name {
                    Some(n) => out.append(n.as_str()),
                    None => {
                        assert(out@ + Seq::<char>::empty() =~= out@);
                    },
                }
                out
            },
        }
    }

    /// The structural hash of the element.
    pub fn get_hash(&self) -> (h: u64)
        ensures
            h == spec_element_hash(self.deep_view()),
    {
        let mut hasher = DefaultHasher::new();
        feed_element(self, &mut hasher);
        assert(Seq::<Seq<u8>>::empty() + element_hash_input(self.deep_view())
            =~= element_hash_input(self.deep_view()));
        hasher.finish()
    }
}

impl DebugFrame {
    /// The structural hash of a list of backtrace elements. Two lists that
    /// hold the same elements in the same order have the same hash.
    pub fn hash_component(comp: &Vec<BacktraceState>) -> (h: u64)
        ensures
            h == spec_component_hash(comp.deep_view()),
    {
        let mut hasher = DefaultHasher::new();
        feed_component(comp, &mut hasher);
        assert(Seq::<Seq<u8>>::empty() + component_hash_input(comp.deep_view())
            =~= component_hash_input(comp.deep_view()));
        hasher.finish()
    }
}


impl Clone for Symbol {
    fn clone(&self) -> (r: Self)
        ensures
            r == *self,
    {
        Symbol {
            name: self.name.clone(),
            address: clone_opt_string(&self.address),
            line: self.line,
            type_: clone_opt_string(&self.type_),
            description: clone_opt_string(&self.description),
        }
    }
}

/// The symbols of a program, file by file. The symbols that belong to no
/// file stand under the name `Unknown`.
#[derive(Debug)]
pub struct SymbolTable {
    /// Each file with its symbols; no file occurs twice.
    pub symbols_per_file: Vec<(String, Vec<Symbol>)>,
}

impl SymbolTable {
    /// No file has two entries.
    pub open spec fn wf(&self) -> bool {
        forall|i: int, j: int|
            0 <= i < j < self.symbols_per_file@.len() ==> self.symbols_per_file@[i].0@
                != self.symbols_per_file@[j].0@
    }

    /// Whether the table has symbols for `file`.
    pub open spec fn has_file(&self, file: Seq<char>) -> bool {
        exists|i: int|
            0 <= i < self.symbols_per_file@.len() && #[trigger] self.symbols_per_file@[i].0@
                == file
    }

    /// The symbols of `file`, where the table has it.
    pub open spec fn symbols_of(&self, file: Seq<char>) -> Seq<Symbol> {
        let i = choose|i: int|
            0 <= i < self.symbols_per_file@.len() && #[trigger] self.symbols_per_file@[i].0@
                == file;
        self.symbols_per_file@[i].1@
    }

    /// The table without any file.
    pub fn default() -> (r: SymbolTable)
        ensures
            r.wf(),
            r.symbols_per_file@.len() == 0,
    {
        SymbolTable { symbols_per_file: Vec::new() }
    }

    /// The symbols of `file`, where the table has it.
    pub fn get(&self, file: &str) -> (r: Option<&Vec<Symbol>>)
        ensures
            r is Some <==> self.has_file(file@),
            self.wf() && r is Some ==> r->0@ == self.symbols_of(file@),
    {
        let mut i: usize = 0;
        while i < self.symbols_per_file.len()
            invariant
                i <= self.symbols_per_file.len(),
                forall|j: int| 0 <= j < i ==> self.symbols_per_file@[j].0@ != file@,
            decreases self.symbols_per_file.len() - i,
        {
            if str_eq(self.symbols_per_file[i].0.as_str(), file) {
                return Some(&self.symbols_per_file[i].1);
            }
            i = i + 1;
        }
        None
    }

    /// Gives `file` the symbols `symbols`, in place of those it had.
    pub fn insert(&mut self, file: String, symbols: Vec<Symbol>)
        requires
            old(self).wf(),
        ensures
            final(self).wf(),
            final(self).has_file(file@),
            final(self).symbols_of(file@) == symbols@,
            forall|other: Seq<char>|
                other != file@ ==> final(self).has_file(other) == old(self).has_file(other),
            forall|other: Seq<char>|
                other != file@ && old(self).has_file(other) ==> final(self).symbols_of(other)
                    == old(self).symbols_of(other),
    {
        let ghost name = file@;
        let ghost listed = symbols@;
        let mut i: usize = 0;
        while i < self.symbols_per_file.len()
            invariant
                i <= self.symbols_per_file.len(),
                *self == *old(self),
                old(self).wf(),
                name == file@,
                listed == symbols@,
                forall|j: int| 0 <= j < i ==> self.symbols_per_file@[j].0@ != file@,
            decreases self.symbols_per_file.len() - i,
        {
            if str_eq(self.symbols_per_file[i].0.as_str(), file.as_str()) {
                self.symbols_per_file.set(i, (file, symbols));
                proof {
                    lemma_entry_set(*old(self), *self, name, listed, i as int);
                }
                return ;
            }
            i = i + 1;
        }
        self.symbols_per_file.push((file, symbols));
        proof {
            lemma_entry_set(*old(self), *self, name, listed, i as int);
        }
    }
}

/// A table in which the entry at `at` was set to a file and its symbols,
/// in place of the entry that the file had there or behind all entries
/// where it had none, has these symbols for the file and is as it was for
/// every other file.
proof fn lemma_entry_set(
    before: SymbolTable,
    after: SymbolTable,
    file: Seq<char>,
    symbols: Seq<Symbol>,
    at: int,
)
    requires
        before.wf(),
        0 <= at <= before.symbols_per_file@.len(),
        at < before.symbols_per_file@.len() ==> before.symbols_per_file@[at].0@ == file
            && after.symbols_per_file@.len() == before.symbols_per_file@.len(),
        at == before.symbols_per_file@.len() ==> after.symbols_per_file@.len() == at + 1
            && !before.has_file(file),
        after.symbols_per_file@[at].0@ == file,
        after.symbols_per_file@[at].1@ == symbols,
        forall|k: int|
            0 <= k < before.symbols_per_file@.len() && k != at ==> after.symbols_per_file@[k]
                == before.symbols_per_file@[k],
    ensures
        after.wf(),
        after.has_file(file),
        after.symbols_of(file) == symbols,
        forall|other: Seq<char>| other != file ==> after.has_file(other) == before.has_file(other),
        forall|other: Seq<char>|
            other != file && before.has_file(other) ==> after.symbols_of(other)
                == before.symbols_of(other),
{
    let old_entries = before.symbols_per_file@;
    let new_entries = after.symbols_per_file@;
    assert forall|k: int| 0 <= k < old_entries.len() && k != at implies old_entries[k].0@
        != file by {
        if at == old_entries.len() {
            assert(!before.has_file(file));
        }
    }
    assert forall|other: Seq<char>| other != file implies after.has_file(other)
        == before.has_file(other) by {
        if before.has_file(other) {
            let k = choose|k: int| 0 <= k < old_entries.len() && #[trigger] old_entries[k].0@
                == other;
            assert(new_entries[k].0@ == other);
        }
        if after.has_file(other) {
            let k = choose|k: int| 0 <= k < new_entries.len() && #[trigger] new_entries[k].0@
                == other;
            assert(old_entries[k].0@ == other);
        }
    }
    assert forall|other: Seq<char>| other != file && before.has_file(other) implies after.symbols_of(
        other,
    ) == before.symbols_of(other) by {
        let k1 = choose|k: int| 0 <= k < old_entries.len() && #[trigger] old_entries[k].0@
            == other;
        let k2 = choose|k: int| 0 <= k < new_entries.len() && #[trigger] new_entries[k].0@
            == other;
        assert(new_entries[k1].0@ == other);
        assert(k1 == k2);
    }
    assert(new_entries[at].0@ == file);
    let k = choose|k: int| 0 <= k < new_entries.len() && #[trigger] new_entries[k].0@ == file;
    assert(k == at);
}

impl ProcessInfo {
    /// The locality descriptor of a process: its host, the memory node it
    /// mostly lives on, its process identifier, with hyphens between them.
    pub open spec fn spec_locality_descriptor(host: Seq<char>, numa: u64, pid: u32) -> Seq<char> {
        host + "-"@ + decimal(numa as nat) + "-"@ + decimal(pid as nat)
    }

    /// The locality descriptor of a process.
    pub fn locality_descriptor(host: &str, numa: u64, pid: u32) -> (r: String)
        ensures
            r@ == ProcessInfo::spec_locality_descriptor(host@, numa, pid),
    {
        let mut out = String::from_str(host);
        out.append("-");
        push_decimal(&mut out, numa);
        out.append("-");
        push_decimal(&mut out, pid as u64);
        out
    }

    /// What identifies a process: `numa` is the memory node it mostly lives
    /// on, taken as 0 where it is not known; `rank` is the text of its
    /// parallel rank, left out where it is no number.
    pub fn default(hostname: &str, numa: Option<u64>, pid: u32, rank: Option<&str>) -> (r:
        ProcessInfo)
        ensures
            r.hostname@ == hostname@,
            r.pid == pid,
            r.locality_descriptor@ == ProcessInfo::spec_locality_descriptor(
                hostname@,
                match numa {
                    Some(n) => n,
                    None => 0,
                },
                pid,
            ),
            r.mpirank == match rank {
                Some(text) => match spec_parse_unsigned(text@, u32::MAX as nat) {
                    Some(n) => Some(n as u32),
                    None => None,
                },
                None => None,
            },
    {
        let node: u64 = match numa {
            Some(n) => n,
            None => 0,
        };
        let mpirank: Option<u32> = match rank {
            Some(text) => parse_u32(text),
            None => None,
        };
        ProcessInfo {
            mpirank,
            pid: pid as u64,
            hostname: String::from_str(hostname),
            locality_descriptor: ProcessInfo::locality_descriptor(hostname, node, pid),
        }
    }
}


impl From<&DebugFrame> for BacktraceState {
    fn from(value: &DebugFrame) -> (r: Self) {
        BacktraceState::Frame(
            DisplayFrame {
                func: value.func.clone(),
                file: clone_opt_string(&value.fullname),
                line: value.line,
            },
        )
    }
}

impl vstd::std_specs::convert::FromSpecImpl<&DebugFrame> for BacktraceState {
    open spec fn obeys_from_spec() -> bool {
        true
    }

    open spec fn from_spec(value: &DebugFrame) -> Self {
        BacktraceState::Frame(
            DisplayFrame { func: value.func, file: value.fullname, line: value.line },
        )
    }
}

impl From<&StopReason> for BacktraceState {
    fn from(value: &StopReason) -> (r: Self) {
        BacktraceState::State(
            DisplayState {
                reason: value.reason.clone(),
                signal_name: clone_opt_string(&value.signal_name),
                exit_code: value.exit_code,
            },
        )
    }
}

impl vstd::std_specs::convert::FromSpecImpl<&StopReason> for BacktraceState {
    open spec fn obeys_from_spec() -> bool {
        true
    }

    open spec fn from_spec(value: &StopReason) -> Self {
        BacktraceState::State(
            DisplayState {
                reason: value.reason,
                signal_name: value.signal_name,
                exit_code: value.exit_code,
            },
        )
    }
}

} // verus!
