//! The driver of a debugger that speaks the machine interface: what its
//! lines mean, and what to ask of it next.

use crate::metadata::{
    spec_without_args, BacktraceState, DebugFrame, RunState, StopReason, Symbol, SymbolTable,
};
use crate::snapshot::{
    components_view, components_wf, is_components_of, thread_pairs, ProgramSnapshot,
};
use crate::tools::{
    captures_all, decimal, entry_value, extract_gdb_group, gdb_output_to_json_repr,
    groups_from_captures, json_key_pattern, json_key_replacement, lookup_last,
    parse_gdb_equal_list, parse_i32, parse_response_with_token, parse_u32, pick_group,
    push_decimal, regex_captures, regex_replace_every, spec_equal_list, spec_gdb_groups,
    spec_parse_signed, spec_parse_unsigned, spec_strip_prefix, spec_token_response, str_eq,
    strip_prefix,
};
use std::collections::HashMap;
use vstd::prelude::*;

verus! {

/// What the debugger is pointed at.
#[derive(Debug)]
pub enum GdbMiRemote {
    /// A program to start, with its arguments.
    Command(Vec<String>),
    /// A debug server, by host and port.
    Server(String, u32),
    /// A running process, by its identifier.
    Attach(u32),
}

impl GdbMiRemote {
    /// The arguments to start the debugger with: the interpreter to speak,
    /// then `--args` and the program with its arguments.
    pub fn gdbargs(&self) -> (r: Vec<String>)
        requires
            self is Command,
        ensures
            r@.len() == self->Command_0@.len() + 2,
            r@[0]@ == "--interpreter=mi3"@,
            r@[1]@ == "--args"@,
            forall|i: int| 0 <= i < self->Command_0@.len() ==> r@[i + 2] == self->Command_0@[i],
    {
        let mut ret: Vec<String> = Vec::new();
        ret.push(String::from_str("--interpreter=mi3"));
        match self {
            GdbMiRemote::Command(cmd) => {
                ret.push(String::from_str("--args"));
                let mut i: usize = 0;
                while i < cmd.len()
                    invariant
                        i <= cmd.len(),
                        ret@.len() == i + 2,
                        ret@[0]@ == "--interpreter=mi3"@,
                        ret@[1]@ == "--args"@,
                        forall|j: int| 0 <= j < i ==> ret@[j + 2] == cmd@[j],
                    decreases cmd.len() - i,
                {
                    ret.push(cmd[i].clone());
                    i = i + 1;
                }
            },
            _ => {},
        }
        ret
    }
}

/// The answer of the debugger to one command.
#[derive(Debug)]
pub enum GdbMiCommandResponse {
    /// The command was carried out; what it returned.
    Done(String),
    /// The command failed; what the debugger said.
    Error(String),
    /// The line is no answer the driver knows.
    ParseError(String),
}

impl GdbMiCommandResponse {
    /// Whether the response is what a line reads as: behind `error` an
    /// error, behind `done` or `running` a success, each with the rest of
    /// the line; anything else is kept whole as a line that does not parse.
    pub open spec fn is_reading_of(&self, line: Seq<char>) -> bool {
        match spec_strip_prefix(line, "error"@) {
            Some(rest) => *self is Error && self->Error_0@ == rest,
            None => match spec_strip_prefix(line, "done"@) {
                Some(rest) => *self is Done && self->Done_0@ == rest,
                None => match spec_strip_prefix(line, "running"@) {
                    Some(rest) => *self is Done && self->Done_0@ == rest,
                    None => *self is ParseError && self->ParseError_0@ == line,
                },
            },
        }
    }

    /// Reads the class and the payload of a response line, the token and
    /// the sigil taken off.
    pub fn new(line: &str) -> (r: GdbMiCommandResponse)
        ensures
            r.is_reading_of(line@),
    {
        match strip_prefix(line, "error") {
            Some(error) => {
                return GdbMiCommandResponse::Error(error);
            },
            None => {},
        }
        match strip_prefix(line, "done") {
            Some(resp) => {
                return GdbMiCommandResponse::Done(resp);
            },
            None => {},
        }
        match strip_prefix(line, "running") {
            Some(resp) => {
                return GdbMiCommandResponse::Done(resp);
            },
            None => {},
        }
        GdbMiCommandResponse::ParseError(String::from_str(line))
    }

    /// Whether `r` is what a caller gets for the response.
    pub open spec fn gives(&self, r: Result<String, String>) -> bool {
        match *self {
            GdbMiCommandResponse::Done(s) => r == Ok::<String, String>(s),
            GdbMiCommandResponse::Error(e) => r is Err && r->Err_0@
                == "Command returned an error : "@ + e@,
            GdbMiCommandResponse::ParseError(e) => r is Err && r->Err_0@
                == "Failed to parse response : "@ + e@,
        }
    }

    /// What a caller gets for the response: the payload of a success, or an
    /// error that says what went wrong.
    pub fn into_result(self) -> (r: Result<String, String>)
        ensures
            self.gives(r),
    {
        match self {
            GdbMiCommandResponse::Done(s) => Ok(s),
            GdbMiCommandResponse::Error(e) => {
                let mut msg = String::from_str("Command returned an error : ");
                msg.append(e.as_str());
                Err(msg)
            },
            GdbMiCommandResponse::ParseError(e) => {
                let mut msg = String::from_str("Failed to parse response : ");
                msg.append(e.as_str());
                Err(msg)
            },
        }
    }
}

/// Why an execution-status record could not be read.
#[derive(Debug)]
pub enum RunStateError {
    /// The record names no run state the driver knows.
    NoSuchState(String),
    /// The pattern that reads stop records could not be compiled.
    BadPattern,
}

impl RunStateError {
    /// The text of the error.
    pub open spec fn spec_message(&self) -> Seq<char> {
        match *self {
            RunStateError::NoSuchState(resp) => "No such gdb run state: "@ + resp@,
            RunStateError::BadPattern => "The pattern of a stop record does not compile"@,
        }
    }

    /// The error as text.
    pub fn message(&self) -> (r: String)
        ensures
            r@ == self.spec_message(),
    {
        match self {
            RunStateError::NoSuchState(resp) => {
                let mut msg = String::from_str("No such gdb run state: ");
                msg.append(resp.as_str());
                msg
            },
            RunStateError::BadPattern => String::from_str(
                "The pattern of a stop record does not compile",
            ),
        }
    }
}

/// Whether `r` is what an execution-status record reads as: behind
/// `running` a running state with the rest of the record, behind `stopped` a
/// stopped state with the stop reason that the rest describes, and an error
/// for anything else.
pub open spec fn is_run_state_of(r: Result<RunState, RunStateError>, resp: Seq<char>) -> bool {
    match spec_strip_prefix(resp, "running"@) {
        Some(ctx) => r is Ok && r->Ok_0 is Running && r->Ok_0->Running_0@ == ctx,
        None => match spec_strip_prefix(resp, "stopped"@) {
            Some(ctx) => match spec_without_args(ctx) {
                Some(text) => r is Ok && r->Ok_0 is Stopped
                    && r->Ok_0->Stopped_0.matches_entries(spec_equal_list(text)),
                None => r is Err && r->Err_0 is BadPattern,
            },
            None => r is Err && r->Err_0 is NoSuchState && r->Err_0->NoSuchState_0@ == resp,
        },
    }
}

impl RunState {
    /// Reads an execution-status record, its sigil taken off.
    pub fn new_from_gdb(resp: &str) -> (r: Result<RunState, RunStateError>)
        ensures
            is_run_state_of(r, resp@),
    {
        match strip_prefix(resp, "running") {
            Some(runctx) => {
                return Ok(RunState::Running(runctx));
            },
            None => {},
        }
        match strip_prefix(resp, "stopped") {
            Some(stopctx) => {
                match StopReason::new(stopctx.as_str()) {
                    Some(stop_reason) => {
                        return Ok(RunState::Stopped(Box::new(stop_reason)));
                    },
                    None => {
                        return Err(RunStateError::BadPattern);
                    },
                }
            },
            None => {},
        }
        Err(RunStateError::NoSuchState(String::from_str(resp)))
    }
}

/// What one line of the debugger's output is.
pub enum LineKind {
    /// Console output, to be kept in the log.
    Log(Seq<char>),
    /// The answer to the command with this token.
    Response(u64, Seq<char>),
    /// An execution-status record.
    Record(Seq<char>),
    /// A notification, a prompt or an escape sequence: nothing to do.
    Skipped,
    /// Output of the program itself, to be shown.
    Echo,
}

/// The pattern of the sigil of an answer.
pub open spec fn response_marker() -> Seq<char> {
    "\\^"@
}

/// What a line is, by its first characters: `~` console output; a token and
/// `^` an answer; `*` an execution-status record; `=`, `&`, the prompt and
/// the escape sequence that clears the screen nothing; anything else output
/// of the program.
pub open spec fn line_kind(line: Seq<char>) -> LineKind {
    match spec_strip_prefix(line, "~"@) {
        Some(log) => LineKind::Log(log),
        None => match spec_token_response(response_marker(), line) {
            Some(found) => LineKind::Response(found.0, found.1),
            None => match spec_strip_prefix(line, "*"@) {
                Some(record) => LineKind::Record(record),
                None => if "="@.is_prefix_of(line) || "&"@.is_prefix_of(line)
                    || "(gdb)"@.is_prefix_of(line) || "\u{1b}[H"@.is_prefix_of(line) {
                    LineKind::Skipped
                } else {
                    LineKind::Echo
                },
            },
        },
    }
}

/// What one line of the debugger's output is.
#[derive(Debug)]
pub enum LineClass {
    Log(String),
    Response(u64, String),
    Record(String),
    Skipped,
    Echo,
}

impl LineClass {
    /// What the class holds.
    pub open spec fn kind(&self) -> LineKind {
        match *self {
            LineClass::Log(log) => LineKind::Log(log@),
            LineClass::Response(id, payload) => LineKind::Response(id, payload@),
            LineClass::Record(record) => LineKind::Record(record@),
            LineClass::Skipped => LineKind::Skipped,
            LineClass::Echo => LineKind::Echo,
        }
    }
}

/// Tells what a line of the debugger's output is.
pub fn classify_line(line: &str) -> (r: LineClass)
    ensures
        r.kind() == line_kind(line@),
{
    match strip_prefix(line, "~") {
        Some(log) => {
            return LineClass::Log(log);
        },
        None => {},
    }
    match parse_response_with_token("\\^", line) {
        Some(found) => {
            return LineClass::Response(found.0, found.1);
        },
        None => {},
    }
    match strip_prefix(line, "*") {
        Some(record) => {
            return LineClass::Record(record);
        },
        None => {},
    }
    if strip_prefix(line, "=").is_some() || strip_prefix(line, "&").is_some() || strip_prefix(
        line,
        "(gdb)",
    ).is_some() || strip_prefix(line, "\u{1b}[H").is_some() {
        LineClass::Skipped
    } else {
        LineClass::Echo
    }
}


/// What the driver knows of its debugger: the token of the next command,
/// the console output not yet fetched, the answers not yet fetched, and the
/// run state last reported.
#[derive(Debug)]
pub struct GdbMiState {
    pub response_id: u64,
    pub running: bool,
    pub gdblog: Vec<String>,
    pub resps: HashMap<u64, GdbMiCommandResponse>,
    pub runstate: Option<RunState>,
}

/// What the reader did with a line.
#[derive(Debug)]
pub enum LineEffect {
    /// The line went to the log.
    Logged,
    /// The line is the answer to the command with this token.
    Answered(u64),
    /// The line changed the run state.
    StateChanged,
    /// The line needed nothing.
    Ignored,
    /// The line is output of the program, to be shown.
    Echo,
}

/// How a wait for an answer goes on.
#[derive(Debug)]
pub enum AwaitStep {
    /// The answer has come.
    Ready(GdbMiCommandResponse),
    /// The time allowed has passed.
    TimedOut,
    /// The answer has not come yet.
    Wait,
}

impl GdbMiState {
    /// The state of a driver that has sent no command and seen no line.
    pub fn new() -> (r: GdbMiState)
        ensures
            r.response_id == 0,
            r.running,
            r.gdblog@.len() == 0,
            r.resps@ == Map::<u64, GdbMiCommandResponse>::empty(),
            r.runstate is None,
    {
        GdbMiState {
            response_id: 0,
            running: true,
            gdblog: Vec::new(),
            resps: HashMap::new(),
            runstate: None,
        }
    }

    /// Why the program has stopped, where it has.
    pub fn get_stop_state(&self) -> (r: Option<StopReason>)
        ensures
            r == match self.runstate {
                Some(RunState::Stopped(reason)) => Some(*reason),
                _ => None,
            },
    {
        match &self.runstate {
            Some(RunState::Stopped(st)) => {
                let reason: StopReason = (**st).clone();
                Some(reason)
            },
            _ => None,
        }
    }

    /// Keeps a line of console output.
    pub fn pushlog(&mut self, log: &str)
        ensures
            final(self).gdblog@.len() == old(self).gdblog@.len() + 1,
            final(self).gdblog@.last()@ == log@,
            forall|i: int|
                0 <= i < old(self).gdblog@.len() ==> final(self).gdblog@[i] == old(
                    self).gdblog@[i],
            final(self).response_id == old(self).response_id,
            final(self).running == old(self).running,
            final(self).resps == old(self).resps,
            final(self).runstate == old(self).runstate,
    {
        self.gdblog.push(String::from_str(log));
    }

    /// Keeps the answer to the command with the token `id`, in place of an
    /// answer to that token that nobody fetched.
    pub fn pushresp(&mut self, id: u64, resp: GdbMiCommandResponse)
        ensures
            final(self).resps@ == old(self).resps@.insert(id, resp),
            final(self).response_id == old(self).response_id,
            final(self).running == old(self).running,
            final(self).gdblog == old(self).gdblog,
            final(self).runstate == old(self).runstate,
    {
        broadcast use vstd::std_specs::hash::group_hash_axioms;

        self.resps.insert(id, resp);
    }

    /// Hands out the console output kept so far, and keeps none of it.
    pub fn getlog(&mut self) -> (r: Vec<String>)
        ensures
            r == old(self).gdblog,
            final(self).gdblog@.len() == 0,
            final(self).response_id == old(self).response_id,
            final(self).running == old(self).running,
            final(self).resps == old(self).resps,
            final(self).runstate == old(self).runstate,
    {
        let mut out: Vec<String> = Vec::new();
        std::mem::swap(&mut out, &mut self.gdblog);
        out
    }

    /// Whether there is still output to read.
    pub open spec fn spec_isrunning(&self) -> bool {
        match self.runstate {
            Some(RunState::Stopped(reason)) => if reason.spec_exited() {
                false
            } else {
                self.running
            },
            _ => self.running,
        }
    }

    /// Whether there is still output to read: not once the program has come
    /// to its end.
    pub fn isrunning(&self) -> (r: bool)
        ensures
            r == self.spec_isrunning(),
    {
        match &self.runstate {
            Some(RunState::Stopped(stop_state)) => {
                if stop_state.exited() {
                    return false;
                }
            },
            _ => {},
        }
        self.running
    }

    /// Takes note of the run state that the debugger reports.
    pub fn setrunstate(&mut self, runstate: RunState)
        ensures
            final(self).runstate == Some(runstate),
            final(self).response_id == old(self).response_id,
            final(self).running == old(self).running,
            final(self).gdblog == old(self).gdblog,
            final(self).resps == old(self).resps,
    {
        self.runstate = Some(runstate);
    }

    /// Whether `after` is the state that a line leaves behind, and `r` what
    /// the reader did with it.
    pub open spec fn line_applied(
        before: GdbMiState,
        after: GdbMiState,
        line: Seq<char>,
        r: Result<LineEffect, RunStateError>,
    ) -> bool {
        &&& after.response_id == before.response_id
        &&& after.running == before.running
        &&& match line_kind(line) {
            LineKind::Log(log) => {
                &&& r is Ok && r->Ok_0 is Logged
                &&& after.gdblog@.len() == before.gdblog@.len() + 1
                &&& after.gdblog@.last()@ == log
                &&& forall|i: int|
                    0 <= i < before.gdblog@.len() ==> after.gdblog@[i] == before.gdblog@[i]
                &&& after.resps == before.resps
                &&& after.runstate == before.runstate
            },
            LineKind::Response(id, payload) => {
                &&& r is Ok && r->Ok_0 == LineEffect::Answered(id)
                &&& after.gdblog == before.gdblog
                &&& after.runstate == before.runstate
                &&& after.resps@.dom() == before.resps@.dom().insert(id)
                &&& after.resps@[id].is_reading_of(payload)
                &&& forall|k: u64|
                    k != id && before.resps@.contains_key(k) ==> after.resps@[k]
                        == before.resps@[k]
            },
            LineKind::Record(record) => {
                &&& after.gdblog == before.gdblog
                &&& after.resps == before.resps
                &&& if r is Ok {
                    &&& r->Ok_0 is StateChanged
                    &&& after.runstate is Some
                    &&& is_run_state_of(Ok(after.runstate->0), record)
                } else {
                    &&& after.runstate == before.runstate
                    &&& is_run_state_of(Err(r->Err_0), record)
                }
            },
            LineKind::Skipped => {
                &&& r is Ok && r->Ok_0 is Ignored
                &&& after == before
            },
            LineKind::Echo => {
                &&& r is Ok && r->Ok_0 is Echo
                &&& after == before
            },
        }
    }

    /// Takes in one line of the debugger's output: console output goes to
    /// the log, an answer to the table of answers under its token, an
    /// execution-status record to the run state. A record that does not read
    /// is an error and changes nothing.
    pub fn consume_line(&mut self, line: &str) -> (r: Result<LineEffect, RunStateError>)
        ensures
            GdbMiState::line_applied(*old(self), *final(self), line@, r),
    {
        broadcast use vstd::std_specs::hash::group_hash_axioms;

        match classify_line(line) {
            LineClass::Log(log) => {
                self.pushlog(log.as_str());
                Ok(LineEffect::Logged)
            },
            LineClass::Response(id, payload) => {
                let resp = GdbMiCommandResponse::new(payload.as_str());
                self.pushresp(id, resp);
                assert(self.resps@.dom() =~= old(self).resps@.dom().insert(id));
                Ok(LineEffect::Answered(id))
            },
            LineClass::Record(record) => {
                match RunState::new_from_gdb(record.as_str()) {
                    Ok(rstate) => {
                        self.setrunstate(rstate);
                        Ok(LineEffect::StateChanged)
                    },
                    Err(e) => Err(e),
                }
            },
            LineClass::Skipped => Ok(LineEffect::Ignored),
            LineClass::Echo => Ok(LineEffect::Echo),
        }
    }

    /// The line that sends `command` to the debugger: the token, the
    /// command, the end of the line.
    pub open spec fn command_line(id: u64, command: Seq<char>) -> Seq<char> {
        decimal(id as nat) + command + "\n"@
    }

    /// Gives `command` the next token and returns the token with the line
    /// to send. `None`, and no change, once every token has been given.
    pub fn next_command(&mut self, command: &str) -> (r: Option<(u64, String)>)
        ensures
            r is Some <==> old(self).response_id < u64::MAX,
            r is Some ==> {
                &&& r->Some_0.0 == old(self).response_id
                &&& r->Some_0.1@ == GdbMiState::command_line(old(self).response_id, command@)
                &&& final(self).response_id == old(self).response_id + 1
            },
            r is None ==> final(self).response_id == old(self).response_id,
            final(self).running == old(self).running,
            final(self).gdblog == old(self).gdblog,
            final(self).resps == old(self).resps,
            final(self).runstate == old(self).runstate,
    {
        if self.response_id == u64::MAX {
            return None;
        }
        let id = self.response_id;
        self.response_id = self.response_id + 1;
        let mut cmd = String::new();
        push_decimal(&mut cmd, id);
        assert(cmd@ =~= decimal(id as nat));
        cmd.append(command);
        cmd.append("\n");
        Some((id, cmd))
    }

    /// One look at the table of answers while waiting for the answer to the
    /// token `id`. The answer is taken out of the table where it is there.
    /// Else the wait is over once more than `timeout_ms` milliseconds have
    /// passed, unless `timeout_ms` is 0, which waits for ever.
    pub fn poll_response(&mut self, id: u64, timeout_ms: u128, elapsed_ms: u128) -> (r: AwaitStep)
        ensures
            final(self).response_id == old(self).response_id,
            final(self).running == old(self).running,
            final(self).gdblog == old(self).gdblog,
            final(self).runstate == old(self).runstate,
            old(self).resps@.contains_key(id) ==> r == AwaitStep::Ready(old(self).resps@[id])
                && final(self).resps@ == old(self).resps@.remove(id),
            !old(self).resps@.contains_key(id) ==> final(self).resps@ == old(self).resps@ && (r
                is TimedOut <==> timeout_ms != 0 && elapsed_ms > timeout_ms) && (r is Wait <==> !(
            timeout_ms != 0 && elapsed_ms > timeout_ms)),
    {
        broadcast use vstd::std_specs::hash::group_hash_axioms;

        match self.resps.remove(&id) {
            Some(resp) => {
                return AwaitStep::Ready(resp);
            },
            None => {
                assert(self.resps@ =~= old(self).resps@);
            },
        }
        if timeout_ms != 0 && elapsed_ms > timeout_ms {
            AwaitStep::TimedOut
        } else {
            AwaitStep::Wait
        }
    }

    /// The run state of the program, under the identifier `id`; nothing
    /// before the debugger has reported one.
    pub fn state(&self, id: u64) -> (r: HashMap<u64, RunState>)
        ensures
            r@ == match self.runstate {
                Some(rs) => Map::<u64, RunState>::empty().insert(id, rs),
                None => Map::<u64, RunState>::empty(),
            },
    {
        broadcast use vstd::std_specs::hash::group_hash_axioms;

        let mut ret: HashMap<u64, RunState> = HashMap::new();
        match &self.runstate {
            Some(rs) => {
                ret.insert(id, rs.clone());
            },
            None => {},
        }
        ret
    }

    /// What to send to stop the program: nothing where it has stopped
    /// already, else the command that interrupts every thread.
    pub fn stop_command(&self) -> (r: Option<String>)
        ensures
            r is None <==> self.runstate is Some && self.runstate->0 is Stopped,
            r is Some ==> r->0@ == "-exec-interrupt --all"@,
    {
        match &self.runstate {
            Some(RunState::Stopped(_)) => None,
            _ => Some(String::from_str("-exec-interrupt --all")),
        }
    }

    /// What to send to let the program go on: nothing where it runs
    /// already, else the command that continues it.
    pub fn cont_command(&self) -> (r: Option<String>)
        ensures
            r is None <==> self.runstate is Some && self.runstate->0 is Running,
            r is Some ==> r->0@ == "-exec-continue"@,
    {
        match &self.runstate {
            Some(RunState::Running(_)) => None,
            _ => Some(String::from_str("-exec-continue")),
        }
    }

    /// What to send to fetch the symbols: the command that lists the
    /// functions where the program has stopped, and an error where it runs
    /// or has not reported a state yet.
    pub fn symbols_command(&self) -> (r: Result<String, String>)
        ensures
            r is Ok <==> self.runstate is Some && self.runstate->0 is Stopped,
            r is Err ==> r->Err_0@ == "Symbols can only be retrieved on a stopped target"@,
            r is Ok ==> r->Ok_0@ == "-symbol-info-functions --include-nondebug"@,
    {
        match &self.runstate {
            Some(RunState::Stopped(_)) => Ok(
                String::from_str("-symbol-info-functions --include-nondebug"),
            ),
            _ => Err(String::from_str("Symbols can only be retrieved on a stopped target")),
        }
    }

    /// Whether a snapshot has to interrupt the program first.
    pub fn snapshot_needs_stop(&self) -> (r: bool)
        ensures
            r == (self.runstate is Some && self.runstate->0 is Running),
    {
        match &self.runstate {
            Some(RunState::Running(_)) => true,
            _ => false,
        }
    }

    /// Whether the program has come to its end.
    pub open spec fn spec_has_exited(&self) -> bool {
        match self.runstate {
            Some(RunState::Stopped(reason)) => reason.spec_exited(),
            _ => false,
        }
    }

    /// The snapshot of a program that has come to its end: one placeholder
    /// thread, with the stop reason last seen; `None` while the program has
    /// not come to its end.
    pub fn exited_snapshot(&self) -> (r: Option<ProgramSnapshot>)
        ensures
            r is Some <==> self.spec_has_exited(),
            r is Some ==> {
                &&& r->0.stop_state == Some(*self.runstate->0->Stopped_0)
                &&& r->0.state@.dom() == set![0u32]
                &&& r->0.state@[0u32]@.len() == 1
                &&& r->0.state@[0u32]@[0].is_exited_frame()
            },
    {
        match &self.runstate {
            Some(RunState::Stopped(reason)) => {
                if reason.exited() {
                    Some(ProgramSnapshot::exited(self.get_stop_state()))
                } else {
                    None
                }
            },
            _ => None,
        }
    }
}

/// The components of the one program that a leaf drives.
pub fn leaf_components(id: u64, snap: ProgramSnapshot) -> (r: HashMap<
    u64,
    (u64, Vec<BacktraceState>),
>)
    ensures
        is_components_of(
            components_view(r@),
            Map::<u64, ProgramSnapshot>::empty().insert(id, snap),
            thread_pairs(Map::<u64, ProgramSnapshot>::empty().insert(id, snap)),
        ),
        components_wf(components_view(r@)),
{
    broadcast use vstd::std_specs::hash::group_hash_axioms;

    let mut ret: HashMap<u64, ProgramSnapshot> = HashMap::new();
    ret.insert(id, snap);
    ProgramSnapshot::generate_components(ret)
}

/// The command that selects the thread `id`.
pub fn select_thread_command(id: u32) -> (r: String)
    ensures
        r@ == "-thread-select "@ + decimal(id as nat),
{
    let mut cmd = String::from_str("-thread-select ");
    push_decimal(&mut cmd, id as u64);
    cmd
}

/// The command that lists the variables of a frame of a thread.
pub fn locals_command(threadid: u32, frameid: u32) -> (r: String)
    ensures
        r@ == "-stack-list-variables --thread "@ + decimal(threadid as nat) + " --frame "@
            + decimal(frameid as nat) + " --all-values"@,
{
    let mut cmd = String::from_str("-stack-list-variables --thread ");
    push_decimal(&mut cmd, threadid as u64);
    cmd.append(" --frame ");
    push_decimal(&mut cmd, frameid as u64);
    cmd.append(" --all-values");
    cmd
}


/// The pattern of a thread identifier in the list of threads.
pub open spec fn thread_id_pattern() -> Seq<char> {
    "[,\\{]thread-id=\"([0-9]+)\""@
}

/// The texts that read as a `u32`, each as that number, in order.
pub open spec fn pick_u32(texts: Seq<Seq<char>>) -> Seq<u32>
    decreases texts.len(),
{
    if texts.len() == 0 {
        Seq::empty()
    } else {
        let rest = pick_u32(texts.drop_last());
        match spec_parse_unsigned(texts.last(), u32::MAX as nat) {
            Some(n) => rest.push(n as u32),
            None => rest,
        }
    }
}

/// The thread identifiers that the answer to the thread list holds.
pub open spec fn spec_thread_ids(resp: Seq<char>) -> Option<Seq<u32>> {
    match regex_captures(thread_id_pattern(), resp) {
        Some(caps) => Some(pick_u32(pick_group(caps, 1))),
        None => None,
    }
}

/// The texts that read as a `u32`, each as that number, in order.
pub fn numbers_from_texts(texts: &Vec<String>) -> (r: Vec<u32>)
    ensures
        r@ == pick_u32(texts.deep_view()),
{
    let mut out: Vec<u32> = Vec::new();
    let mut i: usize = 0;
    assert(texts.deep_view().take(0) =~= Seq::empty());
    while i < texts.len()
        invariant
            i <= texts.len(),
            out@ == pick_u32(texts.deep_view().take(i as int)),
        decreases texts.len() - i,
    {
        assert(texts.deep_view().take(i + 1).drop_last() =~= texts.deep_view().take(i as int));
        assert(texts.deep_view().take(i + 1).last() == texts@[i as int]@);
        match parse_u32(texts[i].as_str()) {
            Some(n) => {
                out.push(n);
            },
            None => {},
        }
        i = i + 1;
    }
    assert(texts.deep_view().take(texts.len() as int) =~= texts.deep_view());
    out
}

/// Reads the thread identifiers out of the answer to the thread list.
/// `None` where the pattern could not be compiled.
pub fn list_thread_id(resp: &str) -> (r: Option<Vec<u32>>)
    ensures
        r is Some <==> spec_thread_ids(resp@) is Some,
        r is Some ==> r->0@ == spec_thread_ids(resp@)->0,
{
    match captures_all("[,\\{]thread-id=\"([0-9]+)\"", resp) {
        Some(caps) => {
            let texts = groups_from_captures(&caps, 1);
            Some(numbers_from_texts(&texts))
        },
        None => None,
    }
}

/// The pattern of one frame in the answer to the frame list.
pub open spec fn frame_pattern() -> Seq<char> {
    "frame=\\{([^\\}]+)\\}"@
}

/// The frame records that the answer to the frame list holds.
pub open spec fn spec_frame_records(resp: Seq<char>) -> Option<Seq<Seq<char>>> {
    match regex_captures(frame_pattern(), resp) {
        Some(caps) => Some(pick_group(caps, 1)),
        None => None,
    }
}

/// The frames that a list of frame records describes.
pub fn frames_from_records(records: &Vec<String>) -> (r: Vec<DebugFrame>)
    ensures
        r@.len() == records@.len(),
        forall|i: int|
            0 <= i < records@.len() ==> (#[trigger] r@[i]).matches_entries(
                spec_equal_list(records@[i]@),
            ),
{
    let mut out: Vec<DebugFrame> = Vec::new();
    let mut i: usize = 0;
    while i < records.len()
        invariant
            i <= records.len(),
            out@.len() == i,
            forall|j: int|
                0 <= j < i ==> (#[trigger] out@[j]).matches_entries(
                    spec_equal_list(records@[j]@),
                ),
        decreases records.len() - i,
    {
        out.push(DebugFrame::new(records[i].as_str()));
        i = i + 1;
    }
    out
}

/// Reads the frames out of the answer to the frame list. `None` where the
/// pattern could not be compiled.
pub fn backtrace(resp: &str) -> (r: Option<Vec<DebugFrame>>)
    ensures
        r is Some <==> spec_frame_records(resp@) is Some,
        r is Some ==> {
            let records = spec_frame_records(resp@)->0;
            &&& r->0@.len() == records.len()
            &&& forall|i: int|
                0 <= i < records.len() ==> (#[trigger] r->0@[i]).matches_entries(
                    spec_equal_list(records[i]),
                )
        },
{
    match captures_all("frame=\\{([^\\}]+)\\}", resp) {
        Some(caps) => {
            let records = groups_from_captures(&caps, 1);
            assert forall|i: int| 0 <= i < records@.len() implies records@[i]@
                == #[trigger] records.deep_view()[i] by {}
            Some(frames_from_records(&records))
        },
        None => None,
    }
}

/// The variable that the pairs of one group describe: its name, whether it
/// is an argument, its value. A group without a name or a value describes
/// none.
pub open spec fn local_of(e: Seq<(Seq<char>, Seq<char>)>) -> Option<(Seq<char>, bool, Seq<char>)> {
    match (lookup_last(e, "name"@), lookup_last(e, "value"@)) {
        (Some(name), Some(value)) => Some(
            (name, lookup_last(e, "arg"@) == Some("1"@), value),
        ),
        _ => None,
    }
}

/// The variables that a list of groups describes, in order.
pub open spec fn pick_locals(groups: Seq<Seq<char>>) -> Seq<(Seq<char>, bool, Seq<char>)>
    decreases groups.len(),
{
    if groups.len() == 0 {
        Seq::empty()
    } else {
        let rest = pick_locals(groups.drop_last());
        match local_of(spec_equal_list(groups.last())) {
            Some(var) => rest.push(var),
            None => rest,
        }
    }
}

/// Reads the variables out of the answer to the list of variables.
pub fn locals(resp: &str) -> (r: Vec<(String, bool, String)>)
    ensures
        r.deep_view() == pick_locals(spec_gdb_groups(resp@)),
{
    let groups = extract_gdb_group(resp);
    let mut ret: Vec<(String, bool, String)> = Vec::new();
    let mut i: usize = 0;
    assert(groups.deep_view().take(0) =~= Seq::empty());
    assert(ret.deep_view() =~= Seq::empty());
    while i < groups.len()
        invariant
            i <= groups.len(),
            ret.deep_view() == pick_locals(groups.deep_view().take(i as int)),
        decreases groups.len() - i,
    {
        assert(groups.deep_view().take(i + 1).drop_last() =~= groups.deep_view().take(i as int));
        assert(groups.deep_view().take(i + 1).last() == groups@[i as int]@);
        let entries = parse_gdb_equal_list(groups[i].as_str());
        let name = entry_value(&entries, "name");
        let value = entry_value(&entries, "value");
        match (name, value) {
            (Some(name), Some(value)) => {
                let is_arg = match entry_value(&entries, "arg") {
                    Some(arg) => str_eq(arg.as_str(), "1"),
                    None => false,
                };
                let ghost before = ret.deep_view();
                let ghost var = (name@, is_arg, value@);
                ret.push((name, is_arg, value));
                assert(ret.deep_view() =~= before.push(var));
            },
            _ => {},
        }
        i = i + 1;
    }
    assert(groups.deep_view().take(groups.len() as int) =~= groups.deep_view());
    ret
}

/// Why the symbols in an answer could not be made ready.
#[derive(Debug, Clone, Copy, PartialEq, Eq, Structural)]
pub enum PayloadError {
    /// The pattern of a name could not be compiled.
    BadPattern,
}

/// The text of the symbols in the answer to the list of functions, made
/// ready to be read as JSON: what stands behind `,symbols=`, with every
/// `name=` as `"name" : `. Nothing where the answer holds no symbols; an
/// error where the pattern could not be compiled.
pub open spec fn spec_symbols_payload(resp: Seq<char>) -> Result<Option<Seq<char>>, PayloadError> {
    match spec_strip_prefix(resp, ",symbols="@) {
        Some(rest) => match regex_replace_every(json_key_pattern(), rest, json_key_replacement()) {
            Some(text) => Ok(Some(text)),
            None => Err(PayloadError::BadPattern),
        },
        None => Ok(None),
    }
}

/// Makes the answer to the list of functions ready to be read as JSON.
pub fn symbols_payload(resp: &str) -> (r: Result<Option<String>, PayloadError>)
    ensures
        match spec_symbols_payload(resp@) {
            Ok(Some(text)) => r is Ok && r->Ok_0 is Some && r->Ok_0->0@ == text,
            Ok(None) => r is Ok && r->Ok_0 is None,
            Err(e) => r == Err::<Option<String>, PayloadError>(e),
        },
{
    match strip_prefix(resp, ",symbols=") {
        Some(strip_start) => match gdb_output_to_json_repr(strip_start.as_str()) {
            Some(text) => Ok(Some(text)),
            None => Err(PayloadError::BadPattern),
        },
        None => Ok(None),
    }
}

/// One symbol as the debugger reports it.
#[derive(Debug)]
pub struct GdbSymbol {
    pub name: String,
    pub address: Option<String>,
    pub line: Option<String>,
    pub type_: Option<String>,
    pub description: Option<String>,
}

/// The symbols of one source file as the debugger reports them.
#[derive(Debug)]
pub struct GdbFileSymbols {
    pub filename: String,
    pub fullname: String,
    pub symbols: Vec<GdbSymbol>,
}

/// The symbols of a program as the debugger reports them: those with debug
/// information file by file, and those without.
#[derive(Debug)]
pub struct GdbSymbolRecord {
    pub debug: Option<Vec<GdbFileSymbols>>,
    pub nondebug: Option<Vec<GdbSymbol>>,
}

/// A copy of an optional string.
fn copy_text(o: &Option<String>) -> (r: Option<String>)
    ensures
        r == *o,
{
    match o {
        Some(s) => Some(s.clone()),
        None => None,
    }
}

impl GdbSymbol {
    /// The symbol with its line as a number, where the line reads as one.
    pub open spec fn is_common(&self, sym: Symbol) -> bool {
        &&& sym.name == self.name
        &&& sym.address == self.address
        &&& sym.line == match self.line {
            Some(text) => match spec_parse_signed(text@, i32::MAX as nat) {
                Some(n) => Some(n as i32),
                None => None,
            },
            None => None,
        }
        &&& sym.type_ == self.type_
        &&& sym.description == self.description
    }

    /// The symbol as the library holds it.
    pub fn to_common_symbol(&self) -> (r: Symbol)
        ensures
            self.is_common(r),
    {
        let line: Option<i32> = match &self.line {
            Some(text) => parse_i32(text.as_str()),
            None => None,
        };
        Symbol {
            name: self.name.clone(),
            address: copy_text(&self.address),
            line,
            type_: copy_text(&self.type_),
            description: copy_text(&self.description),
        }
    }
}

/// Whether `out` holds the symbols of `symbols`, one for one.
pub open spec fn are_common(symbols: Seq<GdbSymbol>, out: Seq<Symbol>) -> bool {
    &&& out.len() == symbols.len()
    &&& forall|i: int| 0 <= i < symbols.len() ==> (#[trigger] symbols[i]).is_common(out[i])
}

/// The symbols of a list as the library holds them.
pub fn to_common_symbols(symbols: &Vec<GdbSymbol>) -> (r: Vec<Symbol>)
    ensures
        are_common(symbols@, r@),
{
    let mut out: Vec<Symbol> = Vec::new();
    let mut i: usize = 0;
    while i < symbols.len()
        invariant
            i <= symbols.len(),
            out@.len() == i,
            forall|j: int| 0 <= j < i ==> (#[trigger] symbols@[j]).is_common(out@[j]),
        decreases symbols.len() - i,
    {
        out.push(symbols[i].to_common_symbol());
        i = i + 1;
    }
    out
}

/// Whether the file at `i` is the last one of that path among `files`.
pub open spec fn is_last_of_path(files: Seq<GdbFileSymbols>, i: int) -> bool {
    forall|j: int| i < j < files.len() ==> (#[trigger] files[j]).fullname@ != files[i].fullname@
}

/// Whether `table` holds the symbols of the first `n` files.
pub open spec fn holds_files(table: SymbolTable, files: Seq<GdbFileSymbols>, n: int) -> bool {
    &&& table.wf()
    &&& forall|f: Seq<char>|
        table.has_file(f) <==> exists|i: int| 0 <= i < n && (#[trigger] files[i]).fullname@ == f
    &&& forall|i: int|
        0 <= i < n && is_last_of_path(files.take(n), i) ==> are_common(
            (#[trigger] files[i]).symbols@,
            table.symbols_of(files[i].fullname@),
        )
}

/// Builds the symbol table from what the debugger reports: each file with
/// debug information under its path, the last one standing where a path
/// comes twice, and the symbols without debug information under `Unknown`.
pub fn symbol_table_from_record(record: &GdbSymbolRecord) -> (r: SymbolTable)
    ensures
        r.wf(),
        forall|f: Seq<char>|
            r.has_file(f) <==> (record.nondebug is Some && f == "Unknown"@) || (record.debug
                is Some && exists|i: int|
                0 <= i < record.debug->0@.len() && (#[trigger] record.debug->0@[i]).fullname@
                    == f),
        record.nondebug is Some ==> are_common(record.nondebug->0@, r.symbols_of("Unknown"@)),
        record.debug is Some ==> forall|i: int|
            0 <= i < record.debug->0@.len() && is_last_of_path(record.debug->0@, i) && !(
            record.nondebug is Some && (#[trigger] record.debug->0@[i]).fullname@ == "Unknown"@)
                ==> are_common(
                record.debug->0@[i].symbols@,
                r.symbols_of(record.debug->0@[i].fullname@),
            ),
{
    let mut ret = SymbolTable::default();
    let ghost files: Seq<GdbFileSymbols> = if record.debug is Some {
        record.debug->0@
    } else {
        Seq::empty()
    };
    assert(holds_files(ret, files, 0)) by {
        assert forall|f: Seq<char>| !ret.has_file(f) by {}
    }
    match &record.debug {
        Some(per_file) => {
            let mut i: usize = 0;
            while i < per_file.len()
                invariant
                    i <= per_file.len(),
                    files == per_file@,
                    holds_files(ret, files, i as int),
                decreases per_file.len() - i,
            {
                let ghost before = ret;
                let symbols = to_common_symbols(&per_file[i].symbols);
                ret.insert(per_file[i].fullname.clone(), symbols);
                proof {
                    let path = files[i as int].fullname@;
                    assert forall|f: Seq<char>|
                        ret.has_file(f) <==> exists|k: int|
                            0 <= k < i + 1 && (#[trigger] files[k]).fullname@ == f by {
                        if f == path {
                            assert(files[i as int].fullname@ == f);
                        } else {
                            if before.has_file(f) {
                                let k = choose|k: int|
                                    0 <= k < i && (#[trigger] files[k]).fullname@ == f;
                                assert(0 <= k < i + 1 && files[k].fullname@ == f);
                            }
                            if exists|k: int|
                                0 <= k < i + 1 && (#[trigger] files[k]).fullname@ == f {
                                let k = choose|k: int|
                                    0 <= k < i + 1 && (#[trigger] files[k]).fullname@ == f;
                                assert(k < i);
                                assert(before.has_file(f));
                            }
                        }
                    }
                    assert forall|k: int|
                        0 <= k < i + 1 && is_last_of_path(files.take(i + 1), k) implies are_common(
                        (#[trigger] files[k]).symbols@,
                        ret.symbols_of(files[k].fullname@),
                    ) by {
                        if k < i {
                            assert(files.take(i + 1)[i as int] == files[i as int]);
                            assert(files.take(i + 1)[k] == files[k]);
                            assert(files[k].fullname@ != path);
                            assert(is_last_of_path(files.take(i as int), k)) by {
                                assert forall|j: int| k < j < i implies (#[trigger] files.take(
                                    i as int,
                                )[j]).fullname@ != files.take(i as int)[k].fullname@ by {
                                    assert(files.take(i + 1)[j] == files[j]);
                                }
                            }
                            assert(before.has_file(files[k].fullname@));
                        }
                    }
                }
                i = i + 1;
            }
            assert(files.take(files.len() as int) =~= files);
        },
        None => {},
    }
    match &record.nondebug {
        Some(nodebug) => {
            let ghost before = ret;
            let symbols = to_common_symbols(nodebug);
            ret.insert(String::from_str("Unknown"), symbols);
            proof {
                assert forall|i: int|
                    0 <= i < files.len() && is_last_of_path(files, i) && (
                    #[trigger] files[i]).fullname@ != "Unknown"@ implies are_common(
                    files[i].symbols@,
                    ret.symbols_of(files[i].fullname@),
                ) by {
                    assert(before.has_file(files[i].fullname@));
                }
                assert forall|f: Seq<char>|
                    ret.has_file(f) <==> f == "Unknown"@ || exists|i: int|
                        0 <= i < files.len() && (#[trigger] files[i]).fullname@ == f by {
                    if f != "Unknown"@ {
                        assert(ret.has_file(f) == before.has_file(f));
                    }
                }
            }
        },
        None => {},
    }
    ret
}

} // verus!
