//! A node as a server: which command goes where, and what comes back.

use crate::debugger::Debugger;
use crate::metadata::{BacktraceState, RunState, SymbolTable};
use crate::protocol::{
    spec_from_count, spec_from_result, spec_from_snapshot, spec_from_state, spec_from_symbols,
    GdbMachineCommand, GdbMachineResponse,
};
use std::collections::HashMap;
use crate::tools::{decimal, push_decimal};
use crate::tree::{is_merge_of, is_seating, PivotError, TreeState};
use vstd::prelude::*;

verus! {

/// What a node has to do for a command.
#[derive(Debug)]
pub enum Dispatch {
    /// Answer with this, or with nothing where the command is not for the
    /// part of the node that was asked.
    Reply(Option<GdbMachineResponse>),
    /// Connect to the node at this address, then report how that went.
    Connect(String),
}

/// The response that tells a node where it was seated, or why it was not.
pub fn pivot_response(res: Result<(u64, String), PivotError>) -> (r: GdbMachineResponse)
    ensures
        match res {
            Ok(seat) => r == GdbMachineResponse::Pivot(seat.0, seat.1),
            Err(e) => r is Error && r->Error_0@ == crate::tree::spec_pivot_message(e),
        },
{
    match res {
        Ok((id, targ)) => GdbMachineResponse::Pivot(id, targ),
        Err(e) => GdbMachineResponse::Error(e.message()),
    }
}

/// The address that a node serves: its host and its port.
#[derive(Debug)]
pub struct GdbMachine {
    pub host: String,
    pub port: u16,
}

impl GdbMachine {
    /// The node that serves `port` on `host`.
    pub fn new(host: String, port: u16) -> (r: GdbMachine)
        ensures
            r.host == host,
            r.port == port,
    {
        GdbMachine { host, port }
    }

    /// The address under which other nodes reach this one: the host, a
    /// colon, the port.
    pub fn url(&self) -> (r: String)
        ensures
            r@ == self.host@ + ":"@ + decimal(self.port as nat),
    {
        let mut out = self.host.clone();
        out.append(":");
        push_decimal(&mut out, self.port as u64);
        out
    }

    /// Carries out a command of the debugger surface on `dbg`: calls the
    /// method of the debugger that the command names, once, and wraps what
    /// it returns, its error included. A command that seats or connects
    /// nodes is not for a debugger: it gets no answer here, and the
    /// debugger is not called.
    pub fn do_cmd<D: Debugger>(dbg: &mut D, cmd: &GdbMachineCommand) -> (r: Option<
        GdbMachineResponse,
    >)
        ensures
            match *cmd {
                GdbMachineCommand::Start => exists|out: Result<(), String>|
                    #[trigger] old(dbg).start_outcome(final(dbg), out) && r == Some(
                        spec_from_result(out),
                    ),
                GdbMachineCommand::Stop => exists|out: Result<(), String>|
                    #[trigger] old(dbg).stop_outcome(final(dbg), out) && r == Some(
                        spec_from_result(out),
                    ),
                GdbMachineCommand::Continue => exists|out: Result<(), String>|
                    #[trigger] old(dbg).cont_outcome(final(dbg), out) && r == Some(
                        spec_from_result(out),
                    ),
                GdbMachineCommand::GetState => exists|out: Result<HashMap<u64, RunState>, String>|
                    #[trigger] old(dbg).state_outcome(final(dbg), out) && r == Some(
                        spec_from_state(out),
                    ),
                GdbMachineCommand::GetSnapshot => exists|
                    out: Result<HashMap<u64, (u64, Vec<BacktraceState>)>, String>,
                |
                    #[trigger] old(dbg).snapshot_outcome(final(dbg), out) && r == Some(
                        spec_from_snapshot(out),
                    ),
                GdbMachineCommand::GetSymbols => exists|out: Result<SymbolTable, String>|
                    #[trigger] old(dbg).symbols_outcome(final(dbg), out) && r == Some(
                        spec_from_symbols(out),
                    ),
                GdbMachineCommand::Count => exists|out: Result<u64, String>|
                    #[trigger] old(dbg).count_outcome(final(dbg), out) && r == Some(
                        spec_from_count(out),
                    ),
                GdbMachineCommand::Pivot(_, _) => r is None && *final(dbg) == *old(dbg),
                GdbMachineCommand::Join(_) => r is None && *final(dbg) == *old(dbg),
            },
    {
        match cmd {
            GdbMachineCommand::Start => Some(GdbMachineResponse::from_result(dbg.start())),
            GdbMachineCommand::Stop => Some(GdbMachineResponse::from_result(dbg.stop())),
            GdbMachineCommand::Continue => Some(GdbMachineResponse::from_result(dbg.cont())),
            GdbMachineCommand::GetState => Some(GdbMachineResponse::from_state(dbg.state())),
            GdbMachineCommand::GetSnapshot => Some(
                GdbMachineResponse::snapshot_from_result(dbg.snapshot()),
            ),
            GdbMachineCommand::GetSymbols => Some(
                GdbMachineResponse::symbols_from_result(dbg.symbols()),
            ),
            GdbMachineCommand::Count => Some(GdbMachineResponse::count_from_result(dbg.count())),
            GdbMachineCommand::Pivot(_, _) => None,
            GdbMachineCommand::Join(_) => None,
        }
    }

    /// Carries out a command on the tree: `Pivot` seats the node that asks
    /// and answers with its seat, `Join` asks for a connection to the node
    /// that asks. Any other command is not for the tree and gets no answer
    /// here.
    pub fn do_tree_cmd(state: &mut TreeState, cmd: &GdbMachineCommand) -> (r: Dispatch)
        requires
            old(state).wf(),
        ensures
            final(state).wf(),
            final(state).spec_id() == old(state).spec_id(),
            final(state).spec_children() == old(state).spec_children(),
            match *cmd {
                GdbMachineCommand::Pivot(info, from) => exists|
                    res: Result<(u64, String), PivotError>,
                |
                    {
                        &&& is_seating(
                            old(state).registry(),
                            final(state).registry(),
                            info.locality_descriptor@,
                            from@,
                            res,
                        )
                        &&& r is Reply
                        &&& r->Reply_0 is Some
                        &&& match res {
                            Ok(seat) => r->Reply_0->0 == GdbMachineResponse::Pivot(seat.0, seat.1),
                            Err(e) => r->Reply_0->0 is Error && r->Reply_0->0->Error_0@
                                == crate::tree::spec_pivot_message(e),
                        }
                    },
                GdbMachineCommand::Join(target) => r == Dispatch::Connect(target) && final(state).registry() == old(state).registry(),
                _ => r == Dispatch::Reply(None) && final(state).registry() == old(state).registry(),
            },
    {
        match cmd {
            GdbMachineCommand::Pivot(process_info, from) => {
                let res = state.pivot(process_info, from.clone());
                Dispatch::Reply(Some(pivot_response(res)))
            },
            GdbMachineCommand::Join(target) => Dispatch::Connect(target.clone()),
            _ => Dispatch::Reply(None),
        }
    }

    /// Takes note of how the connection to a child went, and answers the
    /// child: connected, the child is one of this node's children from now
    /// on; else the answer is the error.
    pub fn join_result(state: &mut TreeState, target: String, outcome: Result<(), String>) -> (r:
        GdbMachineResponse)
        ensures
            final(state).spec_id() == old(state).spec_id(),
            final(state).registry() == old(state).registry(),
            match outcome {
                Ok(_) => r is Okay && final(state).spec_children() == old(state).spec_children().push(target),
                Err(e) => r == GdbMachineResponse::Error(e) && final(state).spec_children() == old(state).spec_children(),
            },
    {
        match outcome {
            Ok(_) => {
                state.join(target);
                GdbMachineResponse::Okay
            },
            Err(e) => GdbMachineResponse::Error(e),
        }
    }

    /// The one answer to a command: the answer of the node itself reduced
    /// with the answer of its children; an error where the node itself gave
    /// none.
    pub fn _run_command(
        local_result: Option<GdbMachineResponse>,
        remote_result: Option<GdbMachineResponse>,
    ) -> (r: GdbMachineResponse)
        ensures
            match local_result {
                Some(local) => is_merge_of(r, local, remote_result),
                None => r is Error && r->Error_0@ == "Local command did not return a response"@,
            },
    {
        match local_result {
            Some(local) => TreeState::merge_results(local, remote_result),
            None => GdbMachineResponse::Error(
                String::from_str("Local command did not return a response"),
            ),
        }
    }

    /// Whether every expected child has been seated: the registry holds as
    /// many nodes as are expected.
    pub fn all_seated(seated: Option<usize>, child_count: usize) -> (r: bool)
        ensures
            r == (seated == Some(child_count)),
    {
        match seated {
            Some(cnt) => cnt == child_count,
            None => false,
        }
    }

    /// Whether the tree is whole: as many debuggers answer under this node
    /// as nodes were seated.
    pub fn all_connected(seated: usize, hosted: u64) -> (r: bool)
        ensures
            r == (seated as int == hosted as int),
    {
        seated as u64 == hosted
    }
}

/// What a client reads out of the answer to `Pivot`: its identifier and the
/// address of the node to attach to; any other answer is an error.
pub fn pivot_from_response(ret: GdbMachineResponse) -> (r: Result<(u64, String), String>)
    ensures
        match ret {
            GdbMachineResponse::Pivot(id, targ) => r == Ok::<(u64, String), String>((id, targ)),
            _ => r is Err && r->Err_0@ == "Bad response for pivot"@,
        },
{
    match ret {
        GdbMachineResponse::Pivot(id, targ) => Ok((id, targ)),
        _ => Err(String::from_str("Bad response for pivot")),
    }
}

} // verus!
