//! The commands and responses that tree nodes exchange.

use crate::metadata::{BacktraceState, ProcessInfo, RunState, SymbolTable};
use std::collections::HashMap;
use vstd::prelude::*;

verus! {

/// What one node asks of another.
#[derive(Debug)]
pub enum GdbMachineCommand {
    Start,
    Count,
    Stop,
    Continue,
    GetState,
    GetSnapshot,
    GetSymbols,
    /// Asks the root where to attach: who asks, and the address it serves.
    Pivot(ProcessInfo, String),
    /// Asks a node to connect back to the given address.
    Join(String),
}

impl Clone for GdbMachineCommand {
    fn clone(&self) -> (r: Self)
        ensures
            r == *self,
    {
        match self {
            GdbMachineCommand::Start => GdbMachineCommand::Start,
            GdbMachineCommand::Count => GdbMachineCommand::Count,
            GdbMachineCommand::Stop => GdbMachineCommand::Stop,
            GdbMachineCommand::Continue => GdbMachineCommand::Continue,
            GdbMachineCommand::GetState => GdbMachineCommand::GetState,
            GdbMachineCommand::GetSnapshot => GdbMachineCommand::GetSnapshot,
            GdbMachineCommand::GetSymbols => GdbMachineCommand::GetSymbols,
            GdbMachineCommand::Pivot(info, url) => GdbMachineCommand::Pivot(
                info.clone(),
                url.clone(),
            ),
            GdbMachineCommand::Join(url) => GdbMachineCommand::Join(url.clone()),
        }
    }
}

/// What a node answers.
#[derive(Debug)]
pub enum GdbMachineResponse {
    Error(String),
    /// The command was carried out and returns nothing.
    Okay,
    State(HashMap<u64, RunState>),
    Snapshot(HashMap<u64, (u64, Vec<BacktraceState>)>),
    Symbols(SymbolTable),
    /// The identifier given to the node that asked, and the address of the
    /// node it attaches to.
    Pivot(u64, String),
    Count(u64),
}

/// The response to a command that returns nothing: `Okay`, or the error.
pub open spec fn spec_from_result(res: Result<(), String>) -> GdbMachineResponse {
    match res {
        Ok(_) => GdbMachineResponse::Okay,
        Err(e) => GdbMachineResponse::Error(e),
    }
}

/// The response that carries a state, or the error.
pub open spec fn spec_from_state(res: Result<HashMap<u64, RunState>, String>) -> GdbMachineResponse {
    match res {
        Ok(st) => GdbMachineResponse::State(st),
        Err(e) => GdbMachineResponse::Error(e),
    }
}

/// The response that carries components, or the error.
pub open spec fn spec_from_snapshot(
    res: Result<HashMap<u64, (u64, Vec<BacktraceState>)>, String>,
) -> GdbMachineResponse {
    match res {
        Ok(sn) => GdbMachineResponse::Snapshot(sn),
        Err(e) => GdbMachineResponse::Error(e),
    }
}

/// The response that carries a symbol table, or the error.
pub open spec fn spec_from_symbols(res: Result<SymbolTable, String>) -> GdbMachineResponse {
    match res {
        Ok(st) => GdbMachineResponse::Symbols(st),
        Err(e) => GdbMachineResponse::Error(e),
    }
}

/// The response that carries a count, or the error.
pub open spec fn spec_from_count(res: Result<u64, String>) -> GdbMachineResponse {
    match res {
        Ok(n) => GdbMachineResponse::Count(n),
        Err(e) => GdbMachineResponse::Error(e),
    }
}

impl GdbMachineResponse {
    /// The response that carries a count, or the error.
    pub fn count_from_result(res: Result<u64, String>) -> (r: GdbMachineResponse)
        ensures
            r == spec_from_count(res),
    {
        match res {
            Ok(n) => GdbMachineResponse::Count(n),
            Err(e) => GdbMachineResponse::Error(e),
        }
    }

    /// Reads the answer to a command that returns nothing: `Okay` is success,
    /// `Error` fails with its message behind `Error: `, and any other answer
    /// fails as no answer to such a command.
    pub fn ok(&self) -> (r: Result<(), String>)
        ensures
            r is Ok <==> *self is Okay,
            *self is Error ==> r is Err && r->Err_0@ == "Error: "@ + self->Error_0@,
            !(*self is Okay) && !(*self is Error) ==> r is Err && r->Err_0@
                == "This is not a return type"@,
    {
        match self {
            GdbMachineResponse::Okay => Ok(()),
            GdbMachineResponse::Error(e) => {
                let mut msg = String::from_str("Error: ");
                msg.append(e.as_str());
                Err(msg)
            },
            _ => Err(String::from_str("This is not a return type")),
        }
    }

    /// The response that carries a state, or the error.
    pub fn from_state(res: Result<HashMap<u64, RunState>, String>) -> (r: GdbMachineResponse)
        ensures
            match res {
                Ok(st) => r == GdbMachineResponse::State(st),
                Err(e) => r == GdbMachineResponse::Error(e),
            },
    {
        match res {
            Ok(st) => GdbMachineResponse::State(st),
            Err(e) => GdbMachineResponse::Error(e),
        }
    }

    /// The response to a command that returns nothing: `Okay`, or the error.
    pub fn from_result(res: Result<(), String>) -> (r: GdbMachineResponse)
        ensures
            match res {
                Ok(_) => r == GdbMachineResponse::Okay,
                Err(e) => r == GdbMachineResponse::Error(e),
            },
    {
        match res {
            Ok(_) => GdbMachineResponse::Okay,
            Err(e) => GdbMachineResponse::Error(e),
        }
    }

    /// The response that carries components, or the error.
    pub fn snapshot_from_result(
        ret: Result<HashMap<u64, (u64, Vec<BacktraceState>)>, String>,
    ) -> (r: GdbMachineResponse)
        ensures
            match ret {
                Ok(sn) => r == GdbMachineResponse::Snapshot(sn),
                Err(e) => r == GdbMachineResponse::Error(e),
            },
    {
        match ret {
            Ok(sn) => GdbMachineResponse::Snapshot(sn),
            Err(e) => GdbMachineResponse::Error(e),
        }
    }

    /// The response that carries a symbol table, or the error.
    pub fn symbols_from_result(ret: Result<SymbolTable, String>) -> (r: GdbMachineResponse)
        ensures
            match ret {
                Ok(st) => r == GdbMachineResponse::Symbols(st),
                Err(e) => r == GdbMachineResponse::Error(e),
            },
    {
        match ret {
            Ok(st) => GdbMachineResponse::Symbols(st),
            Err(e) => GdbMachineResponse::Error(e),
        }
    }

    /// The state that a `State` response carries.
    pub fn state(self) -> (r: HashMap<u64, RunState>)
        requires
            self is State,
        ensures
            r == self->State_0,
    {
        match self {
            GdbMachineResponse::State(st) => st,
            _ => HashMap::new(),
        }
    }

    /// The components that a `Snapshot` response carries; any other
    /// response is an error.
    pub fn snapshot(self) -> (r: Result<HashMap<u64, (u64, Vec<BacktraceState>)>, String>)
        ensures
            r is Ok <==> self is Snapshot,
            r is Ok ==> r->Ok_0 == self->Snapshot_0,
            r is Err ==> r->Err_0@ == "Failed to retrieve snapshot from command"@,
    {
        match self {
            GdbMachineResponse::Snapshot(sn) => Ok(sn),
            _ => Err(String::from_str("Failed to retrieve snapshot from command")),
        }
    }

    /// The symbol table that a `Symbols` response carries; any other
    /// response is an error.
    pub fn symbols(self) -> (r: Result<SymbolTable, String>)
        ensures
            r is Ok <==> self is Symbols,
            r is Ok ==> r->Ok_0 == self->Symbols_0,
            r is Err ==> r->Err_0@ == "Failed to retrieve snapshot from command"@,
    {
        match self {
            GdbMachineResponse::Symbols(sy) => Ok(sy),
            _ => Err(String::from_str("Failed to retrieve snapshot from command")),
        }
    }
}

} // verus!
