//! The command dispatcher: one decoded operation in, exactly one typed
//! outcome out.
//!
//! The surrounding loop waits for the next inbound message, decodes it,
//! and hands the operation here; the dispatcher routes it to the store
//! and wraps what comes back. Every operation but `PrintMessage` yields
//! exactly one reply whose payload shape matches the operation;
//! `PrintMessage` yields no reply: its message is shown locally and the
//! loop terminates. A message that fails to decode never reaches the
//! dispatcher: the loop logs and discards it and awaits the next one.

use vstd::prelude::*;

use crate::error::Error;
use crate::modify::{args_valid, modification_of, modified_content, ModifyFileArgs,
    ModifyFileResult};
use crate::store::{DeleteFileArgs, Functions, MoveFileArgs, ReadFileArgs, WriteFileArgs};

verus! {

/// One decoded operation.
#[derive(Debug, Clone)]
pub enum FunctionCall {
    GetAllFiles {},
    WriteFile(WriteFileArgs),
    ReadFile(ReadFileArgs),
    DeleteFile(DeleteFileArgs),
    ModifyFile(ModifyFileArgs),
    MoveFile(MoveFileArgs),
    PrintMessage { message: String },
}

/// The payload of a successful operation; its shape mirrors the
/// operation that produced it.
#[derive(Debug, Clone)]
pub enum FunctionReturnData {
    Null,
    GetAllFiles(Vec<String>),
    WriteFile(Option<String>),
    ModifyFile(ModifyFileResult),
    ReadFile(Option<String>),
}

/// The outcome of one operation: a success payload or an error message.
#[derive(Debug, Clone)]
pub enum FunctionResult {
    Success(FunctionReturnData),
    Error(String),
}

/// What the loop does after one operation: send the reply and await the
/// next message, or show the message locally and terminate.
#[derive(Debug, Clone)]
pub enum DispatchOutcome {
    Reply(FunctionResult),
    Terminate { message: String },
}

/// One executed operation with its outcome, as handed to the display and
/// audit sink.
#[derive(Debug, Clone)]
pub struct FunctionExecution {
    pub call: FunctionCall,
    pub result: FunctionResult,
}

/// Executes one decoded operation against the store. The mapping from
/// operation to payload shape is total and exhaustive: every operation
/// but `PrintMessage` yields exactly one reply, a failed operation yields
/// its error as a normal reply and leaves the store untouched, and
/// `PrintMessage` leaves the store untouched and terminates the loop.
pub fn dispatch(f: &mut Functions, call: FunctionCall) -> (r: DispatchOutcome)
    requires
        old(f).wf(),
    ensures
        final(f).wf(),
        match call {
            FunctionCall::GetAllFiles {} => {
                &&& *final(f) == *old(f)
                &&& r matches DispatchOutcome::Reply(
                    FunctionResult::Success(FunctionReturnData::GetAllFiles(files)),
                ) && files.deep_view() == old(f).paths()
            },
            FunctionCall::WriteFile(args) => {
                &&& final(f)@ == old(f)@.insert(args.path@, args.content@)
                &&& r matches DispatchOutcome::Reply(
                    FunctionResult::Success(FunctionReturnData::WriteFile(prior)),
                ) && (match prior {
                    Some(p) => old(f)@.contains_key(args.path@) && p@ == old(f)@[args.path@],
                    None => !old(f)@.contains_key(args.path@),
                })
            },
            FunctionCall::ReadFile(args) => {
                &&& *final(f) == *old(f)
                &&& r matches DispatchOutcome::Reply(
                    FunctionResult::Success(FunctionReturnData::ReadFile(content)),
                ) && (match content {
                    Some(c) => old(f)@.contains_key(args.path@) && c@ == old(f)@[args.path@],
                    None => !old(f)@.contains_key(args.path@),
                })
            },
            FunctionCall::DeleteFile(args) => {
                if old(f)@.contains_key(args.path@) {
                    &&& final(f)@ == old(f)@.remove(args.path@)
                    &&& r matches DispatchOutcome::Reply(
                        FunctionResult::Success(FunctionReturnData::Null),
                    )
                } else {
                    &&& *final(f) == *old(f)
                    &&& r matches DispatchOutcome::Reply(FunctionResult::Error(msg)) && msg@
                        == Error::NotFound.message_spec()
                }
            },
            FunctionCall::ModifyFile(args) => {
                if old(f)@.contains_key(args.path@) && args_valid(args) {
                    &&& r matches DispatchOutcome::Reply(
                        FunctionResult::Success(FunctionReturnData::ModifyFile(res)),
                    ) && res.old_contents@ == old(f)@[args.path@] && res.new_contents@
                        == modified_content(old(f)@[args.path@], modification_of(args))
                        && final(f)@ == old(f)@.insert(args.path@, res.new_contents@)
                } else {
                    &&& *final(f) == *old(f)
                    &&& r matches DispatchOutcome::Reply(FunctionResult::Error(msg)) && msg@ == (
                    if !old(f)@.contains_key(args.path@) {
                        Error::NotFound.message_spec()
                    } else {
                        Error::MissingParameter.message_spec()
                    })
                }
            },
            FunctionCall::MoveFile(args) => {
                if old(f)@.contains_key(args.source_path@) && !old(f)@.contains_key(
                    args.destination_path@,
                ) {
                    &&& final(f)@ == old(f)@.remove(args.source_path@).insert(
                        args.destination_path@,
                        old(f)@[args.source_path@],
                    )
                    &&& r matches DispatchOutcome::Reply(
                        FunctionResult::Success(FunctionReturnData::Null),
                    )
                } else {
                    &&& *final(f) == *old(f)
                    &&& r matches DispatchOutcome::Reply(FunctionResult::Error(msg)) && msg@ == (
                    if !old(f)@.contains_key(args.source_path@) {
                        Error::NotFound.message_spec()
                    } else {
                        Error::AlreadyExists.message_spec()
                    })
                }
            },
            FunctionCall::PrintMessage { message } => {
                &&& *final(f) == *old(f)
                &&& r matches DispatchOutcome::Terminate { message: m } && m == message
            },
        },
{
    match call {
        FunctionCall::GetAllFiles {} => DispatchOutcome::Reply(
            FunctionResult::Success(FunctionReturnData::GetAllFiles(f.get_all_files())),
        ),
        FunctionCall::WriteFile(args) => match f.write_file(args) {
            Ok(prior) => DispatchOutcome::Reply(
                FunctionResult::Success(FunctionReturnData::WriteFile(prior)),
            ),
            Err(e) => DispatchOutcome::Reply(FunctionResult::Error(e.message())),
        },
        FunctionCall::ReadFile(args) => DispatchOutcome::Reply(
            FunctionResult::Success(FunctionReturnData::ReadFile(f.read_file(args))),
        ),
        FunctionCall::DeleteFile(args) => match f.delete_file(args) {
            Ok(()) => DispatchOutcome::Reply(
                FunctionResult::Success(FunctionReturnData::Null),
            ),
            Err(e) => DispatchOutcome::Reply(FunctionResult::Error(e.message())),
        },
        FunctionCall::ModifyFile(args) => match f.modify_file(args) {
            Ok(res) => DispatchOutcome::Reply(
                FunctionResult::Success(FunctionReturnData::ModifyFile(res)),
            ),
            Err(e) => DispatchOutcome::Reply(FunctionResult::Error(e.message())),
        },
        FunctionCall::MoveFile(args) => match f.move_file(args) {
            Ok(()) => DispatchOutcome::Reply(
                FunctionResult::Success(FunctionReturnData::Null),
            ),
            Err(e) => DispatchOutcome::Reply(FunctionResult::Error(e.message())),
        },
        FunctionCall::PrintMessage { message } => DispatchOutcome::Terminate { message },
    }
}

} // verus!
