//! How the servers of the control end.
use crate::text::{append, copy};
use vstd::prelude::*;

verus! {

/// What is said of a server that ended: its task did not finish, or it stopped with an error.
pub open spec fn server_problem(name: Seq<char>, result: Result<Result<(), String>, String>) -> Option<
    Seq<char>,
> {
    match result {
        Err(cause) => Some(name + " server task failed: "@ + cause@),
        Ok(Err(cause)) => Some(name + " server stopped with an error: "@ + cause@),
        Ok(Ok(_)) => None,
    }
}

/// How a server ended.
pub fn join_server_result(name: &str, result: Result<Result<(), String>, String>) -> (r: Result<
    (),
    String,
>)
    ensures
        match r {
            Ok(_) => server_problem(name@, result) is None,
            Err(message) => server_problem(name@, result) == Some(message@),
        },
{
    let mut message = copy(name);
    match result {
        Err(cause) => {
            append(&mut message, " server task failed: ");
            append(&mut message, cause.as_str());
            Err(message)
        },
        Ok(Err(cause)) => {
            append(&mut message, " server stopped with an error: ");
            append(&mut message, cause.as_str());
            Err(message)
        },
        Ok(Ok(_)) => Ok(()),
    }
}

/// Whether the control may end: it was told to, or a server ended and that was not expected.
pub fn check_end(first: Option<Result<(), String>>) -> (r: Result<(), String>)
    ensures
        match r {
            Ok(_) => first is None,
            Err(message) => match first {
                Some(Err(cause)) => message@ == cause@,
                Some(Ok(_)) => message@ == "server stopped unexpectedly"@,
                None => false,
            },
        },
{
    match first {
        None => Ok(()),
        Some(Ok(_)) => Err(copy("server stopped unexpectedly")),
        Some(Err(cause)) => Err(cause),
    }
}

} // verus!
