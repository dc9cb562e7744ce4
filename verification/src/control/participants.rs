//! What is kept of the commands to the agents of a run.
use crate::control::error::{api_problem, internal, ApiError, ApiErrorView};
use crate::control::network::NodeReply;
use crate::text::{append, copy};
use vstd::prelude::*;

verus! {

/// What is said of a command to an agent that was not carried out.
pub open spec fn command_problem(agent: Seq<char>, phase: Seq<char>, reply: NodeReply) -> Option<
    ApiErrorView,
> {
    match reply {
        NodeReply::Accepted => None,
        NodeReply::Refused(error) => Some(internal(agent + " "@ + phase + " failed: "@ + error@)),
        NodeReply::Silent => Some(internal(agent + " "@ + phase + " timed out"@)),
    }
}

/// Whether an agent carried out the command of a phase.
pub fn check_command(agent: &str, phase: &str, reply: &NodeReply) -> (r: Result<(), ApiError>)
    ensures
        api_problem(r) == command_problem(agent@, phase@, *reply),
{
    let mut message = copy(agent);
    append(&mut message, " ");
    append(&mut message, phase);
    match reply {
        NodeReply::Accepted => Ok(()),
        NodeReply::Refused(error) => {
            append(&mut message, " failed: ");
            append(&mut message, error.as_str());
            Err(ApiError::internal(message.as_str()))
        },
        NodeReply::Silent => {
            append(&mut message, " timed out");
            Err(ApiError::internal(message.as_str()))
        },
    }
}

/// The phase that is kept of an agent after a command, and the error if there was one.
pub open spec fn kept_phase(phase: Seq<char>, problem: Option<ApiErrorView>) -> (
    Seq<char>,
    Option<Seq<char>>,
) {
    match problem {
        None => (phase + "_acked"@, None),
        Some(error) => (phase, Some(error.message)),
    }
}

/// The phase that is kept of an agent after a command, and the error if there was one.
pub fn phase_after(phase: &str, outcome: &Result<(), ApiError>) -> (r: (String, Option<String>))
    ensures
        kept_phase(phase@, api_problem(*outcome)) == (
            r.0@,
            match r.1 {
                Some(error) => Some(error@),
                None => None,
            },
        ),
{
    let mut text = copy(phase);
    match outcome {
        Ok(_) => {
            append(&mut text, "_acked");
            (text, None)
        },
        Err(error) => (text, Some(copy(error.message.as_str()))),
    }
}

} // verus!
