//! Why a request to the control is refused.
use crate::json::{no_members, object_value, push_member, text_value, JsonValue, JsonView};
use crate::text::copy;
use vstd::prelude::*;

verus! {

/// Whose fault it is that a request was refused.
#[derive(Debug, Clone, Copy, PartialEq, Eq, Structural)]
pub enum ApiErrorKind {
    /// The request is wrong.
    BadRequest,
    /// The scenario in the request is not valid.
    InvalidScenario,
    /// What the request is about does not exist.
    NotFound,
    /// The request does not fit the current state.
    Conflict,
    /// Something failed here or on a node.
    Internal,
}

/// Why a request is refused.
#[derive(Debug, Clone, PartialEq, Eq)]
pub struct ApiError {
    pub kind: ApiErrorKind,
    pub message: String,
}

/// What an error says.
#[verifier::ext_equal]
pub struct ApiErrorView {
    pub kind: ApiErrorKind,
    pub message: Seq<char>,
}

impl View for ApiError {
    type V = ApiErrorView;

    open spec fn view(&self) -> ApiErrorView {
        ApiErrorView { kind: self.kind, message: self.message@ }
    }
}

/// An error of the request.
pub open spec fn bad(message: Seq<char>) -> ApiErrorView {
    ApiErrorView { kind: ApiErrorKind::BadRequest, message }
}

/// An error of the scenario in the request.
pub open spec fn invalid_scenario(message: Seq<char>) -> ApiErrorView {
    ApiErrorView { kind: ApiErrorKind::InvalidScenario, message }
}

/// An error for what does not exist.
pub open spec fn not_found(message: Seq<char>) -> ApiErrorView {
    ApiErrorView { kind: ApiErrorKind::NotFound, message }
}

/// An error for what does not fit the current state.
pub open spec fn conflict(message: Seq<char>) -> ApiErrorView {
    ApiErrorView { kind: ApiErrorKind::Conflict, message }
}

/// An error for what failed here or on a node.
pub open spec fn internal(message: Seq<char>) -> ApiErrorView {
    ApiErrorView { kind: ApiErrorKind::Internal, message }
}

/// What is told of an error, whatever language its message is in.
pub open spec fn error_code(kind: ApiErrorKind) -> Seq<char> {
    match kind {
        ApiErrorKind::BadRequest => "bad_request"@,
        ApiErrorKind::InvalidScenario => "invalid_scenario"@,
        ApiErrorKind::NotFound => "not_found"@,
        ApiErrorKind::Conflict => "conflict"@,
        ApiErrorKind::Internal => "internal"@,
    }
}

/// The body of the response to a request that is refused.
pub open spec fn error_json(error: ApiErrorView) -> JsonView {
    JsonView::Object(
        seq![
            ("code"@, JsonView::Text(error_code(error.kind))),
            ("message"@, JsonView::Text(error.message)),
        ],
    )
}

/// Errors of different kinds have different codes.
pub proof fn codes_tell_kinds_apart(a: ApiErrorKind, b: ApiErrorKind)
    requires
        error_code(a) == error_code(b),
    ensures
        a == b,
{
    reveal_strlit("bad_request");
    reveal_strlit("invalid_scenario");
    reveal_strlit("not_found");
    reveal_strlit("conflict");
    reveal_strlit("internal");
    assert(error_code(a).len() == error_code(b).len());
    assert(error_code(a)[0] == error_code(b)[0]);
    assert("bad_request"@.len() == 11);
    assert("invalid_scenario"@.len() == 16);
    assert("not_found"@.len() == 9);
    assert("conflict"@.len() == 8 && "conflict"@[0] == 'c');
    assert("internal"@.len() == 8 && "internal"@[0] == 'i');
}

impl ApiError {
    /// An error of the request.
    pub fn bad(message: &str) -> (r: ApiError)
        ensures
            r@ == bad(message@),
    {
        ApiError { kind: ApiErrorKind::BadRequest, message: copy(message) }
    }

    /// An error of the scenario in the request.
    pub fn invalid_scenario(message: &str) -> (r: ApiError)
        ensures
            r@ == invalid_scenario(message@),
    {
        ApiError { kind: ApiErrorKind::InvalidScenario, message: copy(message) }
    }

    /// An error for what does not exist.
    pub fn not_found(message: &str) -> (r: ApiError)
        ensures
            r@ == not_found(message@),
    {
        ApiError { kind: ApiErrorKind::NotFound, message: copy(message) }
    }

    /// An error for what does not fit the current state.
    pub fn conflict(message: &str) -> (r: ApiError)
        ensures
            r@ == conflict(message@),
    {
        ApiError { kind: ApiErrorKind::Conflict, message: copy(message) }
    }

    /// An error for what failed here or on a node.
    pub fn internal(message: &str) -> (r: ApiError)
        ensures
            r@ == internal(message@),
    {
        ApiError { kind: ApiErrorKind::Internal, message: copy(message) }
    }

    /// A copy of this error.
    pub fn duplicate(&self) -> (r: ApiError)
        ensures
            r@ == self@,
    {
        ApiError { kind: self.kind, message: copy(self.message.as_str()) }
    }

    /// The HTTP status of the response.
    pub fn status(&self) -> (r: u16)
        ensures
            r == (match self.kind {
                ApiErrorKind::BadRequest => 400int,
                ApiErrorKind::InvalidScenario => 400,
                ApiErrorKind::NotFound => 404,
                ApiErrorKind::Conflict => 409,
                ApiErrorKind::Internal => 500,
            }),
    {
        match self.kind {
            ApiErrorKind::BadRequest => 400,
            ApiErrorKind::InvalidScenario => 400,
            ApiErrorKind::NotFound => 404,
            ApiErrorKind::Conflict => 409,
            ApiErrorKind::Internal => 500,
        }
    }

    /// What is told of the error, whatever language its message is in.
    pub fn code(&self) -> (r: &'static str)
        ensures
            r@ == error_code(self.kind),
    {
        match self.kind {
            ApiErrorKind::BadRequest => "bad_request",
            ApiErrorKind::InvalidScenario => "invalid_scenario",
            ApiErrorKind::NotFound => "not_found",
            ApiErrorKind::Conflict => "conflict",
            ApiErrorKind::Internal => "internal",
        }
    }

    /// The body of the response.
    pub fn body(&self) -> (r: JsonValue)
        ensures
            r@ == error_json(self@),
    {
        let mut members = no_members();
        push_member(&mut members, "code", text_value(self.code()));
        push_member(&mut members, "message", text_value(self.message.as_str()));
        let r = object_value(members);
        assert(r@->Object_0 =~= error_json(self@)->Object_0);
        r
    }
}

/// What went wrong, if anything.
pub open spec fn api_problem<T>(outcome: Result<T, ApiError>) -> Option<ApiErrorView> {
    match outcome {
        Ok(_) => None,
        Err(error) => Some(error@),
    }
}

} // verus!
