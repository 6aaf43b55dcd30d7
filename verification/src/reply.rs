//! What a request is answered.
use vstd::prelude::*;

verus! {

/// How a request went.
#[derive(Debug, Clone, Copy, PartialEq, Eq, Structural)]
pub enum Status {
    Success,
    BadRequest,
    NotFound,
    Conflict,
    InternalServerError,
}

/// How a request went, and what there is to say.
#[derive(Debug)]
pub struct Reply {
    pub status: Status,
    pub message: String,
}

/// What a reply is: its text as a sequence of characters.
pub struct ReplyModel {
    pub status: Status,
    pub message: Seq<char>,
}

impl View for Reply {
    type V = ReplyModel;

    open spec fn view(&self) -> ReplyModel {
        ReplyModel { status: self.status, message: self.message@ }
    }
}

/// What is said, and then why.
pub open spec fn failed(status: Status, what: Seq<char>, error: Seq<char>) -> ReplyModel {
    ReplyModel { status, message: what + error }
}

/// Says what went wrong, and then why.
pub fn fail(status: Status, what: &str, error: &str) -> (reply: Reply)
    ensures
        reply@ == failed(status, what@, error@),
{
    let mut message = what.to_string();
    message.append(error);
    Reply { status, message }
}

/// What went wrong and why stand one behind the other.
pub proof fn law_failed(status: Status, what: Seq<char>, error: Seq<char>)
    ensures
        failed(status, what, error).status == status,
        failed(status, what, error).message == what + error,
{
}

/// The model of a reply tells all of it.
pub proof fn law_model(reply: Reply)
    ensures
        reply@.status == reply.status,
        reply@.message == reply.message@,
{
}

} // verus!
