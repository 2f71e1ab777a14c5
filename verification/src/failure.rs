//! The error of the library: a message for the person who runs the build.
use vstd::prelude::*;
use vstd::string::*;

verus! {

/// Why an operation was refused.
#[derive(Debug, Clone)]
pub struct Failure {
    pub message: String,
}

/// The result of an operation, with each error given by its message.
pub open spec fn outcome<T>(r: Result<T, Failure>) -> Result<T, Seq<char>> {
    match r {
        Ok(v) => Ok(v),
        Err(e) => Err(e.message@),
    }
}

/// The result of an operation that gives a text.
pub open spec fn text_outcome(r: Result<String, Failure>) -> Result<Seq<char>, Seq<char>> {
    match r {
        Ok(v) => Ok(v@),
        Err(e) => Err(e.message@),
    }
}

/// The result of a check: the message of the error, where there is one.
pub open spec fn refusal(r: Result<(), Failure>) -> Option<Seq<char>> {
    match r {
        Ok(_) => None,
        Err(e) => Some(e.message@),
    }
}

/// The failure with this message.
pub fn failure(message: String) -> (r: Failure)
    ensures
        r.message@ == message@,
{
    Failure { message }
}

/// A failure is told by its message, and a success by its value.
pub proof fn law_outcomes<T>(
    a: Result<T, Failure>,
    b: Result<String, Failure>,
    c: Result<(), Failure>,
)
    ensures
        a matches Ok(v) ==> outcome(a) == Ok::<T, Seq<char>>(v),
        a matches Err(e) ==> outcome(a) == Err::<T, Seq<char>>(e.message@),
        b matches Ok(v) ==> text_outcome(b) == Ok::<Seq<char>, Seq<char>>(v@),
        b matches Err(e) ==> text_outcome(b) == Err::<Seq<char>, Seq<char>>(e.message@),
        c is Ok ==> refusal(c) is None,
        c matches Err(e) ==> refusal(c) == Some(e.message@),
{
}

} // verus!
