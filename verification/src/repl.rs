//! What an interactive session shows for the outcome of one line.

use vstd::prelude::*;
use vstd::string::*;

verus! {

/// The line shown for an outcome: the text itself, or the message after the
/// word `Error`.
pub open spec fn shown(outcome: Result<Seq<char>, Seq<char>>) -> Seq<char> {
    match outcome {
        Ok(text) => text,
        Err(message) => "Error: "@ + message,
    }
}

/// The line to show for the outcome of evaluating one line of input.
pub fn reply(outcome: Result<String, String>) -> (line: String)
    ensures
        line@ == match outcome {
            Ok(text) => shown(Ok(text@)),
            Err(message) => shown(Err(message@)),
        },
{
    match outcome {
        Ok(text) => text,
        Err(message) => {
            let mut line = String::from_str("Error: ");
            line.append(message.as_str());
            line
        },
    }
}

} // verus!
