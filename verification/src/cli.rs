//! What the server is started with.

use vstd::prelude::*;
use vstd::string::StringExecFns;

verus! {

/// The options of the server: where it listens, and how hard its maze is.
#[derive(Clone, Debug)]
pub struct Cli {
    pub host: String,
    pub port: u16,
    pub difficulty: String,
}

/// Whether `name` is one of the difficulties on offer.
pub open spec fn is_difficulty_name(name: Seq<char>) -> bool {
    name == "easy"@ || name == "medium"@ || name == "hard"@
}

/// What is said of a difficulty that is not on offer.
pub open spec fn invalid_difficulty_message(name: Seq<char>) -> Seq<char> {
    "Invalid difficulty '"@ + name + "'. Valid options are: easy, medium, hard"@
}

impl Cli {
    /// Accepts the difficulties `easy`, `medium` and `hard`, and says of
    /// every other name that it is invalid.
    pub fn validate(&self) -> (r: Result<(), String>)
        ensures
            r is Ok <==> is_difficulty_name(self.difficulty@),
            r matches Err(message) ==> message@ == invalid_difficulty_message(self.difficulty@),
    {
        if self.difficulty == String::from_str("easy") || self.difficulty == String::from_str(
            "medium",
        ) || self.difficulty == String::from_str("hard") {
            Ok(())
        } else {
            let mut message = String::from_str("Invalid difficulty '");
            message.append(self.difficulty.as_str());
            message.append("'. Valid options are: easy, medium, hard");
            Err(message)
        }
    }
}

} // verus!
