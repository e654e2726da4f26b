//! The failure kinds a command can end in, each with its fixed user-visible
//! description. Parsing failures never reach the network layer; remote and
//! delivery failures carry the underlying message for logging only.

use vstd::prelude::*;

verus! {

/// Why handling an inbound command failed.
#[derive(Debug)]
pub enum TaskMessageError {
    /// A transport, HTTP or deserialization problem on a remote call.
    RequestError(String),
    /// A reply could not be delivered to the chat gateway.
    DiscordError(String),
    /// The command had no argument text at all.
    NoCode,
    /// The argument text held no well-formed fenced code block.
    InvalidCodeFormat,
    /// The leading token named no known channel.
    InvalidRustChannel,
}

impl TaskMessageError {
    /// The fixed description shown to the user for this failure.
    pub open spec fn spec_message(self) -> Seq<char> {
        match self {
            TaskMessageError::RequestError(_) => "Http request error"@,
            TaskMessageError::DiscordError(_) => "Error while sending discord message"@,
            TaskMessageError::NoCode => "No code provided"@,
            TaskMessageError::InvalidCodeFormat => "No code provided"@,
            TaskMessageError::InvalidRustChannel => "Provided rust channel does not exist, please use Stable, Beta, or Nightly"@,
        }
    }

    pub fn message(&self) -> (r: String)
        ensures
            r@ == self.spec_message(),
    {
        match self {
            TaskMessageError::RequestError(_) => String::from_str("Http request error"),
            TaskMessageError::DiscordError(_) => String::from_str(
                "Error while sending discord message",
            ),
            TaskMessageError::NoCode => String::from_str("No code provided"),
            TaskMessageError::InvalidCodeFormat => String::from_str("No code provided"),
            TaskMessageError::InvalidRustChannel => String::from_str(
                "Provided rust channel does not exist, please use Stable, Beta, or Nightly",
            ),
        }
    }
}

} // verus!
