//! A chat-bot core that relays fenced Rust snippets to the Rust playground
//! web service and shapes the results into bounded, readable replies.
//!
//! The verified library covers the logic of the bot: extracting a command
//! from free-form chat text, the immutable task model, framing the two
//! remote requests, cleaning and truncating compiler output, and composing
//! the final reply. The network and chat-gateway plumbing around it lives
//! outside the library.

pub mod allow;
pub mod errors;
pub mod extract;
pub mod playground;
pub mod reply;
pub mod text;
