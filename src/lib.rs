//! Terminal chat client core: code-block highlighting of replies, the
//! waiting-indicator scheduler, and the conversation transcript.
pub mod animation;
pub mod fence;
pub mod grammar;
pub mod highlight;
pub mod render;
pub mod session;
pub mod text;
