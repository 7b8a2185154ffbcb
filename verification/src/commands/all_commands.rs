//! The commands the bot offers.
use vstd::prelude::*;

verus! {

/// The commands the bot offers.
#[derive(Debug, Clone, Copy, PartialEq, Eq, Structural)]
pub enum AllCommands {
    /// Chat with the bot
    Chat,
    /// Generate an image
    Image,
}

} // verus!
