//! The configuration of the relay.

use vstd::prelude::*;

verus! {

/// Holds the configuration for the application.
pub struct Config {
    /// The Telegram bot token.
    pub bot_token: String,
    /// The Telegram chat ID.
    pub chat_id: String,
}

} // verus!
