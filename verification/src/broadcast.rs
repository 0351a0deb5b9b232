//! Where messages for the Telegram chat go.

use crate::config::Config;
use vstd::prelude::*;
use vstd::string::StringExecFns;

verus! {

/// The address that takes messages for the bot with the given token.
pub open spec fn send_message_address(bot_token: Seq<char>) -> Seq<char> {
    "https://api.telegram.org/bot"@ + bot_token + "/sendMessage"@
}

/// The address to post a message to, for the configured bot.
pub fn send_message_url(config: &Config) -> (url: String)
    ensures
        url@ == send_message_address(config.bot_token@),
{
    let mut url = "https://api.telegram.org/bot".to_owned();
    url.append(config.bot_token.as_str());
    url.append("/sendMessage");
    url
}

} // verus!
