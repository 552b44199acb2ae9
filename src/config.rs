//! The bot's settings, as the configuration file gives them.
use vstd::prelude::*;
use vstd::string::*;

verus! {

/// A setting that is on unless the file turns it off.
pub fn default_true() -> (r: bool)
    ensures
        r,
{
    true
}

/// A setting that is off unless the file turns it on.
pub fn default_false() -> (r: bool)
    ensures
        !r,
{
    false
}

/// The prefix of text commands unless the file sets another.
pub fn default_cmd_prefix() -> (r: String)
    ensures
        r@ == "."@,
{
    String::from_str(".")
}

/// Core settings: the login token and the bot's name.
pub struct BotConfig {
    pub token: Option<String>,
    pub name: String,
}

impl BotConfig {
    /// The login token; the bot cannot run without one.
    pub fn get_token(&self) -> (r: &str)
        requires
            self.token is Some,
        ensures
            r@ == self.token->0@,
    {
        match &self.token {
            Some(t) => t.as_str(),
            None => "",
        }
    }
}

/// Settings of the commands.
pub struct CmdConfig {
    /// Whether to register the slash commands on startup.
    pub register_slash_cmds: bool,
    /// Whether to answer text commands.
    pub enable_prefix_cmds: bool,
    /// The prefix of text commands.
    pub cmd_prefix: String,
}

impl Default for CmdConfig {
    fn default() -> (r: Self)
        ensures
            r.register_slash_cmds,
            !r.enable_prefix_cmds,
            r.cmd_prefix@ == "."@,
    {
        CmdConfig {
            register_slash_cmds: default_true(),
            enable_prefix_cmds: default_false(),
            cmd_prefix: default_cmd_prefix(),
        }
    }
}

} // verus!
