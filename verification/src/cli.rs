//! The command line's shape: the three subcommands and the registration
//! defaults.
use vstd::prelude::*;

verus! {

/// The registration's default identifier.
pub fn default_extension_id() -> (r: String) {
    String::from_str("goostr")
}

/// The registration's default name.
pub fn default_extension_name() -> (r: String) {
    String::from_str("Goostr")
}

/// The registration's default display name.
pub fn default_display_name() -> (r: String) {
    String::from_str("Goostr")
}

/// The registration's default description.
pub fn default_description() -> (r: String) {
    String::from_str("Connect Goose to the Nostr network")
}

/// The registration's default timeout in seconds.
pub fn default_timeout_secs() -> (r: u64)
    ensures
        r == 300u64,
{
    300
}

/// The subcommands.
pub enum Command {
    /// Run the tool server on standard streams.
    Start,
    /// Write the registration into the host agent's configuration.
    Install {
        id: String,
        name: String,
        display_name: String,
        description: String,
        cmd: Option<String>,
        enabled: bool,
        timeout: u64,
        bundled: bool,
        available_tools: Vec<String>,
        args: Vec<String>,
        env: Vec<String>,
        env_keys: Vec<String>,
    },
    /// Remove the registration.
    Uninstall { id: String },
}

/// The parsed command line.
pub struct Cli {
    pub command: Option<Command>,
}

} // verus!
