//! The command line, as plain values.
use vstd::prelude::*;

verus! {

/// What the tool is asked to do.
#[derive(Debug, Clone, PartialEq, Eq)]
pub enum Commands {
    /// Dump the credentials held in a QR image.
    QrDump {
        /// The image file.
        path: String,
        /// Print every field of each credential.
        debug: bool,
        /// Print URLs.
        url: bool,
    },
}

/// The parsed command line.
#[derive(Debug, Clone, PartialEq, Eq)]
pub struct Args {
    pub command: Commands,
}

/// The command line for `command`.
pub fn args(command: Commands) -> (r: Args)
    ensures
        r.command == command,
{
    Args { command }
}

} // verus!
