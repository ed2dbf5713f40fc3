//! The command-line surface's value types: which derived output is asked
//! for, and where the input comes from. The argument parsing and the I/O
//! themselves live with the binary; these types carry its decisions.
use vstd::prelude::*;

verus! {

/// The work one invocation asks for.
#[derive(Clone, Copy, Debug, PartialEq, Eq, Structural)]
pub enum Commands {
    /// Print the parameters document.
    Parameters,
    /// Print the scale document.
    Variant,
    /// Print the properties document.
    Properties,
    /// Print the bill of materials.
    Bom,
    /// Print the total required material length.
    Requirements,
}

/// One invocation: the command, and the input file when the input is not
/// the standard stream.
#[derive(Debug)]
pub struct Args {
    pub command: Commands,
    pub filename: Option<String>,
}

/// A client bound to one invocation's arguments.
#[derive(Debug)]
pub struct Client {
    pub args: Args,
}

impl Client {
    /// A client for the given invocation.
    pub fn new(args: Args) -> (r: Client)
        ensures
            r.args == args,
    {
        Client { args }
    }

    /// The command this client was invoked with.
    pub fn command(&self) -> (c: Commands)
        ensures
            c == self.args.command,
    {
        self.args.command
    }
}

} // verus!
