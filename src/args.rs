//! The command line: the name of the interface to serve.

use vstd::prelude::*;
use vstd::string::*;

verus! {

/// The program's arguments.
#[derive(Debug, Clone, PartialEq, Eq)]
pub struct Args {
    /// The interface's name, which also names its configuration file.
    pub iface: String,
}

impl Args {
    /// The path of the interface's configuration file.
    pub fn config_path(&self) -> (r: String)
        ensures
            r@ == "/etc/wireguard/"@ + self.iface@ + ".conf"@,
    {
        String::from_str("/etc/wireguard/").concat(self.iface.as_str()).concat(".conf")
    }
}

} // verus!
