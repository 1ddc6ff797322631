//! Contains the definition of the command line interface for settings extensions.
use vstd::prelude::*;

pub mod proto1;

verus! {

/// Provides a CLI interface to the settings extension.
#[derive(Debug)]
pub struct Cli {
    /// The settings CLI protocol to use.
    pub protocol: Protocol,
}

/// The CLI protocol to use when invoking the extension.
#[derive(Debug)]
pub enum Protocol {
    /// Settings extension protocol 1
    Proto1(proto1::Protocol1),
}

impl Protocol {
    /// The name of the protocol, as it is given on the command line.
    pub fn name(&self) -> (r: &'static str)
        ensures
            r@ == "proto1"@,
    {
        match self {
            Protocol::Proto1(_) => "proto1",
        }
    }
}

} // verus!
