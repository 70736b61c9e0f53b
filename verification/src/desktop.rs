//! The types the desktop shell's command bindings exchange with the
//! library: a request body, the shell's error kind, and the port the
//! embedded server was given. The bindings themselves are I/O and live
//! in the shell.

use vstd::prelude::*;

use crate::hash::decimal_string;
use crate::hash::spec_decimal;

verus! {

/// A request body handed to the shell's request command.
pub struct RequestBody {
    pub id: i32,
    pub name: String,
}

/// The error kind the shell's commands surface.
pub enum TerraphimTauriError {
    FooError,
}

/// The port the embedded server listens on.
pub struct Port(pub u16);

impl Port {
    /// The port rendered in decimal, as the shell reports it.
    pub fn text(&self) -> (s: String)
        ensures
            s@ == spec_decimal(self.0 as u64),
    {
        decimal_string(self.0 as u64)
    }
}

} // verus!
