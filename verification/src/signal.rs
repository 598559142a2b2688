//! The stop request's one failure: the handler could not be installed.
//!
//! The flag itself and the handler that sets it are the process's; this is
//! what a failure to install reads as.
use vstd::prelude::*;
use vstd::string::StringExecFns;

use crate::text::{decimal, push_decimal};

verus! {

/// The handler could not be installed.
#[derive(Debug, Clone, Copy, PartialEq, Eq)]
pub struct SignalError {
    /// The call, by its platform name.
    pub call: &'static str,
    /// `GetLastError()` on Windows, `errno` on POSIX.
    pub code: u32,
}

/// What a failed install reads as.
pub open spec fn signal_error_text(call: Seq<char>, code: u32) -> Seq<char> {
    call + " failed with code "@ + decimal(code as nat)
}

impl SignalError {
    /// The failure as the log prints it.
    pub fn to_string(&self) -> (res: String)
        ensures
            res@ == signal_error_text(self.call@, self.code),
    {
        let mut s = String::from_str(self.call);
        s.append(" failed with code ");
        push_decimal(&mut s, self.code as u64);
        s
    }
}

} // verus!
