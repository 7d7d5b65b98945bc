//! The text injector: whatever puts a final transcript into the focused
//! application.
use vstd::prelude::*;

verus! {

/// Puts text into the target application. A failure is reported to the
/// caller, which carries on regardless.
pub trait TextInjector {
    fn inject(&self, text: &str) -> Result<(), String>;
}

} // verus!
