//! Process hardening entry points.

use vstd::prelude::*;

verus! {

/// Applies the process protections.  They exist on Windows only (restrictive
/// DACL, mitigation policies, hiding threads from debuggers); elsewhere there
/// is nothing to do.
pub fn apply_process_security() {
}

/// Hides the calling thread from debuggers.  Windows only; elsewhere there
/// is nothing to do.
pub fn hide_current_thread_from_debugger() {
}

} // verus!
