//! Keyboard input-source detection. Only Apple's toolbox interface can name
//! the active source, and that foreign call lives with the front end; on
//! every other platform no source is detected.

use vstd::prelude::*;

verus! {

/// The active keyboard input source, when the platform can name one. This
/// build target cannot, so the result is always absent.
pub fn get_current_input_source() -> (r: Option<String>)
    ensures
        r is None,
{
    None
}

} // verus!
