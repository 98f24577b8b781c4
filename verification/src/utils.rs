//! Small helpers around the environment's configuration values.

use vstd::prelude::*;

verus! {

/// The editor to launch: `VISUAL` wins over `EDITOR`; none set means none.
/// The caller reads the two environment variables and hands them in.
pub fn get_editor(visual: Option<String>, editor: Option<String>) -> (r: Option<String>)
    ensures
        r == (match visual {
            Some(v) => Some(v),
            None => editor,
        }),
{
    match visual {
        Some(v) => Some(v),
        None => editor,
    }
}

} // verus!
