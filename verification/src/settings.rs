//! What the environment says of a setting.

use vstd::prelude::*;

verus! {

/// A setting as the environment gives it.
#[derive(Clone, Copy, Debug)]
pub enum Setting<'a> {
    /// It is not set.
    Absent,
    /// It is set to a text.
    Text(&'a str),
    /// It is set to something that is no text. What can be shown of it is given,
    /// for an error to name.
    NotText(&'a str),
}

} // verus!
