use vstd::prelude::*;

verus! {

/// Says whether a buffer belongs to the value that holds it.
pub trait Ownership {
    /// `true` for a tag whose buffers are owned, `false` for one whose buffers are borrowed.
    spec fn owns() -> bool;
}

/// The tag of a buffer that is borrowed from an owner and never freed by its holder.
pub struct View;

/// The tag of a buffer that its holder owns, may grow, and frees when dropped.
pub struct Owning;

impl Ownership for View {
    open spec fn owns() -> bool {
        false
    }
}

impl Ownership for Owning {
    open spec fn owns() -> bool {
        true
    }
}

} // verus!
