use crate::gfx_structs::mutator::GlyphTreeEventInstance;
use vstd::prelude::*;

verus! {

/// A tree node on a channel: mutators apply to the nodes on their own channel.
pub trait BranchChannel {
    fn channel(&self) -> usize;
}

/// A tree node that takes in events.
pub trait TreeEventConsumer {
    fn accept_event(&mut self, event: &GlyphTreeEventInstance);
}

/// A tree node with an empty ("void") form, used to pad trees to the same shape.
pub trait TreeNode: Sized {
    fn void() -> Self;
}

} // verus!
