use vstd::prelude::*;

pub mod tags;

verus! {

/// One event of a depth-first post-order walk: a leaf, or a branch that
/// closes the `child_count` subtrees just before it.
#[derive(Debug, Copy, Clone, PartialEq, Eq, Structural)]
pub enum DfsPostorderEvent<T> {
    /// A leaf node
    Leaf { tag: T },
    /// A branch node
    Branch { tag: T, child_count: usize },
}

/// The payloads of the leaves of an event stream, one arena per payload
/// type, in the order the leaves were emitted.
#[derive(Debug)]
pub struct EventGenerationContext {
    pub u32: Vec<u32>,
    pub strings: Vec<String>,
}

impl EventGenerationContext {
    /// A context with empty arenas.
    pub fn new() -> (r: EventGenerationContext)
        ensures
            r.u32@.len() == 0,
            r.strings@.len() == 0,
    {
        EventGenerationContext { u32: Vec::new(), strings: Vec::new() }
    }
}

} // verus!
