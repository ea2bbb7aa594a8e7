use vstd::prelude::*;

verus! {

/// A topic of the guide.
#[derive(Clone, Copy, Debug, PartialEq, Eq, Structural)]
pub enum Topic {
    Agent,
    Bootstrap,
    Change,
    Memory,
    Loop,
}

} // verus!
