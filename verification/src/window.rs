//! The lag window of the scan: a bounded first-in, first-out queue that holds
//! the most recent blocks, as many as the maturity offset.

use crate::chain::{facts_of, Block, BlockFacts};
use std::collections::VecDeque;
use vstd::prelude::*;

verus! {

/// The smaller of two numbers.
pub open spec fn least(a: nat, b: nat) -> nat {
    if a <= b {
        a
    } else {
        b
    }
}

/// The last `count` items of a sequence, or all of it where it is shorter.
pub open spec fn tail<A>(items: Seq<A>, count: nat) -> Seq<A> {
    items.skip(items.len() - least(count, items.len()))
}

/// A bounded queue of the most recent blocks.
pub struct Window {
    capacity: usize,
    blocks: VecDeque<Block>,
    seen: Ghost<nat>,
}

impl View for Window {
    type V = Seq<BlockFacts>;

    /// The blocks in the window, oldest first.
    closed spec fn view(&self) -> Seq<BlockFacts> {
        facts_of(self.blocks@)
    }
}

impl Window {
    /// The most blocks that the window holds.
    pub closed spec fn capacity(&self) -> nat {
        self.capacity as nat
    }

    /// How many blocks have been pushed since the window was made.
    pub closed spec fn seen(&self) -> nat {
        self.seen@
    }

    /// The window holds `min(capacity, seen)` blocks, and its capacity is not zero.
    pub closed spec fn well_formed(&self) -> bool {
        &&& self.capacity > 0
        &&& self.blocks@.len() == least(self.capacity as nat, self.seen@)
    }

    /// The length of a window is the smaller of its capacity and the number
    /// of blocks seen, and so never exceeds the capacity.
    pub proof fn law_length(&self)
        requires
            self.well_formed(),
        ensures
            self@.len() == least(self.capacity(), self.seen()),
            self@.len() <= self.capacity(),
            self.capacity() > 0,
    {
    }

    /// An empty window, or `None` where the capacity is zero.
    pub fn new(capacity: usize) -> (made: Option<Window>)
        ensures
            capacity == 0 <==> made is None,
            made matches Some(window) ==> {
                &&& window.well_formed()
                &&& window.capacity() == capacity
                &&& window.seen() == 0
                &&& window@ == Seq::<BlockFacts>::empty()
            },
    {
        if capacity == 0 {
            None
        } else {
            let window = Window { capacity, blocks: VecDeque::new(), seen: Ghost(0) };
            Some(window)
        }
    }

    /// The number of blocks in the window.
    pub fn len(&self) -> (count: usize)
        ensures
            count == self@.len(),
    {
        self.blocks.len()
    }

    /// Whether the window holds as many blocks as it can.
    pub fn is_full(&self) -> (full: bool)
        requires
            self.well_formed(),
        ensures
            full == (self@.len() == self.capacity()),
            full == (self.seen() >= self.capacity()),
    {
        self.blocks.len() == self.capacity
    }

    /// The oldest block in the window.
    pub fn front(&self) -> (oldest: Option<&Block>)
        ensures
            match oldest {
                Some(block) => self@.len() > 0 && block@ == self@[0],
                None => self@.len() == 0,
            },
    {
        if self.blocks.len() == 0 {
            None
        } else {
            Some(&self.blocks[0])
        }
    }

    /// The oldest block of a window that is not empty.
    pub fn oldest(&self) -> (oldest: &Block)
        requires
            self@.len() > 0,
        ensures
            oldest@ == self@[0],
    {
        &self.blocks[0]
    }

    /// Pushes a block onto the back. A full window first gives up its oldest
    /// block, which is returned.
    pub fn push(&mut self, block: Block) -> (evicted: Option<Block>)
        requires
            old(self).well_formed(),
        ensures
            final(self).well_formed(),
            final(self).capacity() == old(self).capacity(),
            final(self).seen() == old(self).seen() + 1,
            final(self)@ == tail(old(self)@.push(block@), old(self).capacity()),
            match evicted {
                Some(oldest) => old(self)@.len() == old(self).capacity() && oldest@ == old(
                    self,
                )@[0],
                None => old(self)@.len() < old(self).capacity(),
            },
    {
        let evicted = if self.blocks.len() == self.capacity {
            self.blocks.pop_front()
        } else {
            None
        };
        self.blocks.push_back(block);
        self.seen = Ghost((self.seen@ + 1) as nat);
        evicted
    }
}

} // verus!
