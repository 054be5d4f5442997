//! The deferred signal channel: an unbounded, ordered queue of palette-switch
//! requests. A transition emits into it at a precise point of its playback;
//! the frame loop drains it, so the animation engine itself never mutates
//! shared state.

use vstd::prelude::*;

verus! {

/// A request carried through the deferred signal channel.
#[derive(Clone, Copy, PartialEq, Eq, Structural, Debug)]
pub enum Signal {
    PaletteSwitch,
}

/// Single-producer/single-consumer first-in-first-out queue of signals.
pub struct SignalQueue {
    items: Vec<Signal>,
}

impl View for SignalQueue {
    type V = Seq<Signal>;

    closed spec fn view(&self) -> Seq<Signal> {
        self.items@
    }
}

impl SignalQueue {
    /// Builds an empty queue.
    pub fn new() -> (q: SignalQueue)
        ensures
            q@ == Seq::<Signal>::empty(),
    {
        SignalQueue { items: Vec::new() }
    }

    /// Enqueues one signal at the back.
    pub fn send(&mut self, s: Signal)
        ensures
            final(self)@ == old(self)@.push(s),
    {
        self.items.push(s);
    }

    /// Non-blocking receive: removes and returns the oldest signal, or
    /// returns `None` at once when the queue is empty.
    pub fn try_recv(&mut self) -> (r: Option<Signal>)
        ensures
            old(self)@.len() == 0 ==> r is None && final(self)@ == old(self)@,
            old(self)@.len() > 0 ==> r == Some(old(self)@[0]) && final(self)@ == old(self)@.skip(1),
    {
        if self.items.len() == 0 {
            None
        } else {
            let s = self.items.remove(0);
            proof {
                assert(self.items@ =~= old(self)@.skip(1));
            }
            Some(s)
        }
    }

    /// Whether any signal is waiting.
    pub fn is_empty(&self) -> (r: bool)
        ensures
            r <==> self@.len() == 0,
    {
        self.items.len() == 0
    }
}

} // verus!
