use std::collections::VecDeque;
use vstd::prelude::*;

use crate::timestamp::Timestamp;

verus! {

/// A unit of requested work.
///
/// `telos_alignment` is the admission score in millionths (0.5 is 500_000);
/// `storage_path` is where the record file currently lives, if known.
#[derive(Debug)]
pub struct Intent {
    pub id: u128,
    pub source: String,
    pub summary: String,
    pub telos_alignment: i64,
    pub created_at: Timestamp,
    pub storage_path: Option<String>,
}

/// In-memory FIFO of intents waiting to be processed.
#[derive(Debug)]
pub struct IntentQueue {
    items: VecDeque<Intent>,
}

impl View for IntentQueue {
    type V = Seq<Intent>;

    closed spec fn view(&self) -> Seq<Intent> {
        self.items@
    }
}

impl IntentQueue {
    pub fn new() -> (r: IntentQueue)
        ensures
            r@ == Seq::<Intent>::empty(),
    {
        IntentQueue { items: VecDeque::new() }
    }

    /// Appends to the back.
    pub fn push(&mut self, intent: Intent)
        ensures
            final(self)@ == old(self)@.push(intent),
    {
        self.items.push_back(intent);
    }

    /// Inserts at the front, ahead of everything already queued.
    pub fn push_front(&mut self, intent: Intent)
        ensures
            final(self)@ == seq![intent] + old(self)@,
    {
        self.items.push_front(intent);
        assert(self.items@ =~= seq![intent] + old(self)@);
    }

    /// Removes and returns the front element.
    pub fn pop_next(&mut self) -> (r: Option<Intent>)
        ensures
            old(self)@.len() == 0 ==> r is None && final(self)@ == old(self)@,
            old(self)@.len() > 0 ==> r == Some(old(self)@[0]) && final(self)@ == old(self)@.drop_first(),
    {
        self.items.pop_front()
    }

    pub fn len(&self) -> (r: usize)
        ensures
            r == self@.len(),
    {
        self.items.len()
    }

    pub fn is_empty(&self) -> (r: bool)
        ensures
            r == (self@.len() == 0),
    {
        self.items.len() == 0
    }
}

} // verus!
