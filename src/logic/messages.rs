//! A bounded log of narrative messages, each stamped with the turn it was
//! written in.
use vstd::prelude::*;

use std::collections::VecDeque;

verus! {

pub struct MessageLog {
    pub max_memory: usize,
    pub messages: VecDeque<(String, u64)>,
    pub curr_turn: u64,
}

/// The texts of `entries`.
pub open spec fn texts(entries: Seq<(String, u64)>) -> Seq<Seq<char>> {
    entries.map_values(|e: (String, u64)| e.0@)
}

impl MessageLog {
    pub open spec fn wf(&self) -> bool {
        &&& self.messages@.len() <= self.max_memory
        &&& forall|i: int| 0 <= i < self.messages@.len() ==> (#[trigger] self.messages@[i]).1 <= self.curr_turn
        &&& forall|i: int, j: int|
            #![trigger self.messages@[i], self.messages@[j]]
            0 <= i < j < self.messages@.len() ==> self.messages@[i].1 <= self.messages@[j].1
    }

    /// An empty log that keeps at most `max_memory` messages.
    pub fn new(max_memory: usize) -> (r: MessageLog)
        ensures
            r.wf(),
            r.max_memory == max_memory,
            r.messages@.len() == 0,
            r.curr_turn == 0,
    {
        MessageLog { max_memory, messages: VecDeque::with_capacity(max_memory), curr_turn: 0 }
    }

    /// Adds `msg`, stamped with the current turn, as the newest message; if
    /// that exceeds the capacity, the oldest message is dropped.
    pub fn append(&mut self, msg: String)
        requires
            old(self).wf(),
        ensures
            final(self).wf(),
            final(self).max_memory == old(self).max_memory,
            final(self).curr_turn == old(self).curr_turn,
            final(self).messages@ == if old(self).messages@.len() < old(self).max_memory {
                old(self).messages@.push((msg, old(self).curr_turn))
            } else {
                old(self).messages@.push((msg, old(self).curr_turn)).drop_first()
            },
    {
        let turn = self.curr_turn;
        self.messages.push_back((msg, turn));
        if self.messages.len() > self.max_memory {
            self.messages.pop_front();
        }
        proof {
            let pushed = old(self).messages@.push((msg, turn));
            assert forall|i: int| 0 <= i < self.messages@.len() implies (#[trigger] self.messages@[i]).1
                <= self.curr_turn by {
                if old(self).messages@.len() >= old(self).max_memory {
                    assert(self.messages@[i] == pushed[i + 1]);
                } else {
                    assert(self.messages@[i] == pushed[i]);
                }
            }
            assert forall|i: int, j: int|
                #![trigger self.messages@[i], self.messages@[j]]
                0 <= i < j < self.messages@.len() implies self.messages@[i].1 <= self.messages@[j].1 by {
                let d = if old(self).messages@.len() >= old(self).max_memory { 1int } else { 0int };
                assert(self.messages@[i] == pushed[i + d]);
                assert(self.messages@[j] == pushed[j + d]);
                if j + d < old(self).messages@.len() {
                    assert(pushed[i + d] == old(self).messages@[i + d]);
                    assert(pushed[j + d] == old(self).messages@[j + d]);
                } else {
                    assert(pushed[i + d] == old(self).messages@[i + d]);
                }
            }
        }
    }

    /// Starts a new turn: every message grows one turn older. The counter
    /// stops at `u64::MAX`.
    pub fn start_turn(&mut self)
        requires
            old(self).wf(),
        ensures
            final(self).wf(),
            final(self).max_memory == old(self).max_memory,
            final(self).messages@ == old(self).messages@,
            final(self).curr_turn == if old(self).curr_turn < u64::MAX {
                old(self).curr_turn + 1
            } else {
                old(self).curr_turn as int
            },
    {
        if self.curr_turn < u64::MAX {
            self.curr_turn = self.curr_turn + 1;
        }
    }

    /// The `count` most recent messages, oldest first, each with how many
    /// turns ago it was written.
    pub fn latest(&self, count: usize) -> (r: Vec<(String, u64)>)
        requires
            self.wf(),
        ensures
            r@.len() == if count < self.messages@.len() {
                count as int
            } else {
                self.messages@.len() as int
            },
            forall|i: int|
                0 <= i < r@.len() ==> {
                    let m = self.messages@[self.messages@.len() - r@.len() + i];
                    &&& (#[trigger] r@[i]).0 == m.0
                    &&& r@[i].1 == self.curr_turn - m.1
                },
            forall|i: int, j: int|
                #![trigger r@[i], r@[j]]
                0 <= i < j < r@.len() ==> r@[i].1 >= r@[j].1,
    {
        let len = self.messages.len();
        let start: usize = if count < len { len - count } else { 0 };
        let mut r: Vec<(String, u64)> = Vec::new();
        let mut i: usize = start;
        while i < len
            invariant
                self.wf(),
                len == self.messages@.len(),
                start <= i <= len,
                start == if count < len { len - count } else { 0 },
                r@.len() == i - start,
                forall|k: int|
                    0 <= k < r@.len() ==> {
                        let m = self.messages@[start + k];
                        &&& (#[trigger] r@[k]).0 == m.0
                        &&& r@[k].1 == self.curr_turn - m.1
                    },
            decreases len - i,
        {
            let entry = &self.messages[i];
            let text = entry.0.clone();
            let age = self.curr_turn - entry.1;
            r.push((text, age));
            i = i + 1;
        }
        proof {
            assert forall|a: int, b: int|
                #![trigger r@[a], r@[b]]
                0 <= a < b < r@.len() implies r@[a].1 >= r@[b].1 by {
                assert(self.messages@[start + a].1 <= self.messages@[start + b].1);
                assert(r@[a].1 == self.curr_turn - self.messages@[start + a].1);
                assert(r@[b].1 == self.curr_turn - self.messages@[start + b].1);
            }
        }
        r
    }

    /// The texts of up to `count` messages from the `start`-th oldest on.
    pub fn peek(&self, start: usize, count: usize) -> (r: Vec<String>)
        ensures
            r@.len() == if start >= self.messages@.len() {
                0
            } else if count < self.messages@.len() - start {
                count as int
            } else {
                self.messages@.len() - start
            },
            forall|i: int| 0 <= i < r@.len() ==> #[trigger] r@[i] == self.messages@[start + i].0,
    {
        let len = self.messages.len();
        let end: usize = if start >= len {
            start
        } else if count < len - start {
            start + count
        } else {
            len
        };
        let mut r: Vec<String> = Vec::new();
        let mut i: usize = start;
        while i < end
            invariant
                len == self.messages@.len(),
                start <= i <= end,
                end <= len || end == start,
                end == if start >= len {
                    start as int
                } else if count < len - start {
                    start + count
                } else {
                    len as int
                },
                r@.len() == i - start,
                forall|k: int| 0 <= k < r@.len() ==> #[trigger] r@[k] == self.messages@[start + k].0,
            decreases end - i,
        {
            r.push(self.messages[i].0.clone());
            i = i + 1;
        }
        r
    }

    pub fn len(&self) -> (r: usize)
        ensures
            r == self.messages@.len(),
    {
        self.messages.len()
    }
}

} // verus!
