//! The latest-wins side of the telemetry path: a single-slot mailbox of the
//! most recently published snapshot.
//!
//! The receive loop that owns the socket lives outside the library; it hands
//! every batch of decoded snapshots to [`Manager::absorb`], and readers take
//! the freshest one with [`Manager::get_data`].

use crate::status::data::default_view;
use crate::status::data::StatusData;
use vstd::prelude::*;

verus! {

/// Holds the most recently published status snapshot.
#[derive(Debug)]
pub struct Manager {
    data: StatusData,
}

impl Manager {
    /// The cached snapshot: the latest published, or the default before any.
    pub closed spec fn spec_data(&self) -> StatusData {
        self.data
    }

    /// A manager that has seen no telemetry yet: every field at zero.
    pub fn new() -> (r: Self)
        ensures
            r.spec_data()@ == default_view(),
    {
        Manager { data: StatusData::default() }
    }

    /// Overwrite the mailbox with one newly arrived snapshot.
    pub fn publish(&mut self, s: StatusData)
        ensures
            final(self).spec_data() == s,
    {
        self.data = s;
    }

    /// Drain a batch of snapshots, oldest first: only the most recent one is
    /// kept; with an empty batch the cached snapshot stays.  Intermediate
    /// snapshots are legitimately dropped — latest wins.
    pub fn absorb(&mut self, batch: Vec<StatusData>)
        ensures
            final(self).spec_data() == if batch@.len() > 0 {
                batch@.last()
            } else {
                old(self).spec_data()
            },
    {
        let mut i: usize = 0;
        while i < batch.len()
            invariant
                i <= batch@.len(),
                self.spec_data() == if i > 0 {
                    batch@[i - 1]
                } else {
                    old(self).spec_data()
                },
            decreases batch@.len() - i,
        {
            self.data = batch[i].clone();
            i = i + 1;
        }
    }

    /// The freshest snapshot seen so far; never blocks, and repeats the
    /// cached snapshot when nothing new was published since the last call.
    pub fn get_data(&mut self) -> (r: StatusData)
        ensures
            *final(self) == *old(self),
            r == old(self).spec_data(),
    {
        self.data.clone()
    }
}

} // verus!
