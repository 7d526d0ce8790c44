//! The table of active streams: stream id to per-stream handle.
//!
//! Both the proxy (id to browser-bound channel) and the exit multiplexer
//! (id to target-bound channel) keep one; its contracts are what the
//! multiplexing rules rest on: data for an unknown id is dropped, ending
//! a stream removes exactly that stream and leaves its siblings alone.

use vstd::prelude::*;
use std::collections::HashMap;

verus! {

broadcast use vstd::std_specs::hash::group_hash_axioms;

/// The table of active streams: a hash map keyed by stream id.
pub struct StreamTable<T> {
    entries: HashMap<u32, T>,
}

impl<T> StreamTable<T> {
    /// The table as the map it represents.
    pub closed spec fn view(&self) -> Map<u32, T> {
        self.entries@
    }

    /// An empty table.
    pub fn new() -> (r: Self)
        ensures
            r@ == Map::<u32, T>::empty(),
    {
        StreamTable { entries: HashMap::new() }
    }

    /// How many streams are active.
    pub fn len(&self) -> (n: usize)
        ensures
            n == self@.dom().len(),
    {
        self.entries.len()
    }

    /// Whether `id` has an active stream.
    pub fn contains(&self, id: u32) -> (b: bool)
        ensures
            b == self@.dom().contains(id),
    {
        self.entries.contains_key(&id)
    }

    /// Registers `id`, replacing any handle it already had (a begin for
    /// an id the table knows overwrites, as a map insert does).
    pub fn insert(&mut self, id: u32, v: T)
        ensures
            final(self)@ == old(self)@.insert(id, v),
    {
        let _ = self.entries.insert(id, v);
    }

    /// The handle of `id`, when it has one.
    pub fn get(&self, id: u32) -> (r: Option<&T>)
        ensures
            match r {
                Some(v) => self@.dom().contains(id) && *v == self@[id],
                None => !self@.dom().contains(id),
            },
    {
        self.entries.get(&id)
    }

    /// Ends the stream `id`: removes exactly it and hands its handle
    /// back; every other stream stays untouched.
    pub fn remove(&mut self, id: u32) -> (r: Option<T>)
        ensures
            final(self)@ == old(self)@.remove(id),
            match r {
                Some(v) => old(self)@.dom().contains(id) && v == old(self)@[id],
                None => !old(self)@.dom().contains(id) && final(self)@ == old(self)@,
            },
    {
        let r = self.entries.remove(&id);
        proof {
            if !old(self)@.dom().contains(id) {
                assert(old(self)@ =~= old(self)@.remove(id));
            }
        }
        r
    }
}

} // verus!
