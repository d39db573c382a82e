//! The bounded log of recent proxied requests, and the switches the proxy
//! reads on every request.

use vstd::prelude::*;
use std::collections::VecDeque;

use crate::events::TrafficRecord;
use crate::seqs::{first_where, lemma_first_where_at, lemma_first_where_none};
use crate::text::copy_opt;

verus! {

/// A bounded log of traffic records; the oldest record leaves when a new one
/// arrives at capacity.
pub struct TrafficBuffer {
    entries: VecDeque<TrafficRecord>,
    capacity: usize,
}

/// One line of the traffic list: a record without its headers.
#[derive(Debug, Clone)]
pub struct TrafficSummary {
    pub id: u64,
    pub timestamp: String,
    pub method: String,
    pub url: String,
    pub status: u16,
    pub duration_ms: u64,
    pub rule_id: Option<String>,
}

/// The log after `e` arrives: at capacity (and not empty) the oldest record
/// leaves first, then `e` is appended.
pub open spec fn pushed(entries: Seq<TrafficRecord>, capacity: nat, e: TrafficRecord) -> Seq<TrafficRecord> {
    if entries.len() >= capacity && entries.len() > 0 {
        entries.drop_first().push(e)
    } else {
        entries.push(e)
    }
}

/// The summary of a record: the same fields, without the headers.
pub open spec fn summarizes(s: TrafficSummary, r: TrafficRecord) -> bool {
    &&& s.id == r.id
    &&& s.timestamp == r.timestamp
    &&& s.method == r.method
    &&& s.url == r.url
    &&& s.status == r.status
    &&& s.duration_ms == r.duration_ms
    &&& s.rule_id == r.rule_id
}

/// The record has the id `id`.
pub open spec fn record_has_id(id: u64) -> spec_fn(TrafficRecord) -> bool {
    |r: TrafficRecord| r.id == id
}

impl TrafficBuffer {
    /// The records held, oldest first.
    pub closed spec fn records(&self) -> Seq<TrafficRecord> {
        self.entries@
    }

    /// The capacity the buffer was made with.
    pub closed spec fn cap(&self) -> nat {
        self.capacity as nat
    }

    /// The buffer never holds more than its capacity (or one record, when the
    /// capacity is zero).
    pub open spec fn wf(&self) -> bool {
        self.records().len() <= self.cap() || self.records().len() <= 1
    }

    /// An empty buffer with the given capacity.
    pub fn new(capacity: usize) -> (b: TrafficBuffer)
        ensures
            b.records().len() == 0,
            b.cap() == capacity,
            b.wf(),
    {
        TrafficBuffer { entries: VecDeque::with_capacity(capacity), capacity }
    }

    /// Appends a record, first dropping the oldest one when the buffer is full.
    pub fn push(&mut self, entry: TrafficRecord)
        ensures
            final(self).records() == pushed(old(self).records(), old(self).cap(), entry),
            final(self).cap() == old(self).cap(),
            old(self).wf() ==> final(self).wf(),
    {
        if self.entries.len() >= self.capacity {
            let _ = self.entries.pop_front();
        }
        self.entries.push_back(entry);
        proof {
            assert(old(self).records().subrange(1, old(self).records().len() as int)
                =~= old(self).records().drop_first());
        }
    }

    /// The summaries of the records, newest first.
    pub fn list(&self) -> (v: Vec<TrafficSummary>)
        ensures
            v@.len() == self.records().len(),
            forall|i: int| 0 <= i < v@.len()
                ==> summarizes(#[trigger] v@[i], self.records()[self.records().len() - 1 - i]),
    {
        let n = self.entries.len();
        let mut v: Vec<TrafficSummary> = Vec::new();
        let mut k: usize = 0;
        while k < n
            invariant
                n == self.entries@.len(),
                k <= n,
                v@.len() == k,
                forall|i: int| 0 <= i < k ==> summarizes(#[trigger] v@[i], self.entries@[n - 1 - i]),
            decreases n - k,
        {
            let e = &self.entries[n - 1 - k];
            v.push(TrafficSummary {
                id: e.id,
                timestamp: e.timestamp.clone(),
                method: e.method.clone(),
                url: e.url.clone(),
                status: e.status,
                duration_ms: e.duration_ms,
                rule_id: copy_opt(&e.rule_id),
            });
            k = k + 1;
        }
        v
    }

    /// The oldest record with the id `id`, if any.
    pub fn get(&self, id: u64) -> (r: Option<&TrafficRecord>)
        ensures
            match first_where(self.records(), record_has_id(id)) {
                Some(i) => r matches Some(e) && *e == self.records()[i],
                None => r is None,
            },
    {
        let n = self.entries.len();
        let mut i: usize = 0;
        while i < n
            invariant
                n == self.entries@.len(),
                i <= n,
                forall|j: int| 0 <= j < i ==> !record_has_id(id)(#[trigger] self.entries@[j]),
            decreases n - i,
        {
            if self.entries[i].id == id {
                proof {
                    lemma_first_where_at(self.entries@, record_has_id(id), i as int);
                }
                return Some(&self.entries[i]);
            }
            i = i + 1;
        }
        proof {
            lemma_first_where_none(self.entries@, record_has_id(id));
        }
        None
    }

    /// Removes every record.
    pub fn clear(&mut self)
        ensures
            final(self).records().len() == 0,
            final(self).cap() == old(self).cap(),
            final(self).wf(),
    {
        self.entries.clear();
    }
}

/// With a capacity of at least one, the buffer keeps the newest records: a
/// push onto a buffer within capacity gives the last `capacity` records of
/// the old ones followed by the new one.
pub proof fn lemma_push_keeps_newest(entries: Seq<TrafficRecord>, capacity: nat, e: TrafficRecord)
    requires
        capacity >= 1,
        entries.len() <= capacity,
    ensures
        pushed(entries, capacity, e).len() <= capacity,
        pushed(entries, capacity, e).last() == e,
        pushed(entries, capacity, e) == entries.push(e).skip(
            if entries.len() + 1 > capacity { entries.len() + 1 - capacity } else { 0 },
        ),
{
    if entries.len() >= capacity && entries.len() > 0 {
        assert(entries.drop_first().push(e) =~= entries.push(e).skip(1));
    } else {
        assert(entries.push(e) =~= entries.push(e).skip(0));
    }
}

/// The switches and counter the proxy reads on every request: whether traffic
/// is captured, and the id the next captured request gets.
pub struct CaptureState {
    pub capture_enabled: bool,
    pub next_request_id: u64,
}

impl CaptureState {
    /// Capture off; the first request id is 1.
    pub fn new() -> (s: CaptureState)
        ensures
            !s.capture_enabled,
            s.next_request_id == 1,
    {
        CaptureState { capture_enabled: false, next_request_id: 1 }
    }

    /// Whether traffic is captured.
    pub fn is_capture_enabled(&self) -> (b: bool)
        ensures
            b == self.capture_enabled,
    {
        self.capture_enabled
    }

    /// Turns capture on or off.
    pub fn set_capture_enabled(&mut self, enabled: bool)
        ensures
            final(self).capture_enabled == enabled,
            final(self).next_request_id == old(self).next_request_id,
    {
        self.capture_enabled = enabled;
    }

    /// Hands out the next request id; ids count up by one, wrapping around
    /// after the largest `u64`.
    pub fn next_id(&mut self) -> (id: u64)
        ensures
            id == old(self).next_request_id,
            final(self).next_request_id == (if id == u64::MAX { 0 } else { id + 1 }),
            final(self).capture_enabled == old(self).capture_enabled,
    {
        let id = self.next_request_id;
        self.next_request_id = id.wrapping_add(1);
        id
    }
}

/// A captured request whose response has not arrived yet.
#[derive(Debug, Clone)]
pub struct PendingTraffic {
    pub id: u64,
    pub timestamp: String,
    pub method: String,
    pub url: String,
    pub rule_id: Option<String>,
    pub request_headers: Vec<(String, String)>,
}

impl PendingTraffic {
    /// The record of the request once its response arrived.
    pub fn finish(self, status: u16, duration_ms: u64, response_headers: Vec<(String, String)>)
        -> (r: TrafficRecord)
        ensures
            r == (TrafficRecord {
                id: self.id,
                timestamp: self.timestamp,
                method: self.method,
                url: self.url,
                status,
                duration_ms,
                rule_id: self.rule_id,
                request_headers: self.request_headers,
                response_headers,
            }),
    {
        TrafficRecord {
            id: self.id,
            timestamp: self.timestamp,
            method: self.method,
            url: self.url,
            status,
            duration_ms,
            rule_id: self.rule_id,
            request_headers: self.request_headers,
            response_headers,
        }
    }
}

} // verus!
