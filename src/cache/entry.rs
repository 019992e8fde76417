use vstd::prelude::*;

verus! {

/// How a lookup ended. It decides the status class of the answer.
#[derive(Clone, Copy, Debug, PartialEq, Eq, Structural)]
pub enum Outcome {
    Success,
    Failure,
}

/// One cached answer: the text served, the instant (seconds since the
/// epoch) from which it is no longer fresh, and how the lookup ended.
/// It is never changed once built; a slot is refreshed by a new entry.
#[derive(Clone, Debug)]
pub struct CacheEntry {
    pub value: String,
    pub expires: u64,
    pub status: Outcome,
}

impl CacheEntry {
    /// An entry for a lookup that succeeded with `value`.
    pub fn ok(value: String, expires: u64) -> (r: CacheEntry)
        ensures
            r.value@ == value@,
            r.expires == expires,
            r.status == Outcome::Success,
    {
        CacheEntry { value, expires, status: Outcome::Success }
    }

    /// An entry for a lookup that failed, carrying the message `msg`.
    pub fn bad_request(msg: String, expires: u64) -> (r: CacheEntry)
        ensures
            r.value@ == msg@,
            r.expires == expires,
            r.status == Outcome::Failure,
    {
        CacheEntry { value: msg, expires, status: Outcome::Failure }
    }

    /// The HTTP status code of the answer: 200 for a success, 400 for a failure.
    pub fn status_code(&self) -> (r: u16)
        ensures
            r == status_code_of(self.status),
    {
        match self.status {
            Outcome::Success => 200,
            Outcome::Failure => 400,
        }
    }

    /// Whether the entry may still be served at instant `now`.
    pub fn is_fresh(&self, now: u64) -> (r: bool)
        ensures
            r == (now < self.expires),
    {
        now < self.expires
    }

    /// Seconds left until the entry expires at instant `now`, zero once it has.
    pub fn max_age(&self, now: u64) -> (r: u64)
        ensures
            r == (if now < self.expires { self.expires - now } else { 0 }),
    {
        if now < self.expires {
            self.expires - now
        } else {
            0
        }
    }

    /// A copy equal to `self` in every field.
    pub fn duplicate(&self) -> (r: CacheEntry)
        ensures
            r == *self,
    {
        CacheEntry { value: self.value.clone(), expires: self.expires, status: self.status }
    }
}

pub open spec fn status_code_of(o: Outcome) -> u16 {
    match o {
        Outcome::Success => 200,
        Outcome::Failure => 400,
    }
}

} // verus!
