use vstd::prelude::*;

use crate::clock::now_as_seconds;

verus! {

/// One message of a queue: its identity (`id`, `body`) and its delivery state.
#[derive(Debug, PartialEq, Eq)]
pub struct ValqMsg {
    /// Unique identifier within its queue, assigned at push time.
    pub id: u64,
    /// The payload; never interpreted.
    pub body: String,
    /// `None`: never delivered, always visible. `Some(t)`: invisible until `t`.
    pub timeout_at: Option<u64>,
    /// Number of completed deliveries.
    pub delivery_attempts: u64,
}

impl ValqMsg {
    /// Visible at `now`: no timeout, or a timeout that has passed.
    pub open spec fn visible_at(&self, now: u64) -> bool {
        match self.timeout_at {
            Some(t) => t <= now,
            None => true,
        }
    }

    /// Still deliverable under a limit of `max` attempts.
    pub open spec fn within_limit(&self, max: u64) -> bool {
        self.delivery_attempts < max
    }

    pub fn new(id: u64, body: String, timeout_at: Option<u64>, delivery_attempts: u64) -> (r: Self)
        ensures
            r.id == id,
            r.body == body,
            r.timeout_at == timeout_at,
            r.delivery_attempts == delivery_attempts,
    {
        ValqMsg { id, body, timeout_at, delivery_attempts }
    }

    pub fn id(&self) -> (r: &u64)
        ensures
            *r == self.id,
    {
        &self.id
    }

    pub fn body(&self) -> (r: &String)
        ensures
            *r == self.body,
    {
        &self.body
    }

    pub fn timeout_at(&self) -> (r: &Option<u64>)
        ensures
            *r == self.timeout_at,
    {
        &self.timeout_at
    }

    pub fn delivery_attempts(&self) -> (r: &u64)
        ensures
            *r == self.delivery_attempts,
    {
        &self.delivery_attempts
    }

    pub fn set_timeout_at(&mut self, timeout_at: Option<u64>)
        ensures
            *final(self) == (ValqMsg { timeout_at, ..*old(self) }),
    {
        self.timeout_at = timeout_at;
    }

    pub fn set_delivery_attempts(&mut self, delivery_attempts: u64)
        ensures
            *final(self) == (ValqMsg { delivery_attempts, ..*old(self) }),
    {
        self.delivery_attempts = delivery_attempts;
    }

    /// Whether the message is visible at the instant `now`.
    pub fn is_visible_at(&self, now: u64) -> (r: bool)
        ensures
            r == self.visible_at(now),
    {
        match self.timeout_at {
            Some(t) => t <= now,
            None => true,
        }
    }

    /// Whether the message is visible now, by the wall clock.
    pub fn check_timeout_at(&self) -> (r: bool)
        ensures
            self.timeout_at is None ==> r,
            exists|now: u64| r == self.visible_at(now),
    {
        let now = now_as_seconds();
        self.is_visible_at(now)
    }

    /// Whether fewer than `max_delivery_attempts` deliveries have been made.
    pub fn check_max_delivery_attempts(&self, max_delivery_attempts: u64) -> (r: bool)
        ensures
            r == self.within_limit(max_delivery_attempts),
    {
        self.delivery_attempts < max_delivery_attempts
    }
}

impl Clone for ValqMsg {
    fn clone(&self) -> (r: Self)
        ensures
            r == *self,
    {
        ValqMsg {
            id: self.id,
            body: self.body.clone(),
            timeout_at: self.timeout_at,
            delivery_attempts: self.delivery_attempts,
        }
    }
}

} // verus!
