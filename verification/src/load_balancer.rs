//! A stand-alone round-robin load balancer.
//!
//! Keeps a FIFO of pending request ids and distributes work over a list of
//! target servers by cycling through them in order.

use vstd::prelude::*;

use crate::timer::Timer;

verus! {

/// Starting processing duration of a load balancer, in milliseconds.
pub const LOAD_BALANCER_STARTING_MILLIS: u64 = 50;

/// Strategy for picking the next target server.
pub enum LoadBalancingAlgorithm {
    RoundRobin,
}

/// A balancer that queues request ids and forwards them round-robin over
/// its available targets.
pub struct LoadBalancer {
    pub processing_power: usize,
    /// FIFO of queued request ids (front at index 0).
    pub queued_requests: Vec<u64>,
    pub max_queue_size: usize,
    /// Ids of the servers work may be forwarded to.
    pub available_targets: Vec<u64>,
    pub algorithm: LoadBalancingAlgorithm,
    /// Index of the target the next request will be read from.
    pub next_target_index: usize,
    pub current_progress: Timer,
}

impl LoadBalancer {
    /// Append a request id at the back of the queue.
    pub fn add_request(&mut self, request: u64)
        ensures
            final(self).queued_requests@ == old(self).queued_requests@.push(request),
            final(self).available_targets@ == old(self).available_targets@,
            final(self).next_target_index == old(self).next_target_index,
            final(self).max_queue_size == old(self).max_queue_size,
            final(self).processing_power == old(self).processing_power,
            final(self).current_progress == old(self).current_progress,
    {
        self.queued_requests.push(request);
    }

    /// Whether any request is queued.
    pub fn has_requests(&mut self) -> (r: bool)
        ensures
            *final(self) == *old(self),
            r == (old(self).queued_requests@.len() > 0),
    {
        self.queued_requests.len() > 0
    }

    /// Whether the queue has reached its maximum size.
    pub fn is_queue_full(&mut self) -> (r: bool)
        ensures
            *final(self) == *old(self),
            r == (old(self).queued_requests@.len() >= old(self).max_queue_size),
    {
        let len = self.queued_requests.len();
        len >= self.max_queue_size
    }

    /// Pop the request id at the front of the queue, if any.
    pub fn get_request(&mut self) -> (r: Option<u64>)
        ensures
            final(self).available_targets@ == old(self).available_targets@,
            final(self).next_target_index == old(self).next_target_index,
            final(self).max_queue_size == old(self).max_queue_size,
            final(self).processing_power == old(self).processing_power,
            final(self).current_progress == old(self).current_progress,
            old(self).queued_requests@.len() == 0 ==> {
                &&& r is None
                &&& final(self).queued_requests@ == old(self).queued_requests@
            },
            old(self).queued_requests@.len() > 0 ==> {
                &&& r == Some(old(self).queued_requests@[0])
                &&& final(self).queued_requests@ == old(self).queued_requests@.subrange(
                    1,
                    old(self).queued_requests@.len() as int,
                )
            },
    {
        if self.queued_requests.len() == 0 {
            None
        } else {
            let front = self.queued_requests.remove(0);
            Some(front)
        }
    }

    /// Read the target at the round-robin cursor and advance the cursor,
    /// wrapping to the front past the last target.  Yields `None` when the
    /// cursor has run past the end of a shrunk target list.
    pub fn chose_next_target(&mut self) -> (r: Option<u64>)
        requires
            old(self).available_targets@.len() > 0,
        ensures
            final(self).queued_requests@ == old(self).queued_requests@,
            final(self).available_targets@ == old(self).available_targets@,
            final(self).max_queue_size == old(self).max_queue_size,
            final(self).processing_power == old(self).processing_power,
            final(self).current_progress == old(self).current_progress,
            r == if old(self).next_target_index < old(self).available_targets@.len() {
                Some(old(self).available_targets@[old(self).next_target_index as int])
            } else {
                None::<u64>
            },
            final(self).next_target_index == if old(self).next_target_index + 1
                > old(self).available_targets@.len() - 1 {
                0usize
            } else {
                (old(self).next_target_index + 1) as usize
            },
    {
        let num_targets = self.available_targets.len();
        let ret = if self.next_target_index < num_targets {
            Some(self.available_targets[self.next_target_index])
        } else {
            None
        };
        if self.next_target_index >= num_targets - 1 {
            self.next_target_index = 0;
        } else {
            self.next_target_index = self.next_target_index + 1;
        }
        ret
    }

    /// Restart the progress timer at the balancer's base duration.
    pub fn reset_progress(&mut self)
        ensures
            final(self).queued_requests@ == old(self).queued_requests@,
            final(self).available_targets@ == old(self).available_targets@,
            final(self).next_target_index == old(self).next_target_index,
            final(self).max_queue_size == old(self).max_queue_size,
            final(self).processing_power == old(self).processing_power,
            final(self).current_progress.total_ms == LOAD_BALANCER_STARTING_MILLIS,
            final(self).current_progress.remaining_ms == LOAD_BALANCER_STARTING_MILLIS,
    {
        self.current_progress = Timer::new(LOAD_BALANCER_STARTING_MILLIS);
    }
}

} // verus!
