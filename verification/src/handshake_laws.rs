//! How handshakes are counted, and in which order they are let in.
use crate::limiter::{LimiterState, admissible_fits};
use vstd::prelude::*;

verus! {

/// Handshakes that connect are counted as completed and those that do not as failed;
/// either way they are no longer in flight, and nobody's place or promise changes.
pub proof fn settled_handshakes_are_counted_as_they_ended(s: LimiterState, n: nat)
    requires
        n <= s.in_flight,
    ensures
        s.release(n, true).completed == s.completed + n,
        s.release(n, true).failed == s.failed,
        s.release(n, false).failed == s.failed + n,
        s.release(n, false).completed == s.completed,
        forall|connected: bool|
            {
                let after = #[trigger] s.release(n, connected);
                &&& after.in_flight + n == s.in_flight
                &&& after.started == s.started && after.peak == s.peak && after.limit == s.limit
                &&& after.reserved == s.reserved && after.queue == s.queue && after.waiters
                    == s.waiters && after.next_id == s.next_id
            },
{
}

/// Handshakes that are launched are in flight and started, and the peak is the most that
/// ever were in flight together; settling them gives their capacity back.
pub proof fn launched_handshakes_are_in_flight(s: LimiterState, n: nat, connected: bool)
    requires
        s.sound(),
        n <= s.free(),
    ensures
        ({
            let up = s.launch(n);
            &&& up.in_flight == s.in_flight + n
            &&& up.started == s.started + n
            &&& up.peak >= s.peak && up.peak >= up.in_flight
            &&& up.peak == s.peak || up.peak == up.in_flight
            &&& up.free() + n == s.free()
            &&& up.completed == s.completed && up.failed == s.failed
            &&& up.limit == s.limit && up.reserved == s.reserved
            &&& up.queue == s.queue && up.waiters == s.waiters
            &&& up.release(n, connected).in_flight == s.in_flight
            &&& up.release(n, connected).free() == s.free()
        }),
{
}

/// Whoever parks is last, holds nothing yet and is known by a new number; nobody else's
/// place changes.
pub proof fn parking_keeps_the_order(s: LimiterState, tokens: usize, ticket: u64)
    requires
        s.sound(),
        s.next_id < u64::MAX,
    ensures
        ({
            let after = s.park(tokens, ticket);
            &&& after.queue.len() == s.queue.len() + 1
            &&& after.queue.last() == s.next_id
            &&& forall|i: int| 0 <= i < s.queue.len() ==> #[trigger] after.queue[i] == s.queue[i]
            &&& !s.waiters.contains_key(s.next_id)
            &&& after.waiters[s.next_id].tokens == tokens && after.waiters[s.next_id].ticket
                == ticket && !after.waiters[s.next_id].granted
            &&& after.reserved == s.reserved && after.in_flight == s.in_flight
            &&& after.next_id == s.next_id + 1
        }),
{
}

/// Capacity is set aside in the order of the queue: whoever is granted has nobody before
/// them who still waits, and a grant takes nothing from what is in flight.
pub proof fn grants_follow_the_queue(s: LimiterState, i: int, j: int)
    requires
        s.sound(),
        0 <= i < j < s.queue.len(),
        s.grant().waiters[s.queue[j]].granted,
    ensures
        s.grant().waiters[s.queue[i]].granted,
        s.grant().in_flight == s.in_flight,
        s.grant().waiters[s.queue[i]].tokens == s.waiters[s.queue[i]].tokens,
        s.grant().waiters[s.queue[i]].ticket == s.waiters[s.queue[i]].ticket,
{
    admissible_fits(s.queue, s.waiters, s.free());
    let ids = s.next_grants();
    assert(s.waiters.contains_key(s.queue[i]) && s.waiters.contains_key(s.queue[j]));
    assert(s.queue.contains(s.queue[j]));
    assert(!s.waiters[s.queue[j]].granted);
    assert(ids.contains(s.queue[j]));
    let at = ids.index_of(s.queue[j]);
    assert(s.queue[at] == s.queue[j]);
    assert(at == j);
    assert(ids[i] == s.queue[i]);
}

} // verus!
