//! The table of requests that await their response.
//!
//! Each entry ties a correlation id to the completion handle of the caller
//! that waits under it. The table is generic in the handle: it never looks
//! inside one, it only hands back the handle that was registered.

use std::collections::HashMap;
use vstd::prelude::*;
use vstd::std_specs::hash::group_hash_axioms;

verus! {

broadcast use group_hash_axioms;

/// A handle that left the table, and the response that is owed to it.
#[derive(Debug, PartialEq)]
pub struct Delivery<H> {
    /// The handle that was registered under the response's id.
    pub handle: H,
    /// The response.
    pub value: serde_json::Value,
}

/// What registering `handle` under `id` does to a table, and what it
/// returns: an id that is live is refused, and the handle comes back.
pub open spec fn register_step<H>(table: Map<u64, H>, id: u64, handle: H) -> (Map<u64, H>, Result<
    (),
    H,
>) {
    if table.contains_key(id) {
        (table, Err(handle))
    } else {
        (table.insert(id, handle), Ok(()))
    }
}

/// What resolving `id` with `value` does to a table, and what it returns:
/// the entry leaves the table together with the value, and a value that
/// matches no entry comes back alone.
pub open spec fn resolve_step<H>(table: Map<u64, H>, id: u64, value: serde_json::Value) -> (
    Map<u64, H>,
    Result<Delivery<H>, serde_json::Value>,
) {
    if table.contains_key(id) {
        (table.remove(id), Ok(Delivery { handle: table[id], value }))
    } else {
        (table, Err(value))
    }
}

/// The requests that are in flight, by correlation id.
pub struct PendingTable<H> {
    entries: HashMap<u64, H>,
}

impl<H> View for PendingTable<H> {
    type V = Map<u64, H>;

    closed spec fn view(&self) -> Map<u64, H> {
        self.entries@
    }
}

impl<H> PendingTable<H> {
    /// A table with no entry.
    pub fn new() -> (table: Self)
        ensures
            table@ == Map::<u64, H>::empty(),
    {
        PendingTable { entries: HashMap::new() }
    }

    /// The number of live entries.
    pub fn len(&self) -> (n: usize)
        ensures
            n == self@.len(),
            self@.dom().finite(),
    {
        self.entries.len()
    }

    /// Whether an entry is live under `id`.
    pub fn is_pending(&self, id: u64) -> (live: bool)
        ensures
            live == self@.contains_key(id),
    {
        self.entries.contains_key(&id)
    }

    /// Registers `handle` under `id`. An id that already has a live entry is
    /// refused: the table stays as it is, and the handle comes back.
    pub fn register(&mut self, id: u64, handle: H) -> (registered: Result<(), H>)
        ensures
            (final(self)@, registered) == register_step(old(self)@, id, handle),
    {
        if self.entries.contains_key(&id) {
            Err(handle)
        } else {
            self.entries.insert(id, handle);
            Ok(())
        }
    }

    /// Removes every entry and returns how many there were. Their handles
    /// are dropped: this is how the requests still pending are failed when
    /// a stream ends.
    pub fn clear(&mut self) -> (dropped: usize)
        ensures
            final(self)@ == Map::<u64, H>::empty(),
            dropped == old(self)@.len(),
    {
        let dropped = self.entries.len();
        self.entries.clear();
        dropped
    }

    /// Resolves `id` with `value`. A live entry is removed, and its handle
    /// is returned with the value, to be fulfilled. Where no entry is live
    /// the table stays as it is, and the value comes back.
    pub fn resolve(&mut self, id: u64, value: serde_json::Value) -> (resolved: Result<
        Delivery<H>,
        serde_json::Value,
    >)
        ensures
            (final(self)@, resolved) == resolve_step(old(self)@, id, value),
            !old(self)@.contains_key(id) ==> final(self)@ == old(self)@ && resolved == Err::<
                Delivery<H>,
                serde_json::Value,
            >(value),
    {
        match self.entries.remove(&id) {
            Some(handle) => Ok(Delivery { handle, value }),
            None => Err(value),
        }
    }
}

/// The table after a run of registrations, made in order.
pub open spec fn register_all<H>(table: Map<u64, H>, requests: Seq<(u64, H)>) -> Map<u64, H>
    decreases requests.len(),
{
    if requests.len() == 0 {
        table
    } else {
        let last = requests.last();
        register_step(register_all(table, requests.drop_last()), last.0, last.1).0
    }
}

/// The table after a run of resolutions, made in order, and what each of
/// them returned.
pub open spec fn resolve_all<H>(table: Map<u64, H>, responses: Seq<(u64, serde_json::Value)>) -> (
    Map<u64, H>,
    Seq<Result<Delivery<H>, serde_json::Value>>,
)
    decreases responses.len(),
{
    if responses.len() == 0 {
        (table, Seq::empty())
    } else {
        let before = resolve_all(table, responses.drop_last());
        let last = responses.last();
        let step = resolve_step(before.0, last.0, last.1);
        (step.0, before.1.push(step.1))
    }
}

/// The ids that a run of responses bears.
pub open spec fn response_ids(responses: Seq<(u64, serde_json::Value)>) -> Set<u64> {
    Set::new(|id: u64| exists|j: int| 0 <= j < responses.len() && responses[j].0 == id)
}

/// Requests registered under fresh ids, no two alike, are all in the table,
/// each with its own handle, and the entries that were there stay.
pub proof fn lemma_register_all<H>(table: Map<u64, H>, requests: Seq<(u64, H)>)
    requires
        forall|i: int| 0 <= i < requests.len() ==> !table.contains_key(requests[i].0),
        forall|i: int, j: int| 0 <= i < j < requests.len() ==> requests[i].0 != requests[j].0,
    ensures
        forall|i: int|
            0 <= i < requests.len() ==> register_all(table, requests).contains_key(
                #[trigger] requests[i].0,
            ) && register_all(table, requests)[requests[i].0] == requests[i].1,
        forall|id: u64|
            table.contains_key(id) ==> #[trigger] register_all(table, requests).contains_key(id)
                && register_all(table, requests)[id] == table[id],
        forall|id: u64| #[trigger]
            register_all(table, requests).contains_key(id) ==> table.contains_key(id) || exists|
                i: int,
            |
                0 <= i < requests.len() && requests[i].0 == id,
    decreases requests.len(),
{
    if requests.len() > 0 {
        let front = requests.drop_last();
        lemma_register_all(table, front);
        let before = register_all(table, front);
        let last = requests.last();
        assert(!before.contains_key(last.0)) by {
            if before.contains_key(last.0) {
                let i = choose|i: int| 0 <= i < front.len() && front[i].0 == last.0;
                assert(requests[i].0 == requests[requests.len() - 1].0);
            }
        }
        assert forall|i: int| 0 <= i < requests.len() implies register_all(
            table,
            requests,
        ).contains_key(#[trigger] requests[i].0) && register_all(table, requests)[requests[i].0]
            == requests[i].1 by {
            if i < front.len() {
                assert(front[i] == requests[i]);
                assert(before.contains_key(front[i].0));
            }
        }
        assert forall|id: u64| #[trigger]
            register_all(table, requests).contains_key(id) implies table.contains_key(id)
            || exists|i: int| 0 <= i < requests.len() && requests[i].0 == id by {
            if id == last.0 {
                assert(requests[requests.len() - 1].0 == id);
            } else if !table.contains_key(id) {
                assert(before.contains_key(id));
                let i = choose|i: int| 0 <= i < front.len() && front[i].0 == id;
                assert(requests[i].0 == id);
            }
        }
    }
}

/// Responses that bear different ids do not affect one another: each finds
/// what the table held under its id before any of them arrived, whatever the
/// order in which they come. A response whose id is not pending comes back
/// alone, and every entry that no response names stays as it was.
pub proof fn lemma_resolve_all<H>(table: Map<u64, H>, responses: Seq<(u64, serde_json::Value)>)
    requires
        forall|j: int, k: int| 0 <= j < k < responses.len() ==> responses[j].0 != responses[k].0,
    ensures
        resolve_all(table, responses).1.len() == responses.len(),
        forall|j: int|
            0 <= j < responses.len() ==> #[trigger] resolve_all(table, responses).1[j]
                == resolve_step(table, responses[j].0, responses[j].1).1,
        resolve_all(table, responses).0 == table.remove_keys(response_ids(responses)),
    decreases responses.len(),
{
    if responses.len() == 0 {
        assert(table.remove_keys(response_ids(responses)) =~= table);
    } else {
        let front = responses.drop_last();
        let last = responses.last();
        lemma_resolve_all(table, front);
        let before = resolve_all(table, front);
        assert(!response_ids(front).contains(last.0)) by {
            if response_ids(front).contains(last.0) {
                let j = choose|j: int| 0 <= j < front.len() && front[j].0 == last.0;
                assert(responses[j].0 == responses[responses.len() - 1].0);
            }
        }
        assert(before.0.contains_key(last.0) == table.contains_key(last.0));
        assert forall|id: u64| response_ids(responses).contains(id) == (response_ids(
            front,
        ).contains(id) || id == last.0) by {
            if response_ids(front).contains(id) {
                let j = choose|j: int| 0 <= j < front.len() && front[j].0 == id;
                assert(responses[j].0 == id);
            }
            if id == last.0 {
                assert(responses[responses.len() - 1].0 == id);
            }
            if response_ids(responses).contains(id) && id != last.0 {
                let j = choose|j: int| 0 <= j < responses.len() && responses[j].0 == id;
                assert(front[j].0 == id);
            }
        }
        assert(resolve_all(table, responses).0 =~= table.remove_keys(response_ids(responses)));
        assert forall|j: int| 0 <= j < responses.len() implies #[trigger] resolve_all(
            table,
            responses,
        ).1[j] == resolve_step(table, responses[j].0, responses[j].1).1 by {
            if j < front.len() {
                assert(front[j] == responses[j]);
            }
        }
    }
}

/// Requests go out under ids that differ from one another and from those
/// already pending; later their responses arrive, one for each id at most,
/// in any order. Then each response is delivered to the handle that was
/// registered under its id, with that response's value.
pub proof fn lemma_correlation<H>(
    table: Map<u64, H>,
    requests: Seq<(u64, H)>,
    responses: Seq<(u64, serde_json::Value)>,
)
    requires
        forall|i: int| 0 <= i < requests.len() ==> !table.contains_key(requests[i].0),
        forall|i: int, j: int| 0 <= i < j < requests.len() ==> requests[i].0 != requests[j].0,
        forall|j: int, k: int| 0 <= j < k < responses.len() ==> responses[j].0 != responses[k].0,
    ensures
        resolve_all(register_all(table, requests), responses).1.len() == responses.len(),
        forall|i: int, j: int|
            0 <= i < requests.len() && 0 <= j < responses.len() && #[trigger] requests[i].0
                == #[trigger] responses[j].0 ==> resolve_all(
                register_all(table, requests),
                responses,
            ).1[j] == Ok::<Delivery<H>, serde_json::Value>(
                Delivery { handle: requests[i].1, value: responses[j].1 },
            ),
{
    lemma_register_all(table, requests);
    lemma_resolve_all(register_all(table, requests), responses);
}

} // verus!
