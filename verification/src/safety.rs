//! Who may touch a payload that several tasks share.

use vstd::prelude::*;

verus! {

/// How many [`Safety`] values of one payload there are.
pub struct Holders {
    count: usize,
}

impl View for Holders {
    type V = nat;

    closed spec fn view(&self) -> nat {
        self.count as nat
    }
}

/// A claim on a shared payload, which only the claim made last can use. `T` is a
/// task that can be woken.
///
/// A claim knows how many there were, itself included, when it was made. It is the
/// last one exactly as long as there are as many. Claims are given up in the
/// reverse order in which they were made.
#[derive(Debug)]
pub struct Safety<T> {
    /// The task that used the payload before this claim was made.
    task: Option<T>,
    level: usize,
}

impl<T> Safety<T> {
    /// The place of this claim among those of its payload, counted from one.
    pub closed spec fn level(&self) -> nat {
        self.level as nat
    }

    /// The task that is woken when this claim is given up.
    pub closed spec fn task(&self) -> Option<T> {
        self.task
    }

    /// Whether this claim is the last one of `holders`.
    pub open spec fn is_current(&self, holders: nat) -> bool {
        self.level() == holders
    }

    /// The first claim on a payload.
    pub fn new() -> (r: (Safety<T>, Holders))
        ensures
            r.0.level() == 1,
            r.0.task() is None,
            r.1@ == 1,
    {
        (Safety { task: None, level: 1 }, Holders { count: 1 })
    }

    /// Whether this claim is the last one, and so can use the payload.
    pub fn current(&self, holders: &Holders) -> (r: bool)
        ensures
            r == self.is_current(holders@),
            r <==> self.level() == holders@,
    {
        holders.count == self.level
    }

    /// Makes another claim on the payload. `task`, which uses the payload now, is to
    /// be woken when that claim is given up.
    pub fn clone_for(&self, holders: &mut Holders, task: T) -> (r: Safety<T>)
        requires
            old(holders)@ < usize::MAX,
        ensures
            final(holders)@ == old(holders)@ + 1,
            r.level() == final(holders)@,
            r.task() == Some(task),
    {
        holders.count = holders.count + 1;
        Safety { task: Some(task), level: holders.count }
    }

    /// Gives the last claim up, and says which task is to be woken for it.
    pub fn release(self, holders: &mut Holders) -> (task: Option<T>)
        requires
            self.is_current(old(holders)@),
            old(holders)@ > 0,
        ensures
            final(holders)@ == old(holders)@ - 1,
            task == self.task(),
    {
        holders.count = holders.count - 1;
        self.task
    }
}

/// Whether `claims` are all the claims on a payload, in the order in which they were
/// made.
pub open spec fn stacked<T>(claims: Seq<Safety<T>>, holders: nat) -> bool {
    &&& holders == claims.len()
    &&& forall|i: int| 0 <= i < claims.len() ==> (#[trigger] claims[i]).level() == i + 1
}

/// Of all the claims on a payload exactly the last one can use it.
pub proof fn law_only_the_last_is_current<T>(claims: Seq<Safety<T>>, holders: nat, i: int)
    requires
        stacked(claims, holders),
        0 <= i < claims.len(),
    ensures
        claims[i].is_current(holders) <==> i == claims.len() - 1,
{
}

/// A new claim takes the payload from the one before it, and giving it up hands the
/// payload back: the claims stay stacked on the way in and out.
pub proof fn law_claims_stay_stacked<T>(claims: Seq<Safety<T>>, holders: nat, next: Safety<T>)
    requires
        stacked(claims, holders),
        next.level() == holders + 1,
    ensures
        stacked(claims.push(next), holders + 1),
        next.is_current(holders + 1),
        claims.len() > 0 ==> !claims.last().is_current(holders + 1) && claims.last().is_current(
            holders,
        ),
        claims.push(next).drop_last() == claims,
{
    assert(claims.push(next).drop_last() =~= claims);
}

/// A payload that is used through the last claim on it.
pub struct PayloadRef<S> {
    payload: S,
}

impl<S> View for PayloadRef<S> {
    type V = S;

    closed spec fn view(&self) -> S {
        self.payload
    }
}

impl<S> PayloadRef<S> {
    /// Guards `payload`.
    pub fn new(payload: S) -> (r: PayloadRef<S>)
        ensures
            r@ == payload,
    {
        PayloadRef { payload }
    }

    /// The payload, for the last claim on it. Any other claim gets nothing.
    pub fn get_mut<T>(&mut self, safety: &Safety<T>, holders: &Holders) -> (r: Option<&mut S>)
        ensures
            match r {
                Some(payload) => safety.is_current(holders@) && *payload == old(self)@
                    && final(self)@ == *final(payload),
                None => !safety.is_current(holders@) && final(self)@ == old(self)@,
            },
            r is Some <==> safety.level() == holders@,
    {
        if safety.current(holders) {
            Some(&mut self.payload)
        } else {
            None
        }
    }
}

} // verus!
