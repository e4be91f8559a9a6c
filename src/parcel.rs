use vstd::prelude::*;

use crate::error::StakingError;
use crate::id::AlkaneId;

verus! {

/// `value` units of the asset `id`.
#[derive(Clone, Copy, Debug, PartialEq, Eq, Structural)]
pub struct AlkaneTransfer {
    pub id: AlkaneId,
    pub value: u128,
}

/// A call to another contract: its target and its opcode with arguments.
#[derive(Clone, Debug)]
pub struct Cellpack {
    pub target: AlkaneId,
    pub inputs: Vec<u128>,
}

/// What a contract call hands back: the assets it sends out and a payload.
#[derive(Clone, Debug)]
pub struct CallResponse {
    pub alkanes: Vec<AlkaneTransfer>,
    pub data: Vec<u8>,
}

/// What the host tells a contract about the call it is running.
#[derive(Clone, Debug)]
pub struct Context {
    /// The contract's own identifier.
    pub myself: AlkaneId,
    /// The contract that made the call.
    pub caller: AlkaneId,
    /// The assets attached to the call.
    pub incoming_alkanes: Vec<AlkaneTransfer>,
}

/// The transfers of `ts` in asset `id`, in their order.
pub open spec fn matching(ts: Seq<AlkaneTransfer>, id: AlkaneId) -> Seq<AlkaneTransfer>
    decreases ts.len(),
{
    if ts.len() == 0 {
        Seq::empty()
    } else if ts.last().id == id {
        matching(ts.drop_last(), id).push(ts.last())
    } else {
        matching(ts.drop_last(), id)
    }
}

/// The transfers of `ts` in any asset other than `id`, in their order.
pub open spec fn others(ts: Seq<AlkaneTransfer>, id: AlkaneId) -> Seq<AlkaneTransfer>
    decreases ts.len(),
{
    if ts.len() == 0 {
        Seq::empty()
    } else if ts.last().id == id {
        others(ts.drop_last(), id)
    } else {
        others(ts.drop_last(), id).push(ts.last())
    }
}

/// Total units of asset `id` in `ts`.
pub open spec fn amount_of(ts: Seq<AlkaneTransfer>, id: AlkaneId) -> nat
    decreases ts.len(),
{
    if ts.len() == 0 {
        0
    } else if ts.last().id == id {
        amount_of(ts.drop_last(), id) + ts.last().value as nat
    } else {
        amount_of(ts.drop_last(), id)
    }
}

/// `amount` as a `u128`, or `u128::MAX` where it does not fit.
pub open spec fn saturate(amount: nat) -> u128 {
    if amount > u128::MAX {
        u128::MAX
    } else {
        amount as u128
    }
}

/// Incoming transfers split by asset.
#[derive(Clone, Debug)]
pub struct Partition {
    /// The transfers in the chosen asset.
    pub matching: Vec<AlkaneTransfer>,
    /// All other transfers.
    pub others: Vec<AlkaneTransfer>,
    /// Total units in the chosen asset; `None` where that total exceeds `u128::MAX`.
    pub total: Option<u128>,
}

/// Splits `incoming` into the transfers in asset `id` and the rest, keeping
/// their order, and sums the units in `id`.
pub fn partition(incoming: &Vec<AlkaneTransfer>, id: AlkaneId) -> (r: Partition)
    ensures
        r.matching@ == matching(incoming@, id),
        r.others@ == others(incoming@, id),
        amount_of(incoming@, id) <= u128::MAX ==> r.total == Some(amount_of(incoming@, id) as u128),
        amount_of(incoming@, id) > u128::MAX ==> r.total.is_none(),
{
    let mut matched: Vec<AlkaneTransfer> = Vec::new();
    let mut rest: Vec<AlkaneTransfer> = Vec::new();
    let mut total: u128 = 0;
    let mut overflowed: bool = false;
    let mut i: usize = 0;
    while i < incoming.len()
        invariant
            i <= incoming@.len(),
            matched@ == matching(incoming@.subrange(0, i as int), id),
            rest@ == others(incoming@.subrange(0, i as int), id),
            overflowed <==> amount_of(incoming@.subrange(0, i as int), id) > u128::MAX,
            !overflowed ==> total == amount_of(incoming@.subrange(0, i as int), id),
        decreases incoming@.len() - i,
    {
        let t = incoming[i];
        let ghost seen = incoming@.subrange(0, i as int);
        proof {
            let next = incoming@.subrange(0, i + 1);
            assert(next.drop_last() =~= seen);
            assert(next.last() == t);
            lemma_amount_of_monotone(next, id);
        }
        if t.id == id {
            matched.push(t);
            if !overflowed {
                match total.checked_add(t.value) {
                    Some(s) => {
                        total = s;
                    },
                    None => {
                        overflowed = true;
                    },
                }
            }
        } else {
            rest.push(t);
        }
        i = i + 1;
    }
    proof {
        assert(incoming@.subrange(0, incoming@.len() as int) =~= incoming@);
    }
    Partition { matching: matched, others: rest, total: if overflowed { None } else { Some(total) } }
}

proof fn lemma_amount_of_monotone(ts: Seq<AlkaneTransfer>, id: AlkaneId)
    requires
        ts.len() > 0,
    ensures
        amount_of(ts.drop_last(), id) <= amount_of(ts, id),
{
}

/// Why `incoming` fails to authenticate as the owner of contract `myself`, if it
/// does: the call must carry exactly one transfer, of `myself`'s own token, with at
/// least one unit.
pub open spec fn auth_failure(incoming: Seq<AlkaneTransfer>, myself: AlkaneId) -> Option<StakingError> {
    if incoming.len() != 1 {
        Some(StakingError::NotSoleToken)
    } else if incoming[0].id != myself {
        Some(StakingError::NotOwnToken)
    } else if incoming[0].value == 0 {
        Some(StakingError::NoTokenUnits)
    } else {
        None
    }
}

/// The owner check shared by the pool and the vaults.
pub fn authenticate(incoming: &Vec<AlkaneTransfer>, myself: AlkaneId) -> (r: Result<(), StakingError>)
    ensures
        r == (match auth_failure(incoming@, myself) {
            Some(e) => Err(e),
            None => Ok(()),
        }),
{
    if incoming.len() != 1 {
        return Err(StakingError::NotSoleToken);
    }
    let transfer = incoming[0];
    if transfer.id != myself {
        return Err(StakingError::NotOwnToken);
    }
    if transfer.value < 1 {
        return Err(StakingError::NoTokenUnits);
    }
    Ok(())
}

/// A copy of `ts`.
pub fn copy_transfers(ts: &Vec<AlkaneTransfer>) -> (r: Vec<AlkaneTransfer>)
    ensures
        r@ == ts@,
{
    let mut out: Vec<AlkaneTransfer> = Vec::new();
    let mut i: usize = 0;
    while i < ts.len()
        invariant
            i <= ts@.len(),
            out@ == ts@.subrange(0, i as int),
        decreases ts@.len() - i,
    {
        out.push(ts[i]);
        proof {
            assert(ts@.subrange(0, i + 1) =~= ts@.subrange(0, i as int).push(ts@[i as int]));
        }
        i = i + 1;
    }
    proof {
        assert(ts@.subrange(0, ts@.len() as int) =~= ts@);
    }
    out
}

} // verus!
