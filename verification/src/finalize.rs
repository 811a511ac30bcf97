//! Settlement of an oracle event: who may settle it, when, and which token
//! transfers pay out its prize pool.
use vstd::prelude::*;
use crate::event::{settled, EventState};
use crate::host::{
    address_eq, address_vec_len, address_vec_slots, address_vec_try_get, same_address,
    u32_vec_len, u32_vec_slots, u32_vec_try_get,
};
use crate::payout::{
    law_each_rank_gets_its_truncated_share, law_settlement_shape, plan_payouts, settlement,
    settlement_fits, Payee, Transfer,
};

verus! {

/// Why a settlement was refused.
#[derive(Clone, Copy, Debug, PartialEq, Eq, Structural)]
pub enum FinalizeError {
    /// The caller is not the creator of the event.
    NotCreator,
    /// The event has been settled before.
    AlreadyFinalized,
    /// The ledger time has not reached the event's end time.
    EventNotEnded,
    /// A percentage of the reward table that is used is not a `u32`.
    RewardNotU32,
    /// An entry of the winners list that is used is not an address.
    WinnerNotAddress,
    /// A value of the payout computation leaves the range of `i128`.
    ArithmeticOverflow,
}

/// The verdict on a request to settle `event` at ledger time `now`, checked in
/// this order: the caller must be the creator, the event must not be settled,
/// and its end time must have come.
pub open spec fn finalize_check(event: EventState, caller_is_creator: bool, now: u64) -> Result<
    (),
    FinalizeError,
> {
    if !caller_is_creator {
        Err(FinalizeError::NotCreator)
    } else if event.is_finalized {
        Err(FinalizeError::AlreadyFinalized)
    } else if now < event.end_time {
        Err(FinalizeError::EventNotEnded)
    } else {
        Ok(())
    }
}

/// Decides whether a settlement may proceed, given whether the caller is the
/// event's creator.
pub fn check_finalize(event: &EventState, caller_is_creator: bool, now: u64) -> (r: Result<
    (),
    FinalizeError,
>)
    ensures
        r == finalize_check(*event, caller_is_creator, now),
{
    if !caller_is_creator {
        Err(FinalizeError::NotCreator)
    } else if event.is_finalized {
        Err(FinalizeError::AlreadyFinalized)
    } else if now < event.end_time {
        Err(FinalizeError::EventNotEnded)
    } else {
        Ok(())
    }
}

/// Decides whether `caller` may settle `event`, whose creator is `creator`, at
/// ledger time `now`: only the creator may, once, after the end time.
pub fn authorize_finalize(
    event: &EventState,
    creator: &soroban_sdk::Address,
    caller: &soroban_sdk::Address,
    now: u64,
) -> (r: Result<(), FinalizeError>)
    ensures
        r == finalize_check(*event, address_eq(*creator, *caller), now),
{
    let is_creator = same_address(creator, caller);
    check_finalize(event, is_creator, now)
}

/// How many ranks a settlement pays from its lists: as many as both the
/// reward table and the winners list cover.
pub open spec fn ranks_covered(
    reward_distribution: soroban_sdk::Vec<u32>,
    winners: soroban_sdk::Vec<soroban_sdk::Address>,
) -> nat {
    let n_dist = u32_vec_slots(reward_distribution).len();
    let n_win = address_vec_slots(winners).len();
    if n_dist < n_win {
        n_dist
    } else {
        n_win
    }
}

/// The slots of the reward table that a settlement reads, best rank first.
pub open spec fn rewards_used(
    reward_distribution: soroban_sdk::Vec<u32>,
    winners: soroban_sdk::Vec<soroban_sdk::Address>,
) -> Seq<Option<u32>> {
    u32_vec_slots(reward_distribution).take(ranks_covered(reward_distribution, winners) as int)
}

/// The slots of the winners list that a settlement reads, best rank first.
pub open spec fn winners_used(
    reward_distribution: soroban_sdk::Vec<u32>,
    winners: soroban_sdk::Vec<soroban_sdk::Address>,
) -> Seq<bool> {
    address_vec_slots(winners).take(ranks_covered(reward_distribution, winners) as int)
}

/// Every slot holds an address.
pub open spec fn all_addresses(slots: Seq<bool>) -> bool {
    forall|i: int| 0 <= i < slots.len() ==> #[trigger] slots[i]
}

/// Every slot holds a `u32`.
pub open spec fn all_u32(slots: Seq<Option<u32>>) -> bool {
    forall|i: int| 0 <= i < slots.len() ==> (#[trigger] slots[i]) is Some
}

/// The `u32` payloads of the slots.
pub open spec fn payloads(slots: Seq<Option<u32>>) -> Seq<u32> {
    slots.map_values(
        |o: Option<u32>|
            match o {
                Some(x) => x,
                None => 0u32,
            },
    )
}

/// What a settlement does: the transfers to make, in order, and the state the
/// event is stored with afterwards.
pub struct FinalizePlan {
    pub transfers: Vec<Transfer>,
    pub event: EventState,
}

/// Plans the settlement of `event`: the winner at rank `i` (best first)
/// receives percentage `i` of `reward_distribution` of the prize pool, for as
/// many ranks as both lists cover; the creator receives what is left; the
/// event is then marked finalized with an empty pool. Every reward and winner
/// entry that is used is read and checked first.
pub fn plan_finalize(
    event: &EventState,
    winners: &soroban_sdk::Vec<soroban_sdk::Address>,
    reward_distribution: &soroban_sdk::Vec<u32>,
) -> (r: Result<FinalizePlan, FinalizeError>)
    ensures
        r matches Err(FinalizeError::RewardNotU32) <==> !all_u32(
            rewards_used(*reward_distribution, *winners),
        ),
        r matches Err(FinalizeError::WinnerNotAddress) <==> all_u32(
            rewards_used(*reward_distribution, *winners),
        ) && !all_addresses(winners_used(*reward_distribution, *winners)),
        r matches Err(FinalizeError::ArithmeticOverflow) <==> all_u32(
            rewards_used(*reward_distribution, *winners),
        ) && all_addresses(winners_used(*reward_distribution, *winners)) && !settlement_fits(
            event.prize_pool as int,
            payloads(rewards_used(*reward_distribution, *winners)),
        ),
        r is Ok || r matches Err(FinalizeError::RewardNotU32) || r matches Err(
            FinalizeError::WinnerNotAddress,
        ) || r matches Err(FinalizeError::ArithmeticOverflow),
        r matches Ok(plan) ==> plan.transfers@ == settlement(
            event.prize_pool as int,
            payloads(rewards_used(*reward_distribution, *winners)),
        ) && plan.event == settled(*event),
{
    let n_dist = u32_vec_len(reward_distribution);
    let n_win = address_vec_len(winners);
    let pairs: u32 = if n_dist < n_win {
        n_dist
    } else {
        n_win
    };
    let ghost used = rewards_used(*reward_distribution, *winners);
    let ghost slots = u32_vec_slots(*reward_distribution);
    let mut pcts: Vec<u32> = Vec::new();
    let mut i: u32 = 0;
    while i < pairs
        invariant
            used == rewards_used(*reward_distribution, *winners),
            slots == u32_vec_slots(*reward_distribution),
            used == slots.take(pairs as int),
            pairs <= slots.len(),
            i <= pairs,
            pcts@.len() == i,
            forall|j: int| 0 <= j < i ==> used[j] == Some(#[trigger] pcts@[j]),
        decreases pairs - i,
    {
        match u32_vec_try_get(reward_distribution, i) {
            Ok(Some(x)) => {
                pcts.push(x);
            },
            _ => {
                assert(used[i as int] is None);
                return Err(FinalizeError::RewardNotU32);
            },
        }
        i = i + 1;
    }
    assert(used.len() == pairs);
    assert(all_u32(used)) by {
        assert forall|j: int| 0 <= j < used.len() implies (#[trigger] used[j]) is Some by {
            assert(used[j] == Some(pcts@[j]));
        }
    }
    let ghost ranked = winners_used(*reward_distribution, *winners);
    let ghost kinds = address_vec_slots(*winners);
    let mut k: u32 = 0;
    while k < pairs
        invariant
            all_u32(rewards_used(*reward_distribution, *winners)),
            ranked == winners_used(*reward_distribution, *winners),
            kinds == address_vec_slots(*winners),
            ranked == kinds.take(pairs as int),
            pairs <= kinds.len(),
            k <= pairs,
            forall|j: int| 0 <= j < k ==> #[trigger] ranked[j],
        decreases pairs - k,
    {
        match address_vec_try_get(winners, k) {
            Ok(Some(_)) => {},
            _ => {
                assert(!ranked[k as int]);
                return Err(FinalizeError::WinnerNotAddress);
            },
        }
        k = k + 1;
    }
    assert(all_addresses(ranked)) by {
        assert(ranked.len() == pairs);
    }
    assert(payloads(used) =~= pcts@);
    match plan_payouts(event.prize_pool, &pcts) {
        Some(transfers) => Ok(FinalizePlan { transfers, event: event.settled() }),
        None => Err(FinalizeError::ArithmeticOverflow),
    }
}

/// An event that has been settled can never be settled again, whoever asks and
/// whenever.
pub proof fn law_settled_event_is_final(event: EventState, caller_is_creator: bool, now: u64)
    ensures
        finalize_check(settled(event), caller_is_creator, now) is Err,
        caller_is_creator ==> finalize_check(settled(event), caller_is_creator, now) == Err::<
            (),
            FinalizeError,
        >(FinalizeError::AlreadyFinalized),
{
}

/// Who may settle an event and when: a caller that is not the creator is
/// refused; the creator is refused on a settled event; on an unsettled event
/// the creator is allowed exactly when the ledger time has reached the end time.
pub proof fn law_only_the_creator_settles_after_the_end(
    event: EventState,
    caller_is_creator: bool,
    now: u64,
)
    ensures
        !caller_is_creator ==> finalize_check(event, caller_is_creator, now) == Err::<
            (),
            FinalizeError,
        >(FinalizeError::NotCreator),
        caller_is_creator && event.is_finalized ==> finalize_check(event, caller_is_creator, now)
            == Err::<(), FinalizeError>(FinalizeError::AlreadyFinalized),
        caller_is_creator && !event.is_finalized ==> (finalize_check(
            event,
            caller_is_creator,
            now,
        ) is Ok <==> now >= event.end_time),
        caller_is_creator && !event.is_finalized && now < event.end_time ==> finalize_check(
            event,
            caller_is_creator,
            now,
        ) == Err::<(), FinalizeError>(FinalizeError::EventNotEnded),
        finalize_check(event, caller_is_creator, now) is Ok ==> caller_is_creator
            && !event.is_finalized && now >= event.end_time,
{
}

/// A settlement pays as many ranks as the shorter of the reward table and the
/// winners list: for every rank `i` below both lengths whose percentage `p`
/// gives `pool * p >= 100`, the winner at rank `i` receives `a` with
/// `a * 100 <= pool * p < a * 100 + 100`; no winner at or beyond that number
/// of ranks is paid.
pub proof fn law_settlement_pays_every_covered_rank(
    pool: int,
    reward_distribution: soroban_sdk::Vec<u32>,
    winners: soroban_sdk::Vec<soroban_sdk::Address>,
)
    requires
        u32_vec_slots(reward_distribution).len() <= u32::MAX,
        forall|i: int|
            0 <= i < u32_vec_slots(reward_distribution).len() && i < address_vec_slots(
                winners,
            ).len() ==> (#[trigger] u32_vec_slots(reward_distribution)[i]) is Some,
        settlement_fits(pool, payloads(rewards_used(reward_distribution, winners))),
    ensures
        forall|i: int|
            0 <= i < u32_vec_slots(reward_distribution).len() && i < address_vec_slots(
                winners,
            ).len() && pool * (#[trigger] u32_vec_slots(reward_distribution)[i])->0 >= 100
                ==> exists|j: int|
                0 <= j < settlement(
                    pool,
                    payloads(rewards_used(reward_distribution, winners)),
                ).len() && (#[trigger] settlement(
                    pool,
                    payloads(rewards_used(reward_distribution, winners)),
                )[j]).payee == Payee::Winner(i as u32) && settlement(
                    pool,
                    payloads(rewards_used(reward_distribution, winners)),
                )[j].amount * 100 <= pool * u32_vec_slots(reward_distribution)[i]->0 && pool
                    * u32_vec_slots(reward_distribution)[i]->0 < settlement(
                    pool,
                    payloads(rewards_used(reward_distribution, winners)),
                )[j].amount * 100 + 100,
        forall|j: int|
            0 <= j < settlement(pool, payloads(rewards_used(reward_distribution, winners))).len()
                && (#[trigger] settlement(
                pool,
                payloads(rewards_used(reward_distribution, winners)),
            )[j]).payee is Winner ==> settlement(
                pool,
                payloads(rewards_used(reward_distribution, winners)),
            )[j].payee->0 < u32_vec_slots(reward_distribution).len() && settlement(
                pool,
                payloads(rewards_used(reward_distribution, winners)),
            )[j].payee->0 < address_vec_slots(winners).len(),
{
    let slots = u32_vec_slots(reward_distribution);
    let used = rewards_used(reward_distribution, winners);
    let pcts = payloads(used);
    let s = settlement(pool, pcts);
    law_each_rank_gets_its_truncated_share(pool, pcts);
    law_settlement_shape(pool, pcts);
    assert forall|i: int|
        0 <= i < slots.len() && i < address_vec_slots(winners).len() && pool * (
        #[trigger] slots[i])->0 >= 100 implies exists|j: int|
        0 <= j < s.len() && (#[trigger] s[j]).payee == Payee::Winner(i as u32) && s[j].amount * 100
            <= pool * slots[i]->0 && pool * slots[i]->0 < s[j].amount * 100 + 100 by {
        assert(used[i] == slots[i]);
        assert(pcts[i] == slots[i]->0);
    }
    assert forall|j: int|
        0 <= j < s.len() && (#[trigger] s[j]).payee is Winner implies s[j].payee->0 < slots.len()
        && s[j].payee->0 < address_vec_slots(winners).len() by {
        assert(crate::payout::rank_of(s[j]) == s[j].payee->0);
    }
}

/// What a settlement reads of its inputs: the first `min(#rewards, #winners)`
/// slots of each list, best rank first; it accepts them exactly when every
/// such reward slot holds a `u32` and every such winner slot holds an address,
/// and pays by those `u32` values.
pub proof fn law_settlement_reads_the_covered_ranks(
    reward_distribution: soroban_sdk::Vec<u32>,
    winners: soroban_sdk::Vec<soroban_sdk::Address>,
)
    ensures
        rewards_used(reward_distribution, winners).len() == (if u32_vec_slots(
            reward_distribution,
        ).len() < address_vec_slots(winners).len() {
            u32_vec_slots(reward_distribution).len()
        } else {
            address_vec_slots(winners).len()
        }),
        winners_used(reward_distribution, winners).len() == rewards_used(
            reward_distribution,
            winners,
        ).len(),
        forall|i: int|
            0 <= i < rewards_used(reward_distribution, winners).len() ==> #[trigger] rewards_used(
                reward_distribution,
                winners,
            )[i] == u32_vec_slots(reward_distribution)[i] && #[trigger] winners_used(
                reward_distribution,
                winners,
            )[i] == address_vec_slots(winners)[i],
        all_u32(rewards_used(reward_distribution, winners)) <==> (forall|i: int|
            0 <= i < u32_vec_slots(reward_distribution).len() && i < address_vec_slots(
                winners,
            ).len() ==> (#[trigger] u32_vec_slots(reward_distribution)[i]) is Some),
        all_addresses(winners_used(reward_distribution, winners)) <==> (forall|i: int|
            0 <= i < u32_vec_slots(reward_distribution).len() && i < address_vec_slots(
                winners,
            ).len() ==> #[trigger] address_vec_slots(winners)[i]),
        forall|i: int|
            0 <= i < rewards_used(reward_distribution, winners).len() && (#[trigger] u32_vec_slots(
                reward_distribution,
            )[i]) is Some ==> payloads(rewards_used(reward_distribution, winners))[i]
                == u32_vec_slots(reward_distribution)[i]->0,
{
    let used = rewards_used(reward_distribution, winners);
    let ranked = winners_used(reward_distribution, winners);
    let slots = u32_vec_slots(reward_distribution);
    let kinds = address_vec_slots(winners);
    if all_u32(used) {
        assert forall|i: int| 0 <= i < slots.len() && i < kinds.len() implies (
        #[trigger] slots[i]) is Some by {
            assert(used[i] == slots[i]);
        }
    }
    if forall|i: int| 0 <= i < slots.len() && i < kinds.len() ==> (#[trigger] slots[i]) is Some {
        assert forall|i: int| 0 <= i < used.len() implies (#[trigger] used[i]) is Some by {
            assert(used[i] == slots[i]);
        }
    }
    if all_addresses(ranked) {
        assert forall|i: int| 0 <= i < slots.len() && i < kinds.len() implies #[trigger] kinds[i] by {
            assert(ranked[i] == kinds[i]);
        }
    }
    if forall|i: int| 0 <= i < slots.len() && i < kinds.len() ==> #[trigger] kinds[i] {
        assert forall|i: int| 0 <= i < ranked.len() implies #[trigger] ranked[i] by {
            assert(ranked[i] == kinds[i]);
        }
    }
}

} // verus!
