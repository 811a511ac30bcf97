//! The arithmetic of a settlement: each ranked winner receives its percentage
//! of the prize pool, rounded toward zero, and the creator receives what is
//! left over.
use vstd::prelude::*;

verus! {

/// The receiver of one transfer of a settlement.
#[derive(Clone, Copy, Debug, PartialEq, Eq, Structural)]
pub enum Payee {
    /// The winner at this rank: an index into the winners list, best first.
    Winner(u32),
    /// The creator of the event, who receives what the shares leave over.
    Creator,
}

/// One token transfer out of the prize pool.
#[derive(Clone, Copy, Debug, PartialEq, Eq, Structural)]
pub struct Transfer {
    pub payee: Payee,
    pub amount: i128,
}

/// Division by a positive divisor rounded toward zero, as Rust's `/` on signed integers.
pub open spec fn trunc_div(x: int, d: int) -> int {
    if x >= 0 {
        x / d
    } else {
        -((-x) / d)
    }
}

/// The share of `pool` that a winner with `pct` percent receives.
pub open spec fn share_of(pool: int, pct: u32) -> int {
    trunc_div(pool * pct, 100)
}

/// The sum of the shares of the winners with percentages `pcts`.
pub open spec fn shares_total(pool: int, pcts: Seq<u32>) -> int
    decreases pcts.len(),
{
    if pcts.len() == 0 {
        0
    } else {
        shares_total(pool, pcts.drop_last()) + share_of(pool, pcts.last())
    }
}

/// What the winners' shares leave of the pool.
pub open spec fn remainder_of(pool: int, pcts: Seq<u32>) -> int {
    pool - shares_total(pool, pcts)
}

/// The transfers to the winners, in rank order; a share that is not positive
/// is not transferred.
pub open spec fn winner_transfers(pool: int, pcts: Seq<u32>) -> Seq<Transfer>
    decreases pcts.len(),
{
    if pcts.len() == 0 {
        Seq::empty()
    } else {
        let before = winner_transfers(pool, pcts.drop_last());
        let share = share_of(pool, pcts.last());
        if share > 0 {
            before.push(Transfer { payee: Payee::Winner((pcts.len() - 1) as u32), amount: share as i128 })
        } else {
            before
        }
    }
}

/// All transfers of a settlement: the winners' shares, then the remainder to
/// the creator where it is positive.
pub open spec fn settlement(pool: int, pcts: Seq<u32>) -> Seq<Transfer> {
    let rest = remainder_of(pool, pcts);
    if rest > 0 {
        winner_transfers(pool, pcts).push(Transfer { payee: Payee::Creator, amount: rest as i128 })
    } else {
        winner_transfers(pool, pcts)
    }
}

pub open spec fn fits_i128(x: int) -> bool {
    i128::MIN <= x <= i128::MAX
}

/// Every intermediate value of a settlement fits in `i128`: each product of the
/// pool and a percentage, each running total of the shares, and the remainder.
pub open spec fn settlement_fits(pool: int, pcts: Seq<u32>) -> bool {
    &&& forall|i: int| 0 <= i < pcts.len() ==> fits_i128(pool * #[trigger] pcts[i])
    &&& forall|k: int| 0 <= k <= pcts.len() ==> fits_i128(#[trigger] shares_total(pool, pcts.take(k)))
    &&& fits_i128(remainder_of(pool, pcts))
}

/// Computes the transfers that settle a prize pool of `pool` among winners
/// whose percentages, best rank first, are `pcts`. Returns `None` exactly when
/// an intermediate value leaves the range of `i128`.
pub fn plan_payouts(pool: i128, pcts: &Vec<u32>) -> (r: Option<Vec<Transfer>>)
    requires
        pcts.len() <= u32::MAX,
    ensures
        r is None <==> !settlement_fits(pool as int, pcts@),
        r matches Some(ts) ==> ts@ == settlement(pool as int, pcts@),
{
    let n = pcts.len();
    let mut distributed: i128 = 0;
    let mut transfers: Vec<Transfer> = Vec::new();
    let mut i: usize = 0;
    assert(pcts@.take(0) =~= Seq::<u32>::empty());
    while i < n
        invariant
            n == pcts.len(),
            n <= u32::MAX,
            0 <= i <= n,
            forall|j: int| 0 <= j < i ==> fits_i128(pool * #[trigger] pcts@[j]),
            forall|k: int| 0 <= k <= i ==> fits_i128(#[trigger] shares_total(pool as int, pcts@.take(k))),
            distributed == shares_total(pool as int, pcts@.take(i as int)),
            transfers@ == winner_transfers(pool as int, pcts@.take(i as int)),
        decreases n - i,
    {
        let pct = pcts[i];
        let ghost next = pcts@.take(i + 1);
        assert(next.drop_last() =~= pcts@.take(i as int));
        assert(next.last() == pct);
        let product = match pool.checked_mul(pct as i128) {
            Some(p) => p,
            None => {
                assert(!fits_i128(pool * pcts@[i as int]));
                return None;
            },
        };
        let amount = match product.checked_div(100) {
            Some(q) => q,
            None => {
                return None;
            },
        };
        assert(amount == share_of(pool as int, pct));
        if amount > 0 {
            transfers.push(Transfer { payee: Payee::Winner(i as u32), amount });
        }
        distributed = match distributed.checked_add(amount) {
            Some(d) => d,
            None => {
                assert(!fits_i128(shares_total(pool as int, pcts@.take(i + 1))));
                return None;
            },
        };
        i = i + 1;
    }
    assert(pcts@.take(n as int) =~= pcts@);
    let rest = match pool.checked_sub(distributed) {
        Some(r) => r,
        None => {
            return None;
        },
    };
    if rest > 0 {
        transfers.push(Transfer { payee: Payee::Creator, amount: rest });
    }
    Some(transfers)
}

/// The sum of the amounts of a list of transfers.
pub open spec fn amount_total(ts: Seq<Transfer>) -> int
    decreases ts.len(),
{
    if ts.len() == 0 {
        0
    } else {
        amount_total(ts.drop_last()) + ts.last().amount
    }
}

/// The sum of a list of percentages.
pub open spec fn pct_total(pcts: Seq<u32>) -> int
    decreases pcts.len(),
{
    if pcts.len() == 0 {
        0
    } else {
        pct_total(pcts.drop_last()) + pcts.last()
    }
}

/// The rank a transfer pays, or -1 where it pays the creator.
pub open spec fn rank_of(t: Transfer) -> int {
    match t.payee {
        Payee::Winner(i) => i as int,
        Payee::Creator => -1,
    }
}

proof fn lemma_share_fits(pool: int, pct: u32)
    requires
        fits_i128(pool * pct),
    ensures
        fits_i128(share_of(pool, pct)),
        pool >= 0 ==> 0 <= share_of(pool, pct) && share_of(pool, pct) * 100 <= pool * pct,
{
    if pool >= 0 {
        assert(pool * pct >= 0) by (nonlinear_arith)
            requires
                pool >= 0,
                pct >= 0,
        ;
    }
}

proof fn lemma_winner_transfers(pool: int, pcts: Seq<u32>)
    requires
        pcts.len() <= u32::MAX,
        forall|i: int| 0 <= i < pcts.len() ==> fits_i128(pool * #[trigger] pcts[i]),
    ensures
        forall|j: int|
            0 <= j < winner_transfers(pool, pcts).len() ==> {
                let t = #[trigger] winner_transfers(pool, pcts)[j];
                &&& t.payee is Winner
                &&& 0 <= rank_of(t) < pcts.len()
                &&& t.amount == share_of(pool, pcts[rank_of(t)])
                &&& t.amount > 0
            },
        forall|j1: int, j2: int|
            0 <= j1 < j2 < winner_transfers(pool, pcts).len() ==> rank_of(
                #[trigger] winner_transfers(pool, pcts)[j1],
            ) < rank_of(#[trigger] winner_transfers(pool, pcts)[j2]),
        forall|i: int|
            0 <= i < pcts.len() && share_of(pool, #[trigger] pcts[i]) > 0 ==> exists|j: int|
                0 <= j < winner_transfers(pool, pcts).len() && rank_of(
                    #[trigger] winner_transfers(pool, pcts)[j],
                ) == i,
    decreases pcts.len(),
{
    if pcts.len() > 0 {
        let init = pcts.drop_last();
        assert forall|i: int| 0 <= i < init.len() implies fits_i128(pool * #[trigger] init[i]) by {
            assert(init[i] == pcts[i]);
        }
        lemma_winner_transfers(pool, init);
        let before = winner_transfers(pool, init);
        let last = (pcts.len() - 1) as int;
        assert(fits_i128(pool * pcts[last]));
        lemma_share_fits(pool, pcts[last]);
        let wt = winner_transfers(pool, pcts);
        assert forall|j: int| 0 <= j < before.len() implies #[trigger] wt[j] == before[j]
            && rank_of(before[j]) < last && before[j].amount == share_of(
            pool,
            pcts[rank_of(before[j])],
        ) by {
            assert(init[rank_of(before[j])] == pcts[rank_of(before[j])]);
        }
        assert forall|i: int|
            0 <= i < pcts.len() && share_of(pool, #[trigger] pcts[i]) > 0 implies exists|j: int|
                0 <= j < wt.len() && rank_of(#[trigger] wt[j]) == i by {
            if i < last {
                assert(init[i] == pcts[i]);
                let j = choose|j: int| 0 <= j < before.len() && rank_of(#[trigger] before[j]) == i;
                assert(wt[j] == before[j]);
            } else {
                assert(wt[before.len() as int] == wt.last());
            }
        }
    }
}

/// Every transfer of a settlement moves a positive amount; the winner at rank
/// `i` receives exactly its share of the pool, winners are paid best rank
/// first, every winner whose share is positive is paid once, and a positive
/// remainder goes to the creator in a last transfer.
pub proof fn law_settlement_shape(pool: int, pcts: Seq<u32>)
    requires
        pcts.len() <= u32::MAX,
        settlement_fits(pool, pcts),
    ensures
        forall|j: int|
            0 <= j < settlement(pool, pcts).len() ==> (#[trigger] settlement(pool, pcts)[j]).amount
                > 0,
        forall|j: int|
            0 <= j < settlement(pool, pcts).len() && (#[trigger] settlement(
                pool,
                pcts,
            )[j]).payee is Winner ==> 0 <= rank_of(settlement(pool, pcts)[j]) < pcts.len()
                && settlement(pool, pcts)[j].amount == share_of(
                pool,
                pcts[rank_of(settlement(pool, pcts)[j])],
            ),
        forall|j: int|
            0 <= j < settlement(pool, pcts).len() && (#[trigger] settlement(
                pool,
                pcts,
            )[j]).payee is Creator ==> j == settlement(pool, pcts).len() - 1 && settlement(
                pool,
                pcts,
            )[j].amount == remainder_of(pool, pcts),
        forall|j1: int, j2: int|
            0 <= j1 < j2 < settlement(pool, pcts).len() && (#[trigger] settlement(
                pool,
                pcts,
            )[j1]).payee is Winner && (#[trigger] settlement(pool, pcts)[j2]).payee is Winner
                ==> rank_of(settlement(pool, pcts)[j1]) < rank_of(settlement(pool, pcts)[j2]),
        forall|i: int|
            0 <= i < pcts.len() && share_of(pool, #[trigger] pcts[i]) > 0 ==> exists|j: int|
                0 <= j < settlement(pool, pcts).len() && rank_of(
                    #[trigger] settlement(pool, pcts)[j],
                ) == i,
        remainder_of(pool, pcts) > 0 ==> settlement(pool, pcts).last() == (Transfer {
            payee: Payee::Creator,
            amount: remainder_of(pool, pcts) as i128,
        }),
{
    lemma_winner_transfers(pool, pcts);
    let wt = winner_transfers(pool, pcts);
    let s = settlement(pool, pcts);
    assert forall|j: int| 0 <= j < wt.len() implies #[trigger] s[j] == wt[j] by {}
    assert forall|i: int|
        0 <= i < pcts.len() && share_of(pool, #[trigger] pcts[i]) > 0 implies exists|j: int|
            0 <= j < s.len() && rank_of(#[trigger] s[j]) == i by {
        let j = choose|j: int| 0 <= j < wt.len() && rank_of(#[trigger] wt[j]) == i;
        assert(s[j] == wt[j]);
    }
}

proof fn lemma_share_raw(pool: int, pct: u32)
    ensures
        pool * pct >= 100 ==> share_of(pool, pct) > 0 && share_of(pool, pct) * 100 <= pool * pct
            < share_of(pool, pct) * 100 + 100,
        pool * pct < 100 ==> share_of(pool, pct) <= 0,
{
    let x = pool * pct;
    if x >= 0 {
        assert(x / 100 * 100 <= x < x / 100 * 100 + 100);
    }
}

/// Each ranked winner is paid its percentage of the pool rounded toward zero:
/// where `pool * pct` reaches 100, the winner at that rank receives an amount
/// `a` with `a * 100 <= pool * pct < a * 100 + 100`; where it does not, that
/// winner receives no transfer at all.
pub proof fn law_each_rank_gets_its_truncated_share(pool: int, pcts: Seq<u32>)
    requires
        pcts.len() <= u32::MAX,
        settlement_fits(pool, pcts),
    ensures
        forall|i: int|
            0 <= i < pcts.len() && pool * #[trigger] pcts[i] >= 100 ==> exists|j: int|
                0 <= j < settlement(pool, pcts).len() && (#[trigger] settlement(pool, pcts)[j]).payee
                    == Payee::Winner(i as u32) && settlement(pool, pcts)[j].amount * 100 <= pool
                    * pcts[i] && pool * pcts[i] < settlement(pool, pcts)[j].amount * 100 + 100,
        forall|i: int, j: int|
            0 <= i < pcts.len() && pool * #[trigger] pcts[i] < 100 && 0 <= j < settlement(
                pool,
                pcts,
            ).len() ==> (#[trigger] settlement(pool, pcts)[j]).payee != Payee::Winner(i as u32),
{
    lemma_winner_transfers(pool, pcts);
    let wt = winner_transfers(pool, pcts);
    let s = settlement(pool, pcts);
    assert forall|j: int| 0 <= j < wt.len() implies #[trigger] s[j] == wt[j] by {}
    assert forall|i: int| 0 <= i < pcts.len() && pool * #[trigger] pcts[i] >= 100 implies exists|j: int|
        0 <= j < s.len() && (#[trigger] s[j]).payee == Payee::Winner(i as u32) && s[j].amount * 100
            <= pool * pcts[i] && pool * pcts[i] < s[j].amount * 100 + 100 by {
        lemma_share_raw(pool, pcts[i]);
        let j = choose|j: int| 0 <= j < wt.len() && rank_of(#[trigger] wt[j]) == i;
        assert(s[j] == wt[j]);
        assert(wt[j].payee is Winner);
        assert(wt[j].payee == Payee::Winner(i as u32));
    }
    assert forall|i: int, j: int|
        0 <= i < pcts.len() && pool * #[trigger] pcts[i] < 100 && 0 <= j < s.len() implies (
        #[trigger] s[j]).payee != Payee::Winner(i as u32) by {
        lemma_share_raw(pool, pcts[i]);
        if j < wt.len() {
            assert(s[j] == wt[j]);
            if wt[j].payee == Payee::Winner(i as u32) {
                assert(rank_of(wt[j]) == i);
            }
        } else {
            assert(s[j].payee == Payee::Creator);
        }
    }
}

proof fn lemma_winner_total(pool: int, pcts: Seq<u32>)
    requires
        pool >= 0,
        forall|i: int| 0 <= i < pcts.len() ==> fits_i128(pool * #[trigger] pcts[i]),
    ensures
        amount_total(winner_transfers(pool, pcts)) == shares_total(pool, pcts),
        0 <= shares_total(pool, pcts),
        shares_total(pool, pcts) * 100 <= pool * pct_total(pcts),
    decreases pcts.len(),
{
    if pcts.len() > 0 {
        let init = pcts.drop_last();
        assert forall|i: int| 0 <= i < init.len() implies fits_i128(pool * #[trigger] init[i]) by {
            assert(init[i] == pcts[i]);
        }
        lemma_winner_total(pool, init);
        let last = pcts.last();
        assert(fits_i128(pool * pcts[pcts.len() - 1]));
        lemma_share_fits(pool, last);
        let share = share_of(pool, last);
        let before = winner_transfers(pool, init);
        if share > 0 {
            let t = Transfer { payee: Payee::Winner((pcts.len() - 1) as u32), amount: share as i128 };
            assert(before.push(t).drop_last() =~= before);
        }
        let s0 = shares_total(pool, init);
        let p0 = pct_total(init);
        assert(pool * (p0 + last) == pool * p0 + pool * last) by (nonlinear_arith);
    }
}

/// Where the percentages add up to at most 100 and the pool is not negative,
/// a settlement pays out exactly the pool: what rounding leaves goes to the
/// creator, and nobody is paid more than the pool holds.
pub proof fn law_settlement_pays_out_the_pool(pool: int, pcts: Seq<u32>)
    requires
        pool >= 0,
        pct_total(pcts) <= 100,
        settlement_fits(pool, pcts),
    ensures
        0 <= remainder_of(pool, pcts) <= pool,
        amount_total(settlement(pool, pcts)) == pool,
{
    lemma_winner_total(pool, pcts);
    let total = shares_total(pool, pcts);
    assert(pool * pct_total(pcts) <= pool * 100) by (nonlinear_arith)
        requires
            pool >= 0,
            pct_total(pcts) <= 100,
    ;
    let rest = remainder_of(pool, pcts);
    let wt = winner_transfers(pool, pcts);
    if rest > 0 {
        let t = Transfer { payee: Payee::Creator, amount: rest as i128 };
        assert(wt.push(t).drop_last() =~= wt);
    }
}

proof fn lemma_pct_total_prefix(pcts: Seq<u32>, k: int)
    requires
        0 <= k <= pcts.len(),
    ensures
        0 <= pct_total(pcts.take(k)) <= pct_total(pcts),
        forall|i: int| 0 <= i < pcts.len() ==> #[trigger] pcts[i] <= pct_total(pcts),
    decreases pcts.len(),
{
    if pcts.len() == 0 {
        assert(pcts.take(k) =~= pcts);
    } else {
        let init = pcts.drop_last();
        if k == pcts.len() {
            assert(pcts.take(k) =~= pcts);
            lemma_pct_total_prefix(init, init.len() as int);
            assert(init.take(init.len() as int) =~= init);
        } else {
            lemma_pct_total_prefix(init, k);
            assert(pcts.take(k) =~= init.take(k));
        }
        assert forall|i: int| 0 <= i < pcts.len() implies #[trigger] pcts[i] <= pct_total(pcts) by {
            if i < init.len() {
                assert(init[i] == pcts[i]);
            }
        }
    }
}

/// A settlement never fails for want of range when the pool is not negative,
/// a hundred times the pool fits in `i128`, and the percentages add up to at
/// most 100: every intermediate value then lies between 0 and `pool * 100`.
pub proof fn law_bounded_settlements_fit(pool: int, pcts: Seq<u32>)
    requires
        0 <= pool,
        pool * 100 <= i128::MAX,
        pct_total(pcts) <= 100,
    ensures
        settlement_fits(pool, pcts),
{
    lemma_pct_total_prefix(pcts, 0);
    assert forall|i: int| 0 <= i < pcts.len() implies fits_i128(pool * #[trigger] pcts[i]) by {
        let p = pcts[i];
        assert(0 <= pool * p <= pool * 100) by (nonlinear_arith)
            requires
                0 <= pool,
                0 <= p <= 100,
        ;
    }
    assert forall|k: int| 0 <= k <= pcts.len() implies fits_i128(
        #[trigger] shares_total(pool, pcts.take(k)),
    ) by {
        let pre = pcts.take(k);
        lemma_pct_total_prefix(pcts, k);
        assert forall|i: int| 0 <= i < pre.len() implies fits_i128(pool * #[trigger] pre[i]) by {
            assert(pre[i] == pcts[i]);
        }
        lemma_winner_total(pool, pre);
        let t = pct_total(pre);
        assert(pool * t <= pool * 100) by (nonlinear_arith)
            requires
                0 <= pool,
                t <= 100,
        ;
    }
    lemma_winner_total(pool, pcts);
    let t = pct_total(pcts);
    assert(pool * t <= pool * 100) by (nonlinear_arith)
        requires
            0 <= pool,
            t <= 100,
    ;
}

} // verus!
