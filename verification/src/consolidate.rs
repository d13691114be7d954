//! The consolidation planner: which of the faucet's spendable outputs are
//! oversized, and how each one is split into drop-sized outputs plus an
//! optional remainder.
//!
//! A cycle's plan is pure arithmetic; building, signing, proving and
//! submitting the resulting transactions is the chain client's work and
//! happens outside this crate.

use vstd::prelude::*;
use crate::types::TransactionRef;

verus! {

broadcast use vstd::prelude::Seq::lemma_filter_push;

/// One unspent output of the faucet account, as the planner reads it: where
/// it came from and how much it carries.
#[derive(Clone, Copy, PartialEq, Eq, Structural, Debug)]
pub struct SpendableOutput {
    pub transaction: TransactionRef,
    pub output_index: usize,
    pub amount: u64,
}

/// One consolidation transaction to build: consume `source` as the sole
/// input and emit one output per entry of `amounts`, every one addressed
/// back to the faucet itself.
pub struct ConsolidationStep {
    pub source: SpendableOutput,
    pub amounts: Vec<u64>,
}

/// How many whole drops a split of `amount` carries: one per drop the
/// amount contains, capped at `max_io - 2` so that the one input and an
/// optional remainder output always fit under the transaction's hard cap
/// on combined input and output count.
pub open spec fn drop_slot_count(amount: u64, drop: u64, max_io: usize) -> int {
    let q = amount as int / drop as int;
    let cap = max_io as int - 2;
    if q < cap {
        q
    } else {
        cap
    }
}

/// The amounts a split of `amount` emits: the whole drops, then the
/// remainder if one is left.
pub open spec fn split_amounts(amount: u64, drop: u64, max_io: usize) -> Seq<u64> {
    let k = drop_slot_count(amount, drop, max_io);
    let drops = Seq::new(k as nat, |j: int| drop);
    if amount as int > k * drop {
        drops.push((amount - k * drop) as u64)
    } else {
        drops
    }
}

/// The total of a list of output amounts.
pub open spec fn amount_sum(s: Seq<u64>) -> int
    decreases s.len(),
{
    if s.len() == 0 {
        0
    } else {
        amount_sum(s.drop_last()) + s.last()
    }
}

/// The outputs a cycle consolidates: exactly those strictly above one drop.
/// An output at or below one drop is already minimally sized and is left
/// untouched.
pub open spec fn oversized_outputs(s: Seq<SpendableOutput>, drop: u64) -> Seq<SpendableOutput> {
    s.filter(|o: SpendableOutput| o.amount > drop)
}

/// Splits one oversized output: `None` when `amount` is at or below one
/// drop (no transaction is built for it), otherwise the list of output
/// amounts — they sum to the source amount exactly, stay under the
/// transaction cap with the input slot to spare, and all but at most the
/// last equal one drop.
pub fn plan_split(amount: u64, drop: u64, max_io: usize) -> (r: Option<Vec<u64>>)
    requires
        drop > 0,
        max_io >= 2,
    ensures
        r is Some <==> amount > drop,
        r is Some ==> r.unwrap()@ == split_amounts(amount, drop, max_io),
        r is Some ==> amount_sum(r.unwrap()@) == amount,
        r is Some ==> 1 <= r.unwrap()@.len() <= max_io - 1,
        r is Some ==> forall|i: int| 0 <= i < r.unwrap()@.len() - 1 ==> r.unwrap()@[i] == drop,
{
    if amount <= drop {
        return None;
    }
    let q: u64 = amount / drop;
    let cap: u64 = (max_io - 2) as u64;
    let k: u64 = if q < cap {
        q
    } else {
        cap
    };
    proof {
        assert(k as int == drop_slot_count(amount, drop, max_io));
        vstd::arithmetic::div_mod::lemma_fundamental_div_mod(amount as int, drop as int);
        vstd::arithmetic::div_mod::lemma_mod_bound(amount as int, drop as int);
        vstd::arithmetic::mul::lemma_mul_inequality(k as int, q as int, drop as int);
        assert(k as int * drop as int <= amount);
    }
    let used: u64 = k * drop;
    let mut outs: Vec<u64> = Vec::new();
    let mut i: u64 = 0;
    while i < k
        invariant
            i <= k,
            outs@ == Seq::new(i as nat, |j: int| drop),
        decreases k - i,
    {
        outs.push(drop);
        proof {
            assert(outs@ =~= Seq::new((i + 1) as nat, |j: int| drop));
        }
        i += 1;
    }
    proof {
        lemma_amount_sum_uniform(drop, k as nat);
    }
    if amount > used {
        let ghost drops = outs@;
        outs.push(amount - used);
        proof {
            assert(outs@.drop_last() =~= drops);
            assert(amount_sum(outs@) == amount);
        }
    }
    Some(outs)
}

/// The sum of `n` outputs of `v` each is `n * v`.
proof fn lemma_amount_sum_uniform(v: u64, n: nat)
    ensures
        amount_sum(Seq::new(n, |j: int| v)) == n * v,
    decreases n,
{
    if n == 0 {
    } else {
        let s = Seq::new(n, |j: int| v);
        assert(s.drop_last() =~= Seq::new((n - 1) as nat, |j: int| v));
        lemma_amount_sum_uniform(v, (n - 1) as nat);
        assert((n - 1) * v + v == n * v) by (nonlinear_arith);
    }
}

/// A consolidation split loses nothing and stays within the transaction
/// format: for a source amount strictly above one drop, the synthesized
/// outputs sum to the source amount exactly, their count leaves room for
/// the single consuming input under the cap on combined input and output
/// count, and every output except at most the last equals one drop.
pub proof fn lemma_split_amounts_correct(amount: u64, drop: u64, max_io: usize)
    requires
        drop > 0,
        max_io >= 2,
        amount > drop,
    ensures
        amount_sum(split_amounts(amount, drop, max_io)) == amount,
        1 <= split_amounts(amount, drop, max_io).len() <= max_io - 1,
        forall|i: int|
            0 <= i < split_amounts(amount, drop, max_io).len() - 1 ==> split_amounts(
                amount,
                drop,
                max_io,
            )[i] == drop,
{
    let k = drop_slot_count(amount, drop, max_io);
    vstd::arithmetic::div_mod::lemma_fundamental_div_mod(amount as int, drop as int);
    vstd::arithmetic::div_mod::lemma_mod_bound(amount as int, drop as int);
    vstd::arithmetic::mul::lemma_mul_inequality(k, amount as int / drop as int, drop as int);
    assert(k * drop <= amount);
    lemma_amount_sum_uniform(drop, k as nat);
    let drops = Seq::new(k as nat, |j: int| drop);
    if amount as int > k * drop {
        assert(split_amounts(amount, drop, max_io).drop_last() =~= drops);
    }
}

/// Plans one consolidation cycle over the faucet's current spendable
/// outputs: one step per oversized output, in enumeration order, each
/// splitting its source as `split_amounts` says. Outputs at or below one
/// drop produce no step.
pub fn plan_cycle(outputs: &Vec<SpendableOutput>, drop: u64, max_io: usize) -> (r: Vec<
    ConsolidationStep,
>)
    requires
        drop > 0,
        max_io >= 2,
    ensures
        ({
            let over = oversized_outputs(outputs@, drop);
            &&& r@.len() == over.len()
            &&& forall|i: int|
                0 <= i < over.len() ==> (#[trigger] r@[i]).source == over[i]
                    && r@[i].amounts@ == split_amounts(over[i].amount, drop, max_io)
        }),
{
    let n: usize = outputs.len();
    let mut r: Vec<ConsolidationStep> = Vec::new();
    let mut i: usize = 0;
    while i < n
        invariant
            i <= n,
            n == outputs@.len(),
            drop > 0,
            max_io >= 2,
            ({
                let over = oversized_outputs(outputs@.take(i as int), drop);
                &&& r@.len() == over.len()
                &&& forall|j: int|
                    0 <= j < over.len() ==> (#[trigger] r@[j]).source == over[j]
                        && r@[j].amounts@ == split_amounts(over[j].amount, drop, max_io)
            }),
        decreases n - i,
    {
        let o = outputs[i];
        proof {
            assert(outputs@.take(i as int + 1) =~= outputs@.take(i as int).push(outputs@[i as int]));
        }
        if o.amount > drop {
            match plan_split(o.amount, drop, max_io) {
                Some(amounts) => {
                    r.push(ConsolidationStep { source: o, amounts });
                },
                None => {
                    proof {
                        assert(false);
                    }
                },
            }
        }
        i += 1;
    }
    proof {
        assert(outputs@.take(n as int) =~= outputs@);
    }
    r
}

} // verus!
