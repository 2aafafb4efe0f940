//! The greedy fit: walk the inventory in its order and take of each enabled
//! spacer as many as still fit into what remains of the target.

use crate::decimal::{decimal_units, parse_decimal};
use crate::registry::{all_positive, Spacer, SpacerRegistry};
use vstd::arithmetic::div_mod::{lemma_basic_div, lemma_fundamental_div_mod, lemma_small_mod};
use vstd::prelude::*;

verus! {

/// How a target thickness is made up of spacers.
#[derive(Debug)]
pub struct FitResult {
    /// The target, in units.
    pub requested: u64,
    /// For each position of the inventory, how many of that spacer are used.
    pub counts: Vec<u64>,
    /// What the chosen spacers leave of the target, in units.
    pub residual: u64,
}

/// What is left of `target` when the walk reaches position `i`.
pub open spec fn remaining_before(spacers: Seq<Spacer>, target: nat, i: int) -> nat
    decreases i,
{
    if i <= 0 {
        target
    } else {
        let left = remaining_before(spacers, target, i - 1);
        if spacers[i - 1].enabled {
            (left % (spacers[i - 1].thickness as nat)) as nat
        } else {
            left
        }
    }
}

/// How many of the spacer at position `i` the walk takes.
pub open spec fn count_at(spacers: Seq<Spacer>, target: nat, i: int) -> nat {
    if spacers[i].enabled {
        (remaining_before(spacers, target, i) / (spacers[i].thickness as nat)) as nat
    } else {
        0
    }
}

/// The thickness that the first `n` counts add up to.
pub open spec fn achieved(spacers: Seq<Spacer>, counts: Seq<u64>, n: int) -> nat
    decreases n,
{
    if n <= 0 {
        0
    } else {
        achieved(spacers, counts, n - 1) + (counts[n - 1] as nat) * (spacers[n - 1].thickness as nat)
    }
}

/// The counts of the greedy fit of `target` over `spacers`, by position.
pub open spec fn fit_counts(spacers: Seq<Spacer>, target: nat) -> Seq<nat> {
    Seq::new(spacers.len(), |i: int| count_at(spacers, target, i))
}

/// What the greedy fit of `target` over `spacers` leaves.
pub open spec fn fit_residual(spacers: Seq<Spacer>, target: nat) -> nat {
    remaining_before(spacers, target, spacers.len() as int)
}

/// `fit` is the greedy fit of `target` over `spacers`.
pub open spec fn is_fit(fit: FitResult, spacers: Seq<Spacer>, target: nat) -> bool {
    &&& fit.requested == target
    &&& fit.counts@.len() == spacers.len()
    &&& forall|i: int|
        0 <= i < spacers.len() ==> (#[trigger] fit.counts@[i]) == count_at(spacers, target, i)
    &&& fit.residual == fit_residual(spacers, target)
}

/// No enabled spacer is as thin as `target`.
pub open spec fn nothing_fits(spacers: Seq<Spacer>, target: nat) -> bool {
    forall|i: int|
        0 <= i < spacers.len() && (#[trigger] spacers[i]).enabled ==> spacers[i].thickness > target
}

/// The walk takes of an enabled spacer the largest number that fits into
/// what is left, and leaves what that number does not cover.
pub proof fn lemma_count_is_most_that_fits(spacers: Seq<Spacer>, target: nat, i: int)
    requires
        all_positive(spacers),
        0 <= i < spacers.len(),
        spacers[i].enabled,
    ensures
        count_at(spacers, target, i) * spacers[i].thickness <= remaining_before(spacers, target, i),
        remaining_before(spacers, target, i) < (count_at(spacers, target, i) + 1)
            * spacers[i].thickness,
        remaining_before(spacers, target, i + 1) == remaining_before(spacers, target, i)
            - count_at(spacers, target, i) * spacers[i].thickness,
{
    let left = remaining_before(spacers, target, i);
    let t = spacers[i].thickness as nat;
    let c = count_at(spacers, target, i);
    assert(t > 0);
    lemma_fundamental_div_mod(left as int, t as int);
    assert(0 <= left % t < t) by (nonlinear_arith)
        requires
            t > 0,
    ;
    assert(c * t == t * (left / t)) by (nonlinear_arith)
        requires
            c == left / t,
    ;
    assert((c + 1) * t == c * t + t) by (nonlinear_arith);
}

/// What remains never grows along the walk.
pub proof fn lemma_remaining_shrinks(spacers: Seq<Spacer>, target: nat, i: int, n: int)
    requires
        all_positive(spacers),
        0 <= i <= n <= spacers.len(),
    ensures
        remaining_before(spacers, target, n) <= remaining_before(spacers, target, i),
    decreases n - i,
{
    if i < n {
        lemma_remaining_shrinks(spacers, target, i, n - 1);
        let left = remaining_before(spacers, target, n - 1);
        let t = spacers[n - 1].thickness as nat;
        assert(t > 0);
        if spacers[n - 1].enabled {
            lemma_fundamental_div_mod(left as int, t as int);
            assert(t * (left / t) >= 0) by (nonlinear_arith)
                requires
                    t > 0,
                    left >= 0,
            ;
        }
    }
}

/// What remains and what the counts add up to make the target, at every
/// point of the walk.
pub proof fn lemma_walk_accounts(spacers: Seq<Spacer>, counts: Seq<u64>, target: nat, n: int)
    requires
        all_positive(spacers),
        0 <= n <= spacers.len(),
        counts.len() == spacers.len(),
        forall|i: int| 0 <= i < n ==> (#[trigger] counts[i]) == count_at(spacers, target, i),
    ensures
        remaining_before(spacers, target, n) + achieved(spacers, counts, n) == target,
    decreases n,
{
    if n > 0 {
        lemma_walk_accounts(spacers, counts, target, n - 1);
        let left = remaining_before(spacers, target, n - 1);
        let t = spacers[n - 1].thickness as nat;
        assert(t > 0);
        assert(counts[n - 1] == count_at(spacers, target, n - 1));
        if spacers[n - 1].enabled {
            lemma_fundamental_div_mod(left as int, t as int);
            assert((left / t) * t == t * (left / t)) by (nonlinear_arith);
        } else {
            assert((0 as nat) * t == 0);
        }
    }
}

/// Where no enabled spacer is as thin as the target, the walk takes nothing.
pub proof fn lemma_walk_takes_nothing(spacers: Seq<Spacer>, target: nat, n: int)
    requires
        all_positive(spacers),
        nothing_fits(spacers, target),
        0 <= n <= spacers.len(),
    ensures
        remaining_before(spacers, target, n) == target,
        n < spacers.len() ==> count_at(spacers, target, n) == 0,
    decreases n,
{
    if n > 0 {
        lemma_walk_takes_nothing(spacers, target, n - 1);
        if spacers[n - 1].enabled {
            lemma_small_mod(target, spacers[n - 1].thickness as nat);
        }
    }
    if n < spacers.len() && spacers[n].enabled {
        lemma_basic_div(target as int, spacers[n].thickness as int);
    }
}

/// The greedy fit leaves no part of the target unaccounted for, and less
/// than the thickness of any enabled spacer; where no enabled spacer is as
/// thin as the target it uses none and leaves the whole target.
pub proof fn lemma_fit_residual(fit: FitResult, spacers: Seq<Spacer>, target: nat)
    requires
        all_positive(spacers),
        is_fit(fit, spacers, target),
    ensures
        fit.residual + achieved(spacers, fit.counts@, spacers.len() as int) == target,
        fit.residual <= target,
        forall|i: int|
            0 <= i < spacers.len() && (#[trigger] spacers[i]).enabled ==> fit.residual
                < spacers[i].thickness,
        nothing_fits(spacers, target) ==> fit.residual == target && forall|i: int|
            0 <= i < spacers.len() ==> (#[trigger] fit.counts@[i]) == 0,
{
    let n = spacers.len() as int;
    lemma_walk_accounts(spacers, fit.counts@, target, n);
    assert forall|i: int| 0 <= i < n && (#[trigger] spacers[i]).enabled implies fit.residual
        < spacers[i].thickness by {
        lemma_remaining_shrinks(spacers, target, i + 1, n);
        let left = remaining_before(spacers, target, i);
        let t = spacers[i].thickness as nat;
        assert(t > 0);
        assert(left % t < t) by (nonlinear_arith)
            requires
                t > 0,
        ;
    }
    if nothing_fits(spacers, target) {
        lemma_walk_takes_nothing(spacers, target, n);
        assert forall|i: int| 0 <= i < n implies (#[trigger] fit.counts@[i]) == 0 by {
            lemma_walk_takes_nothing(spacers, target, i);
        }
    }
}

/// A disabled spacer has no part in the walk: up to any point, the walk
/// over the inventory leaves what the walk over the inventory without that
/// spacer leaves.
pub proof fn lemma_walk_skips_disabled(spacers: Seq<Spacer>, target: nat, k: int, n: int)
    requires
        0 <= k < spacers.len(),
        !spacers[k].enabled,
        0 <= n < spacers.len(),
    ensures
        n <= k ==> remaining_before(spacers, target, n) == remaining_before(
            spacers.remove(k),
            target,
            n,
        ),
        n >= k ==> remaining_before(spacers, target, n + 1) == remaining_before(
            spacers.remove(k),
            target,
            n,
        ),
    decreases n,
{
    let rest = spacers.remove(k);
    if n > 0 {
        lemma_walk_skips_disabled(spacers, target, k, n - 1);
        if n <= k {
            assert(rest[n - 1] == spacers[n - 1]);
        } else {
            assert(rest[n - 1] == spacers[n]);
        }
    }
    if n == k {
        assert(remaining_before(spacers, target, n) == remaining_before(rest, target, n));
        assert(remaining_before(spacers, target, n + 1) == remaining_before(spacers, target, n));
    }
}

/// Disabling a spacer is the same as taking it out of the inventory: the
/// disabled spacer is used zero times, every other spacer is used as often
/// as in the fit over the inventory without it, and the same is left over.
pub proof fn lemma_disabled_is_absent(spacers: Seq<Spacer>, target: nat, k: int)
    requires
        0 <= k < spacers.len(),
        !spacers[k].enabled,
    ensures
        count_at(spacers, target, k) == 0,
        forall|i: int|
            0 <= i < k ==> count_at(spacers, target, i) == #[trigger] count_at(
                spacers.remove(k),
                target,
                i,
            ),
        forall|i: int|
            k <= i < spacers.len() - 1 ==> count_at(spacers, target, i + 1) == #[trigger] count_at(
                spacers.remove(k),
                target,
                i,
            ),
        remaining_before(spacers, target, spacers.len() as int) == remaining_before(
            spacers.remove(k),
            target,
            spacers.len() - 1,
        ),
{
    let rest = spacers.remove(k);
    assert forall|i: int| 0 <= i < k implies count_at(spacers, target, i) == #[trigger] count_at(
        rest,
        target,
        i,
    ) by {
        lemma_walk_skips_disabled(spacers, target, k, i);
        assert(rest[i] == spacers[i]);
    }
    assert forall|i: int| k <= i < spacers.len() - 1 implies count_at(spacers, target, i + 1)
        == #[trigger] count_at(rest, target, i) by {
        lemma_walk_skips_disabled(spacers, target, k, i);
        assert(rest[i] == spacers[i + 1]);
    }
    lemma_walk_skips_disabled(spacers, target, k, spacers.len() - 1);
}

/// Two greedy fits of one target over one inventory are the same fit.
pub proof fn lemma_fit_is_determined(a: FitResult, b: FitResult, spacers: Seq<Spacer>, target: nat)
    requires
        is_fit(a, spacers, target),
        is_fit(b, spacers, target),
    ensures
        a.requested == b.requested,
        a.counts@ == b.counts@,
        a.residual == b.residual,
{
    assert(a.counts@ =~= b.counts@);
}

/// Fits `target` greedily over the inventory in its present order.
///
/// The inventory is only read. Each enabled spacer is used as often as it
/// fits into what the spacers before it left; a disabled one is passed over.
pub fn compute_fit(target: u64, registry: &SpacerRegistry) -> (fit: FitResult)
    ensures
        is_fit(fit, registry@, target as nat),
        fit.residual + achieved(registry@, fit.counts@, registry@.len() as int) == target,
        forall|i: int|
            0 <= i < registry@.len() && (#[trigger] registry@[i]).enabled ==> fit.residual
                < registry@[i].thickness,
        nothing_fits(registry@, target as nat) ==> fit.residual == target && forall|i: int|
            0 <= i < registry@.len() ==> (#[trigger] fit.counts@[i]) == 0,
{
    let n: usize = registry.len();
    let mut counts: Vec<u64> = Vec::new();
    let mut remaining: u64 = target;
    let mut i: usize = 0;
    proof {
        use_type_invariant(registry);
    }
    while i < n
        invariant
            registry.wf(),
            n == registry@.len(),
            i <= n,
            counts@.len() == i,
            forall|j: int|
                0 <= j < i ==> (#[trigger] counts@[j]) == count_at(registry@, target as nat, j),
            remaining == remaining_before(registry@, target as nat, i as int),
        decreases n - i,
    {
        let spacer: &Spacer = registry.get(i);
        assert(registry@[i as int].thickness > 0);
        if spacer.enabled {
            counts.push(remaining / spacer.thickness);
            remaining = remaining % spacer.thickness;
        } else {
            counts.push(0);
        }
        i += 1;
    }
    let fit = FitResult { requested: target, counts, residual: remaining };
    proof {
        lemma_fit_residual(fit, registry@, target as nat);
    }
    fit
}

/// Fits the target written in `target_text`.
///
/// Text that is not a decimal number gives no fit: there is nothing to show
/// yet. Zero is a target like any other.
pub fn fit_from_text(target_text: &str, registry: &SpacerRegistry) -> (r: Option<FitResult>)
    ensures
        match r {
            Some(fit) => {
                &&& decimal_units(target_text@) is Some
                &&& is_fit(fit, registry@, decimal_units(target_text@).unwrap())
            },
            None => decimal_units(target_text@) is None,
        },
{
    match parse_decimal(target_text) {
        Some(target) => Some(compute_fit(target, registry)),
        None => None,
    }
}

} // verus!
