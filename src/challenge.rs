//! Grand-product challenges: pairs `(β, γ)` that fold a payload row into one value.

use vstd::prelude::*;
use crate::field::{Felt, fadd, fmul};
use crate::column::row_wf;

verus! {

/// `v_0 + β·v_1 + … + β^(n-1)·v_(n-1)`: value `i` takes the power `β^i`.
pub open spec fn reduce(vals: Seq<Felt>, beta: int) -> int
    decreases vals.len(),
{
    if vals.len() == 0 {
        0
    } else {
        fadd(fmul(reduce(vals.drop_first(), beta), beta), vals[0]@)
    }
}

/// One challenge of the grand-product argument.
#[derive(Clone, Copy, Debug, PartialEq, Eq)]
pub struct GrandProductChallenge<T> {
    /// Folds the payload values into one.
    pub beta: T,
    /// Offset added to the folded value.
    pub gamma: T,
}

/// `reduce(vals, β) + γ`.
pub open spec fn combine_spec(ch: GrandProductChallenge<Felt>, vals: Seq<Felt>) -> int {
    fadd(reduce(vals, ch.beta@), ch.gamma@)
}

impl GrandProductChallenge<Felt> {
    pub open spec fn wf(&self) -> bool {
        self.beta.wf() && self.gamma.wf()
    }

    /// Folds `terms` with powers of β (term `i` takes `β^i`) and adds γ; Horner's rule
    /// from the last term down.
    pub fn combine(&self, terms: &[Felt]) -> (r: Felt)
        requires
            self.wf(),
            row_wf(terms@),
        ensures
            r.wf(),
            r@ == combine_spec(*self, terms@),
    {
        let mut acc = Felt::zero();
        let mut i: usize = terms.len();
        assert(terms@.subrange(i as int, terms@.len() as int) =~= Seq::<Felt>::empty());
        while i > 0
            invariant
                i <= terms@.len(),
                self.wf(),
                row_wf(terms@),
                acc.wf(),
                acc@ == reduce(terms@.subrange(i as int, terms@.len() as int), self.beta@),
            decreases i,
        {
            i = i - 1;
            acc = acc.mul(self.beta).add(terms[i]);
            assert(terms@.subrange(i as int, terms@.len() as int).drop_first() =~= terms@.subrange(
                i + 1,
                terms@.len() as int,
            ));
        }
        assert(terms@.subrange(0, terms@.len() as int) =~= terms@);
        acc.add(self.gamma)
    }
}

/// `num_challenges` independent challenges, for soundness amplification.
#[derive(Clone, Debug, PartialEq, Eq)]
pub struct GrandProductChallengeSet<T> {
    pub challenges: Vec<GrandProductChallenge<T>>,
}

impl GrandProductChallengeSet<Felt> {
    pub open spec fn wf(&self) -> bool {
        forall|i: int| 0 <= i < self.challenges@.len() ==> (#[trigger] self.challenges@[i]).wf()
    }
}

/// The challenges made of consecutive transcript draws: β then γ, pair after pair.
pub open spec fn paired(draws: Seq<Felt>, n: int) -> Seq<GrandProductChallenge<Felt>> {
    Seq::new(n as nat, |i: int| GrandProductChallenge { beta: draws[2 * i], gamma: draws[2 * i + 1] })
}

/// Forms `num_challenges` challenges from transcript draws, taken two at a time in the
/// order drawn: β first, then γ.
pub fn get_grand_product_challenge_set(draws: &[Felt], num_challenges: usize) -> (r:
    GrandProductChallengeSet<Felt>)
    requires
        draws@.len() == 2 * num_challenges,
        row_wf(draws@),
    ensures
        r.challenges@ == paired(draws@, num_challenges as int),
        r.wf(),
{
    let mut challenges: Vec<GrandProductChallenge<Felt>> = Vec::new();
    let n = draws.len();
    let mut i: usize = 0;
    while i < num_challenges
        invariant
            i <= num_challenges,
            n == draws@.len(),
            draws@.len() == 2 * num_challenges,
            row_wf(draws@),
            challenges@ =~= paired(draws@, i as int),
        decreases num_challenges - i,
    {
        challenges.push(GrandProductChallenge { beta: draws[2 * i], gamma: draws[2 * i + 1] });
        i = i + 1;
        assert(challenges@ =~= paired(draws@, i as int));
    }
    let r = GrandProductChallengeSet { challenges };
    assert(r.wf()) by {
        assert forall|k: int| 0 <= k < r.challenges@.len() implies (#[trigger] r.challenges@[k]).wf() by {
            assert(row_wf(draws@));
            assert(draws@[2 * k].wf() && draws@[2 * k + 1].wf());
        }
    }
    r
}

} // verus!
