use vstd::prelude::*;

use vstd::arithmetic::div_mod::{lemma_fundamental_div_mod, lemma_mod_pos_bound};

verus! {

/// The buffer decimation by `f` keeps: for each full group of `f`
/// samples, its last one — positions `f-1`, `2f-1`, and so on; a final
/// partial group is dropped.
pub open spec fn decimated(s: Seq<u32>, f: nat) -> Seq<u32>
    recommends
        f >= 1,
{
    Seq::new(s.len() / f, |i: int| s[(i + 1) * f - 1])
}

/// Decimates `samples` by `factor`: keeps every `factor`-th sample
/// starting at position `factor - 1`, dropping a final partial group.
/// The output has exactly `len / factor` samples, and output sample `i`
/// is input sample `(i + 1) * factor - 1`.
pub fn decimate(samples: &Vec<u32>, factor: usize) -> (out: Vec<u32>)
    requires
        factor >= 1,
    ensures
        out@ == decimated(samples@, factor as nat),
        out@.len() == samples@.len() as int / (factor as int),
        forall|i: int|
            0 <= i < out@.len() ==> out@[i] == samples@[(i + 1) * (factor as int) - 1],
{
    let len = samples.len();
    let count = len / factor;
    proof {
        lemma_fundamental_div_mod(len as int, factor as int);
        lemma_mod_pos_bound(len as int, factor as int);
        assert((factor as int) * (count as int) <= len as int);
    }
    let mut out: Vec<u32> = Vec::new();
    let mut i: usize = 0;
    while i < count
        invariant
            len == samples@.len(),
            count as int == len as int / factor as int,
            factor >= 1,
            (factor as int) * (count as int) <= len as int,
            i <= count,
            out@.len() == i,
            forall|j: int|
                0 <= j < i ==> out@[j] == samples@[(j + 1) * (factor as int) - 1],
        decreases count - i,
    {
        proof {
            assert((i + 1) * (factor as int) <= (count as int) * (factor as int)) by (
            nonlinear_arith)
                requires
                    0 <= i < count as int,
            ;
            assert((count as int) * (factor as int) == (factor as int) * (count as int)) by (
            nonlinear_arith);
            assert((i + 1) * (factor as int) == i * (factor as int) + factor) by (nonlinear_arith);
            assert(i * (factor as int) >= 0) by (nonlinear_arith)
                requires
                    i >= 0 && factor >= 1,
            ;
        }
        let idx = i * factor + (factor - 1);
        out.push(samples[idx]);
        i += 1;
    }
    proof {
        assert(out@ =~= decimated(samples@, factor as nat));
    }
    out
}

/// Post-processes an already band-limited buffer from `source_rate` to
/// `target_rate`: decimates by the integer ratio of the rates. The design
/// assumes the source rate is an exact multiple of the target rate.
/// Applied to the same buffer and rates, the result is always the same:
/// a pure function of its inputs.
pub fn post_process(samples: &Vec<u32>, source_rate: u32, target_rate: u32) -> (out: Vec<u32>)
    requires
        target_rate > 0,
        target_rate <= source_rate,
        source_rate % target_rate == 0,
    ensures
        out@ == decimated(samples@, (source_rate / target_rate) as nat),
{
    let factor = source_rate / target_rate;
    proof {
        assert(factor >= 1) by (nonlinear_arith)
            requires
                0 < target_rate <= source_rate && factor == source_rate as int / target_rate as int,
        ;
    }
    decimate(samples, factor as usize)
}

} // verus!
