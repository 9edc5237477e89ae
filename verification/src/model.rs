//! The shape of the model and its causal attention pattern.
use vstd::prelude::*;

verus! {

/// Sizes of the model.
#[derive(Clone, Copy)]
pub struct Config {
    pub vocab_size: usize,
    pub block_size: usize,
    pub n_embd: usize,
    pub n_head: usize,
    pub n_layer: usize,
}

/// Row `i` of the causal pattern over `t` positions: position `i` may attend to
/// position `j` exactly when `j <= i` (it never looks ahead).
pub open spec fn causal_row(t: nat, i: nat) -> Seq<bool> {
    Seq::new(t, |j: int| j <= i)
}

/// The first `rows` rows of the causal pattern over `t` positions, row after row.
pub open spec fn causal_rows(t: nat, rows: nat) -> Seq<bool>
    decreases rows,
{
    if rows == 0 {
        seq![]
    } else {
        causal_rows(t, (rows - 1) as nat) + causal_row(t, (rows - 1) as nat)
    }
}

/// The causal pattern, entry by entry: over `t` positions it has `t * t`
/// entries, and the entry of row `i`, column `j` (at `i * t + j`) allows attention
/// exactly when `j <= i`: every position sees itself and every earlier position,
/// and no later one.
pub proof fn lemma_causal_pattern(t: nat, rows: nat)
    ensures
        causal_rows(t, rows).len() == rows * t,
        forall|i: int, j: int|
            #![trigger causal_rows(t, rows)[i * t + j]]
            0 <= i < rows && 0 <= j < t ==> causal_rows(t, rows)[i * t + j] == (j <= i),
    decreases rows,
{
    if rows > 0 {
        let r = (rows - 1) as nat;
        lemma_causal_pattern(t, r);
        let prev = causal_rows(t, r);
        let row = causal_row(t, r);
        assert(causal_rows(t, rows) == prev + row);
        assert(rows * t == r * t + t) by (nonlinear_arith)
            requires
                rows == r + 1,
        ;
        assert forall|i: int, j: int|
            #![trigger causal_rows(t, rows)[i * t + j]]
            0 <= i < rows && 0 <= j < t implies causal_rows(t, rows)[i * t + j] == (j <= i) by {
            if i < r {
                assert(i * t + j < r * t) by (nonlinear_arith)
                    requires
                        0 <= i < r,
                        0 <= j < t,
                ;
                assert(0 <= i * t + j) by (nonlinear_arith)
                    requires
                        0 <= i,
                        0 <= j,
                ;
                assert(causal_rows(t, rows)[i * t + j] == prev[i * t + j]);
            } else {
                assert(i * t + j == r * t + j);
                assert(causal_rows(t, rows)[i * t + j] == row[j]);
            }
        }
    } else {
        assert(rows * t == 0) by (nonlinear_arith)
            requires
                rows == 0,
        ;
    }
}

/// The causal attention pattern over `t` positions, row-major: entry `i * t + j`
/// is `true` when position `i` may attend to position `j`. The model masks the
/// `false` entries out.
pub fn causal_mask_allowed(t: usize) -> (m: Vec<bool>)
    requires
        t * t <= usize::MAX,
    ensures
        m@ == causal_rows(t as nat, t as nat),
        m@.len() == t * t,
        forall|i: int, j: int|
            #![trigger m@[i * t + j]]
            0 <= i < t && 0 <= j < t ==> m@[i * t + j] == (j <= i),
{
    let mut m: Vec<bool> = Vec::new();
    for i in 0..t
        invariant
            m@ == causal_rows(t as nat, i as nat),
    {
        let ghost before = m@;
        for j in 0..t
            invariant
                m@ == before + Seq::new(j as nat, |k: int| k <= i),
        {
            m.push(j <= i);
            assert(m@ =~= before + Seq::new((j + 1) as nat, |k: int| k <= i));
        }
        assert(m@ =~= causal_rows(t as nat, (i + 1) as nat));
    }
    proof {
        lemma_causal_pattern(t as nat, t as nat);
    }
    m
}

} // verus!
