//! The bookkeeping of training and scoring: which windows of the corpus make a
//! batch, which positions a line is scored on, which steps report, and how each
//! weight is initialised.
use candle_core::{Device, Tensor};
use vstd::prelude::*;

use crate::rng::random_usize;
use crate::model::Config;
use crate::synth::texts;
use crate::text::{
    chars_of, contains_str, contains_text, ends_with, ends_with_str, lemma_text_lt_total,
    lemma_text_lt_transitive, occurs_at, text_le, text_less, text_lt,
};
use crate::tokenizer::{encode_ids, CharTokenizer};

verus! {

#[verifier::external_type_specification]
#[verifier::external_body]
pub struct ExTensor(candle_core::Tensor);

#[verifier::external_type_specification]
#[verifier::external_body]
pub struct ExDevice(candle_core::Device);

#[verifier::external_type_specification]
#[verifier::external_body]
pub struct ExCandleError(candle_core::Error);

/// What a tensor holds, its elements in row-major order (for a tensor of `u32`).
pub uninterp spec fn tensor_ids(t: Tensor) -> Seq<u32>;

/// The dimensions of a tensor.
pub uninterp spec fn tensor_dims(t: Tensor) -> Seq<usize>;

/// The device is candle's CPU device (`Device::Cpu`).
pub uninterp spec fn on_cpu(dev: Device) -> bool;

/// Gives `candle_core::Device::Cpu`, candle's CPU device.
#[verifier::external_body]
fn cpu_device() -> (dev: Device)
    ensures
        on_cpu(dev),
{
    Device::Cpu
}

/// Calls `candle_core::Tensor::from_vec(ids, (rows, cols), dev)`. When it succeeds,
/// the tensor holds `ids` row by row and has dimensions `rows` × `cols` (candle
/// takes the data as the storage and the pair as the shape). On the CPU device it
/// succeeds whenever there are `rows * cols` ids (candle refuses another count,
/// and the CPU takes the data without fail); on another device, whether it
/// succeeds is not claimed. Candle multiplies `rows` by `cols`, which `requires`
/// keeps from overflowing.
#[verifier::external_body]
fn ids_tensor(ids: Vec<u32>, rows: usize, cols: usize, dev: &Device) -> (r: Result<
    Tensor,
    candle_core::Error,
>)
    requires
        rows * cols <= usize::MAX,
    ensures
        r matches Ok(t) ==> tensor_ids(t) == ids@ && tensor_dims(t) == seq![rows, cols],
        on_cpu(*dev) && ids@.len() == rows * cols ==> r is Ok,
{
    Tensor::from_vec(ids, (rows, cols), dev)
}

/// The windows of `data` of length `block` that start `shift` after each start,
/// one after the other.
pub open spec fn windows(data: Seq<u32>, starts: Seq<usize>, block: nat, shift: nat) -> Seq<u32>
    decreases starts.len(),
{
    if starts.len() == 0 {
        seq![]
    } else {
        windows(data, starts.drop_last(), block, shift) + data.subrange(
            starts.last() + shift,
            starts.last() + shift + block,
        )
    }
}

/// Windows of `block` ids at `n` starts hold `n * block` ids.
pub proof fn lemma_windows_len(data: Seq<u32>, starts: Seq<usize>, block: nat, shift: nat)
    requires
        forall|r: int| 0 <= r < starts.len() ==> #[trigger] starts[r] + shift + block <= data.len(),
    ensures
        windows(data, starts, block, shift).len() == starts.len() * block,
    decreases starts.len(),
{
    if starts.len() > 0 {
        let prev = starts.drop_last();
        assert forall|r: int| 0 <= r < prev.len() implies #[trigger] prev[r] + shift + block
            <= data.len() by {
            assert(prev[r] == starts[r]);
        }
        lemma_windows_len(data, prev, block, shift);
        assert(starts.last() == starts[starts.len() - 1]);
        assert((prev.len() + 1) * block == prev.len() * block + block) by (nonlinear_arith);
    }
}

/// `starts` are `batch` window starts drawn from `0..data.len() - block - 1`.
pub open spec fn valid_starts(data: Seq<u32>, starts: Seq<usize>, batch: nat, block: nat) -> bool {
    &&& starts.len() == batch
    &&& forall|r: int| 0 <= r < batch ==> #[trigger] starts[r] + block + 1 < data.len()
}

/// `batch` random windows of `block` ids (the inputs) and the same windows shifted
/// by one id (the targets the model must predict).
pub fn sample_windows(data: &[u32], batch: usize, block: usize) -> (r: (Vec<u32>, Vec<u32>))
    requires
        batch > 0 ==> data@.len() > block + 1,
        batch * block <= usize::MAX,
    ensures
        exists|starts: Seq<usize>|
            {
                &&& valid_starts(data@, starts, batch as nat, block as nat)
                &&& r.0@ == windows(data@, starts, block as nat, 0)
                &&& r.1@ == windows(data@, starts, block as nat, 1)
            },
{
    let mut starts: Vec<usize> = Vec::with_capacity(batch);
    for k in 0..batch
        invariant
            batch > 0 ==> data@.len() > block + 1,
            valid_starts(data@, starts@, k as nat, block as nat),
    {
        let i = random_usize(0, data.len() - block - 1);
        starts.push(i);
    }
    windows_at(data, starts.as_slice(), block)
}

/// The windows of `block` ids at the given starts (the inputs) and the same
/// windows shifted by one id (the targets).
pub fn windows_at(data: &[u32], starts: &[usize], block: usize) -> (r: (Vec<u32>, Vec<u32>))
    requires
        forall|k: int| 0 <= k < starts@.len() ==> #[trigger] starts@[k] + block + 1 <= data@.len(),
        starts@.len() * block <= usize::MAX,
    ensures
        r.0@ == windows(data@, starts@, block as nat, 0),
        r.1@ == windows(data@, starts@, block as nat, 1),
{
    let mut xs: Vec<u32> = Vec::with_capacity(starts.len() * block);
    let mut ys: Vec<u32> = Vec::with_capacity(starts.len() * block);
    assert(data@.len() == data.len());
    for k in 0..starts.len()
        invariant
            data@.len() <= usize::MAX,
            forall|m: int| 0 <= m < starts@.len() ==> #[trigger] starts@[m] + block + 1 <= data@.len(),
            xs@ == windows(data@, starts@.take(k as int), block as nat, 0),
            ys@ == windows(data@, starts@.take(k as int), block as nat, 1),
    {
        let i = starts[k];
        assert(i + block + 1 <= data@.len());
        xs.extend_from_slice(vstd::slice::slice_subrange(data, i, i + block));
        ys.extend_from_slice(vstd::slice::slice_subrange(data, i + 1, i + block + 1));
        proof {
            assert(starts@.take(k + 1).drop_last() == starts@.take(k as int));
            assert(starts@.take(k + 1).last() == i);
            assert(xs@ =~= windows(data@, starts@.take(k + 1), block as nat, 0));
            assert(ys@ =~= windows(data@, starts@.take(k + 1), block as nat, 1));
        }
    }
    assert(starts@.take(starts@.len() as int) == starts@);
    (xs, ys)
}

/// A training batch: `batch` random windows of `block` ids as a `batch` × `block`
/// tensor, and the windows shifted by one as the targets. On the CPU device it
/// always succeeds; an error is candle's, from building a tensor on another
/// device.
pub fn sample_batch(data: &[u32], batch: usize, block: usize, dev: &Device) -> (r: Result<
    (Tensor, Tensor),
    candle_core::Error,
>)
    requires
        batch > 0 ==> data@.len() > block + 1,
        batch * block <= usize::MAX,
    ensures
        on_cpu(*dev) ==> r is Ok,
        r matches Ok((x, y)) ==> exists|starts: Seq<usize>|
            {
                &&& valid_starts(data@, starts, batch as nat, block as nat)
                &&& tensor_ids(x) == windows(data@, starts, block as nat, 0)
                &&& tensor_ids(y) == windows(data@, starts, block as nat, 1)
                &&& tensor_dims(x) == seq![batch, block]
                &&& tensor_dims(y) == seq![batch, block]
            },
{
    let (xs, ys) = sample_windows(data, batch, block);
    let ghost starts = choose|starts: Seq<usize>|
        {
            &&& valid_starts(data@, starts, batch as nat, block as nat)
            &&& xs@ == windows(data@, starts, block as nat, 0)
            &&& ys@ == windows(data@, starts, block as nat, 1)
        };
    let ghost xv = xs@;
    let ghost yv = ys@;
    proof {
        assert forall|r: int| 0 <= r < starts.len() implies #[trigger] starts[r] + 0 + block
            <= data@.len() by {
            assert(starts[r] + block + 1 < data@.len());
        }
        assert forall|r: int| 0 <= r < starts.len() implies #[trigger] starts[r] + 1 + block
            <= data@.len() by {
            assert(starts[r] + block + 1 < data@.len());
        }
        lemma_windows_len(data@, starts, block as nat, 0);
        lemma_windows_len(data@, starts, block as nat, 1);
    }
    let x = ids_tensor(xs, batch, block, dev)?;
    let y = ids_tensor(ys, batch, block, dev)?;
    assert(tensor_ids(x) == xv && tensor_ids(y) == yv);
    Ok((x, y))
}

/// The number of windows in a training batch.
pub const TRAINING_BATCH: usize = 32;

/// The batch of one training step: `TRAINING_BATCH` random windows of the model's
/// `block_size` ids and their targets, as tensors on the CPU. It always succeeds.
pub fn training_batch(corpus_ids: &[u32], cfg: &Config) -> (r: Result<
    (Tensor, Tensor),
    candle_core::Error,
>)
    requires
        corpus_ids@.len() > cfg.block_size + 1,
        TRAINING_BATCH * cfg.block_size <= usize::MAX,
    ensures
        r matches Ok((x, y)) && exists|starts: Seq<usize>|
            {
                &&& valid_starts(corpus_ids@, starts, TRAINING_BATCH as nat, cfg.block_size as nat)
                &&& tensor_ids(x) == windows(corpus_ids@, starts, cfg.block_size as nat, 0)
                &&& tensor_ids(y) == windows(corpus_ids@, starts, cfg.block_size as nat, 1)
                &&& tensor_dims(x) == seq![TRAINING_BATCH, cfg.block_size]
                &&& tensor_dims(y) == seq![TRAINING_BATCH, cfg.block_size]
            },
{
    let dev = cpu_device();
    sample_batch(corpus_ids, TRAINING_BATCH, cfg.block_size, &dev)
}

/// The positions a line is scored on: `None` for fewer than two ids (the line then
/// has perplexity 1); otherwise, with `n` the number of ids capped at
/// `block_size + 1`, the first `n - 1` ids as inputs and the `n - 1` ids after each
/// of them as the targets.
pub fn scoring_window(ids: &[u32], block_size: usize) -> (r: Option<(Vec<u32>, Vec<u32>)>)
    requires
        block_size < usize::MAX,
    ensures
        r is None <==> ids@.len() < 2,
        r matches Some((x, t)) ==> {
            let n = if ids@.len() < block_size + 1 {
                ids@.len() as int
            } else {
                block_size + 1
            };
            &&& x@ == ids@.subrange(0, n - 1)
            &&& t@ == ids@.subrange(1, n)
        },
{
    if ids.len() < 2 {
        return None;
    }
    let n = if ids.len() < block_size + 1 {
        ids.len()
    } else {
        block_size + 1
    };
    let x = vstd::slice::slice_to_vec(vstd::slice::slice_subrange(ids, 0, n - 1));
    let t = vstd::slice::slice_to_vec(vstd::slice::slice_subrange(ids, 1, n));
    Some((x, t))
}

/// The scoring window of `line` under the tokenizer: its ids, cut as
/// `scoring_window` does.
pub fn line_scoring_window(tok: &CharTokenizer, line: &str, block_size: usize) -> (r: Option<
    (Vec<u32>, Vec<u32>),
>)
    requires
        block_size < usize::MAX,
    ensures
        ({
            let ids = encode_ids(tok@, line@);
            &&& r is None <==> ids.len() < 2
            &&& r matches Some((x, t)) ==> {
                let n = if ids.len() < block_size + 1 {
                    ids.len() as int
                } else {
                    block_size + 1
                };
                &&& x@ == ids.subrange(0, n - 1)
                &&& t@ == ids.subrange(1, n)
            }
        }),
{
    let ids = tok.encode(line);
    scoring_window(ids.as_slice(), block_size)
}

/// Whether training step `step` of `steps` reports its loss: every 500th step and
/// the last one.
pub fn should_report(step: usize, steps: usize) -> (r: bool)
    requires
        step < steps,
    ensures
        r == (step % 500 == 0 || step == steps - 1),
{
    step % 500 == 0 || step == steps - 1
}

/// How a freshly created weight is initialised.
#[derive(Clone, Copy, PartialEq, Eq, Structural, Debug)]
pub enum InitRule {
    /// All zeros (biases).
    Zeros,
    /// All ones (layer-norm gains).
    Ones,
    /// Uniform in `±1/sqrt(fan_in)`, as candle's linear layers.
    Uniform,
}

/// The rule for the weight named `name`.
pub open spec fn init_rule_for(name: Seq<char>) -> InitRule {
    if ends_with(name, "bias"@) {
        InitRule::Zeros
    } else if contains_text(name, "ln"@) && ends_with(name, "weight"@) {
        InitRule::Ones
    } else {
        InitRule::Uniform
    }
}

/// `name` holds the letters `l`, `n` side by side (the mark of a layer-norm weight).
pub open spec fn names_layer_norm(name: Seq<char>) -> bool {
    exists|i: int| 0 <= i && i + 1 < name.len() && #[trigger] name[i] == 'l' && name[i + 1] == 'n'
}

/// The three classes of weights, stated letter by letter: a name that ends in
/// `bias` is zeroed; a name that ends in `weight` and holds `ln` gets ones; every
/// other name (a weight without `ln`, whatever other letters it holds) is uniform.
pub proof fn lemma_init_rule_classes(name: Seq<char>)
    ensures
        (init_rule_for(name) == InitRule::Zeros) == ends_with(name, seq!['b', 'i', 'a', 's']),
        (init_rule_for(name) == InitRule::Ones) == (!ends_with(name, seq!['b', 'i', 'a', 's'])
            && ends_with(name, seq!['w', 'e', 'i', 'g', 'h', 't']) && names_layer_norm(name)),
        (init_rule_for(name) == InitRule::Uniform) == (!ends_with(name, seq!['b', 'i', 'a', 's'])
            && !(ends_with(name, seq!['w', 'e', 'i', 'g', 'h', 't']) && names_layer_norm(name))),
{
    reveal_strlit("bias");
    reveal_strlit("ln");
    reveal_strlit("weight");
    assert("bias"@ =~= seq!['b', 'i', 'a', 's']);
    assert("weight"@ =~= seq!['w', 'e', 'i', 'g', 'h', 't']);
    assert("ln"@ =~= seq!['l', 'n']);
    if contains_text(name, "ln"@) {
        let i = choose|i: int| occurs_at(name, "ln"@, i);
        assert(name.subrange(i, i + 2)[0] == name[i]);
        assert(name.subrange(i, i + 2)[1] == name[i + 1]);
    }
    if names_layer_norm(name) {
        let i = choose|i: int|
            0 <= i && i + 1 < name.len() && #[trigger] name[i] == 'l' && name[i + 1] == 'n';
        assert(name.subrange(i, i + 2) =~= "ln"@);
        assert(occurs_at(name, "ln"@, i));
    }
}

/// The initialisation rule for the weight named `name`: biases are zero,
/// layer-norm weights (names that hold `ln` and end in `weight`) one, everything
/// else uniform.
pub fn init_rule(name: &str) -> (r: InitRule)
    ensures
        r == init_rule_for(name@),
        (r == InitRule::Zeros) == ends_with(name@, seq!['b', 'i', 'a', 's']),
        (r == InitRule::Ones) == (!ends_with(name@, seq!['b', 'i', 'a', 's'])
            && ends_with(name@, seq!['w', 'e', 'i', 'g', 'h', 't']) && names_layer_norm(name@)),
        (r == InitRule::Uniform) == (!ends_with(name@, seq!['b', 'i', 'a', 's'])
            && !(ends_with(name@, seq!['w', 'e', 'i', 'g', 'h', 't']) && names_layer_norm(name@))),
{
    proof {
        lemma_init_rule_classes(name@);
    }
    if ends_with_str(name, "bias") {
        InitRule::Zeros
    } else if contains_str(name, "ln") && ends_with_str(name, "weight") {
        InitRule::Ones
    } else {
        InitRule::Uniform
    }
}

/// The texts come in lexicographic order.
pub open spec fn sorted_texts(t: Seq<Seq<char>>) -> bool {
    forall|i: int, j: int| 0 <= i < j < t.len() ==> text_le(#[trigger] t[i], #[trigger] t[j])
}

/// The order in which the weights are visited at initialisation: their names in
/// lexicographic order (the order that `sort` gives `String`s), so that the random
/// draws come in the same sequence on every run. Equal names keep their order.
pub fn init_visit_order<'a>(names: &[&'a str]) -> (r: Vec<&'a str>)
    ensures
        texts(r@).to_multiset() == texts(names@).to_multiset(),
        sorted_texts(texts(r@)),
{
    let mut r: Vec<&'a str> = Vec::new();
    assert(texts(r@) =~= texts(names@.take(0)));
    for k in 0..names.len()
        invariant
            texts(r@).to_multiset() == texts(names@.take(k as int)).to_multiset(),
            sorted_texts(texts(r@)),
    {
        let x = names[k];
        let xc = chars_of(x);
        let mut p: usize = 0;
        let mut found = false;
        while p < r.len() && !found
            invariant
                p <= r@.len(),
                xc@ == x@,
                forall|j: int| 0 <= j < p ==> !text_lt(x@, #[trigger] texts(r@)[j]),
                found ==> p < r@.len() && text_lt(x@, texts(r@)[p as int]),
            decreases r@.len() - p + (if found { 0int } else { 1int }),
        {
            let rc = chars_of(r[p]);
            assert(texts(r@)[p as int] == r@[p as int]@);
            if text_less(&xc, &rc) {
                found = true;
            } else {
                p = p + 1;
            }
        }
        let ghost t = texts(r@);
        r.insert(p, x);
        proof {
            let u = texts(r@);
            assert(u =~= t.insert(p as int, x@));
            assert(names@.take(k + 1) =~= names@.take(k as int).push(x));
            assert(texts(names@.take(k + 1)) =~= texts(names@.take(k as int)).push(x@));
            vstd::seq_lib::to_multiset_insert(t, p as int, x@);
            vstd::seq_lib::to_multiset_build(texts(names@.take(k as int)), x@);
            assert forall|i: int, j: int| 0 <= i < j < u.len() implies text_le(
                #[trigger] u[i],
                #[trigger] u[j],
            ) by {
                if j < p {
                    assert(u[i] == t[i] && u[j] == t[j]);
                } else if j == p {
                    assert(u[i] == t[i]);
                    assert(!text_lt(x@, t[i]));
                    lemma_text_lt_total(x@, t[i]);
                } else if i < p {
                    assert(u[i] == t[i] && u[j] == t[j - 1]);
                } else if i == p {
                    assert(u[j] == t[j - 1]);
                    assert(found);
                    assert(text_le(t[p as int], t[j - 1]));
                    if t[p as int] != t[j - 1] {
                        lemma_text_lt_transitive(x@, t[p as int], t[j - 1]);
                    }
                } else {
                    assert(u[i] == t[i - 1] && u[j] == t[j - 1]);
                }
            }
        }
    }
    assert(names@.take(names@.len() as int) =~= names@);
    r
}

} // verus!
