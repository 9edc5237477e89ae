//! Assembling a training corpus from log lines.
use vstd::prelude::*;

use crate::synth::texts;
use crate::text::{newline_terminated, push_char};

verus! {

/// The lines joined by newlines (without a newline after the last one).
pub open spec fn joined(lines: Seq<Seq<char>>) -> Seq<char>
    decreases lines.len(),
{
    if lines.len() == 0 {
        seq![]
    } else if lines.len() == 1 {
        lines[0]
    } else {
        joined(lines.drop_last()) + seq!['\n'] + lines.last()
    }
}

/// The number of lines that go to training: the first nine tenths, rounded down;
/// the rest is held out.
pub fn training_cut(n_lines: usize) -> (cut: usize)
    requires
        n_lines * 9 <= usize::MAX,
    ensures
        cut == n_lines * 9 / 10,
        cut <= n_lines,
{
    n_lines * 9 / 10
}

/// The lines joined by newlines, plus a final newline.
pub fn join_lines(lines: &[&str]) -> (s: String)
    ensures
        s@ == joined(texts(lines@)) + seq!['\n'],
{
    let mut s = String::new();
    let ghost all = texts(lines@);
    for k in 0..lines.len()
        invariant
            all == texts(lines@),
            s@ == joined(all.take(k as int)),
    {
        if k > 0 {
            push_char(&mut s, '\n');
        }
        s.append(lines[k]);
        proof {
            assert(all.take(k + 1).drop_last() =~= all.take(k as int));
            assert(all[k as int] == lines@[k as int]@);
            assert(s@ =~= joined(all.take(k + 1)));
        }
    }
    assert(all.take(lines@.len() as int) =~= all);
    push_char(&mut s, '\n');
    s
}

/// For at least one line, joining by newlines and adding a final newline is
/// terminating every line by a newline.
pub proof fn lemma_joined_terminated(lines: Seq<Seq<char>>)
    requires
        lines.len() > 0,
    ensures
        joined(lines) + seq!['\n'] == newline_terminated(lines),
    decreases lines.len(),
{
    if lines.len() > 1 {
        lemma_joined_terminated(lines.drop_last());
        assert(joined(lines) + seq!['\n'] =~= newline_terminated(lines));
    } else {
        assert(lines.drop_last().len() == 0);
        assert(newline_terminated(lines.drop_last()) == Seq::<char>::empty());
        assert(lines.last() == lines[0]);
        assert(joined(lines) + seq!['\n'] =~= newline_terminated(lines));
    }
}

} // verus!
