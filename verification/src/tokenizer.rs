//! Character-level tokenizer: every distinct character of a corpus becomes an id,
//! ids being assigned in increasing order of the characters' code points.
use std::collections::BTreeMap;
use vstd::prelude::*;

use crate::text::{code_of, push_char};

verus! {

broadcast use {vstd::std_specs::btree::group_btree_axioms, vstd::laws_cmp::group_laws_cmp};

/// Characters sorted by strictly increasing code point (so without repetition).
pub open spec fn strictly_increasing(v: Seq<char>) -> bool {
    forall|i: int, j: int| 0 <= i < j < v.len() ==> (v[i] as int) < (v[j] as int)
}

/// `v` is the vocabulary of `text`: its distinct characters, sorted by code point.
pub open spec fn is_vocabulary_of(v: Seq<char>, text: Seq<char>) -> bool {
    &&& strictly_increasing(v)
    &&& v.to_set() == text.to_set()
}

/// The id of `c` under vocabulary `v`: its position there, or 0 for a character
/// outside the vocabulary.
pub open spec fn token_id(v: Seq<char>, c: char) -> u32 {
    if v.contains(c) {
        v.index_of(c) as u32
    } else {
        0
    }
}

/// The ids of the characters of `s`, one per character.
pub open spec fn encode_ids(v: Seq<char>, s: Seq<char>) -> Seq<u32> {
    Seq::new(s.len(), |i: int| token_id(v, s[i]))
}

/// The characters that the ids stand for.
pub open spec fn decode_ids(v: Seq<char>, ids: Seq<u32>) -> Seq<char> {
    Seq::new(ids.len(), |i: int| v[ids[i] as int])
}

pub struct CharTokenizer {
    stoi: BTreeMap<u32, u32>,
    itos: Vec<char>,
}

impl View for CharTokenizer {
    type V = Seq<char>;

    /// The vocabulary: the character of each id, in id order.
    closed spec fn view(&self) -> Seq<char> {
        self.itos@
    }
}

/// A character's code point is at most `0x10FFFF`.
proof fn lemma_char_range(c: char)
    ensures
        0 <= c as int <= 0x10FFFF,
{
}

/// Keys of a map iteration come in strictly increasing order.
proof fn lemma_increasing_keys(v: Seq<(&u32, &char)>)
    requires
        vstd::std_specs::btree::increasing_seq(v.map_values(|kv: (&u32, &char)| *kv.0)),
    ensures
        forall|i: int, j: int| 0 <= i < j < v.len() ==> *v[i].0 < *v[j].0,
{
    let s = v.map_values(|kv: (&u32, &char)| *kv.0);
    assert(vstd::laws_cmp::obeys_cmp::<u32>());
    assert forall|i: int, j: int| 0 <= i < j < v.len() implies *v[i].0 < *v[j].0 by {
        assert(s[i] == *v[i].0);
        assert(s[j] == *v[j].0);
        assert(vstd::std_specs::cmp::OrdSpec::cmp_spec(&s[i], &s[j]) is Less);
    }
}

impl CharTokenizer {
    #[verifier::type_invariant]
    spec fn well_formed(self) -> bool {
        &&& strictly_increasing(self.itos@)
        &&& forall|i: int|
            #![trigger self.itos@[i]]
            0 <= i < self.itos@.len() ==> {
                &&& self.stoi@.contains_key(self.itos@[i] as u32)
                &&& self.stoi@[self.itos@[i] as u32] as int == i
            }
        &&& forall|k: u32|
            #[trigger] self.stoi@.contains_key(k) ==> {
                &&& (self.stoi@[k] as int) < self.itos@.len()
                &&& self.itos@[self.stoi@[k] as int] as int == k as int
            }
    }

    /// Builds the tokenizer of `text`: its vocabulary is the set of characters of
    /// `text`, sorted by code point.
    pub fn from_corpus(text: &str) -> (tok: Self)
        ensures
            is_vocabulary_of(tok@, text@),
    {
        // the distinct characters, keyed by code point
        let mut seen: BTreeMap<u32, char> = BTreeMap::new();
        for c in it: text.chars()
            invariant
                it.seq() == text@,
                forall|k: u32| #[trigger]
                    seen@.contains_key(k) ==> seen@[k] as int == k as int && it.seq().take(
                        it.index() as int,
                    ).contains(seen@[k]),
                forall|j: int|
                    0 <= j < it.index() ==> seen@.contains_key(#[trigger] it.seq()[j] as u32),
        {
            let ghost prev = seen@;
            seen.insert(code_of(c), c);
            proof {
                let n = it.index() as int;
                assert(it.seq().take(n + 1) == it.seq().take(n).push(c));
                assert forall|k: u32| #[trigger]
                    seen@.contains_key(k) implies seen@[k] as int == k as int && it.seq().take(
                        n + 1,
                    ).contains(seen@[k]) by {
                    if k != c as u32 {
                        let w = choose|w: int| 0 <= w < n && it.seq().take(n)[w] == prev[k];
                        assert(it.seq().take(n + 1)[w] == seen@[k]);
                    } else {
                        assert(it.seq().take(n + 1)[n] == c);
                    }
                }
            }
        }
        assert(text@.take(text@.len() as int) == text@);

        let mut itos: Vec<char> = Vec::new();
        let mut stoi: BTreeMap<u32, u32> = BTreeMap::new();
        let ghost seen_map = seen@;
        let iter = seen.iter();
        let ghost v = vstd::std_specs::iter::IteratorSpec::remaining(&iter);
        proof {
            lemma_increasing_keys(v);
        }
        for item in it: iter
            invariant
                it.seq() == v,
                v.len() == seen_map.dom().len(),
                forall|i: int|
                    #![trigger v[i]]
                    0 <= i < v.len() ==> seen_map.contains_key(*v[i].0) && seen_map[*v[i].0]
                        == *v[i].1,
                forall|k: u32| #[trigger] seen_map.contains_key(k) ==> v.contains((&k, &seen_map[k])),
                forall|i: int, j: int| 0 <= i < j < v.len() ==> *v[i].0 < *v[j].0,
                forall|k: u32| #[trigger]
                    seen_map.contains_key(k) ==> seen_map[k] as int == k as int,
                itos@.len() == it.index(),
                forall|i: int| 0 <= i < it.index() ==> #[trigger] itos@[i] == *v[i].1,
                strictly_increasing(itos@),
                forall|i: int| 0 <= i < itos@.len() ==> (i as int) <= (#[trigger] itos@[i] as int),
                forall|i: int|
                    #![trigger itos@[i]]
                    0 <= i < itos@.len() ==> {
                        &&& stoi@.contains_key(itos@[i] as u32)
                        &&& stoi@[itos@[i] as u32] as int == i
                    },
                forall|k: u32|
                    #[trigger] stoi@.contains_key(k) ==> {
                        &&& (stoi@[k] as int) < itos@.len()
                        &&& itos@[stoi@[k] as int] as int == k as int
                    },
        {
            let (k, c) = item;
            let n = itos.len();
            proof {
                assert(v[n as int] == (k, c));
                assert(*c as int == *k as int);
                if n > 0 {
                    assert(itos@[n - 1] == *v[n - 1].1);
                    assert(*v[n - 1].0 < *k);
                    assert(seen_map.contains_key(*v[n - 1].0));
                    assert((n - 1) as int <= itos@[n - 1] as int);
                    assert(n as int <= *k as int);
                }
                lemma_char_range(*c);
                assert(n <= 0x10FFFF);
            }
            let ghost old_itos = itos@;
            let ghost old_stoi = stoi@;
            itos.push(*c);
            stoi.insert(*k, n as u32);
            proof {
                assert(stoi@ == old_stoi.insert(*k, n as u32));
                assert forall|k2: u32| #[trigger] stoi@.contains_key(k2) implies {
                    &&& (stoi@[k2] as int) < itos@.len()
                    &&& itos@[stoi@[k2] as int] as int == k2 as int
                } by {
                    if k2 != *k {
                        assert(old_stoi.contains_key(k2));
                        assert(itos@[old_stoi[k2] as int] == old_itos[old_stoi[k2] as int]);
                    }
                }
                assert forall|i: int|
                    #![trigger itos@[i]]
                    0 <= i < itos@.len() implies {
                        &&& stoi@.contains_key(itos@[i] as u32)
                        &&& stoi@[itos@[i] as u32] as int == i
                    } by {
                    if i < n {
                        assert(itos@[i] == old_itos[i]);
                        assert((itos@[i] as int) < (*k as int));
                    }
                }
            }
        }
        proof {
            assert forall|x: char| itos@.contains(x) <==> text@.contains(x) by {
                if itos@.contains(x) {
                    let i = choose|i: int| 0 <= i < itos@.len() && itos@[i] == x;
                    assert(seen_map.contains_key(*v[i].0));
                    let k = *v[i].0;
                    assert(text@.take(text@.len() as int).contains(seen_map[k]));
                }
                if text@.contains(x) {
                    let j = choose|j: int| 0 <= j < text@.len() && text@[j] == x;
                    lemma_char_range(x);
                    let k = x as u32;
                    assert(seen_map.contains_key(k));
                    assert(v.contains((&k, &seen_map[k])));
                    let i = choose|i: int| 0 <= i < v.len() && v[i] == (&k, &seen_map[k]);
                    assert(itos@[i] == seen_map[k]);
                    assert(seen_map[k] as int == x as int);
                }
            }
            assert(itos@.to_set() =~= text@.to_set());
        }
        CharTokenizer { stoi, itos }
    }

    /// The ids of the characters of `s`; a character outside the vocabulary gets id 0.
    pub fn encode(&self, s: &str) -> (ids: Vec<u32>)
        ensures
            ids@ == encode_ids(self@, s@),
    {
        proof {
            use_type_invariant(self);
        }
        let mut ids: Vec<u32> = Vec::new();
        for c in it: s.chars()
            invariant
                it.seq() == s@,
                ids@.len() == it.index(),
                forall|i: int| 0 <= i < it.index() ==> ids@[i] == token_id(self@, #[trigger] s@[i]),
        {
            let id: u32 = match self.stoi.get(&code_of(c)) {
                Some(v) => *v,
                None => 0,
            };
            proof {
                use_type_invariant(self);
                let v = self.itos@;
                if v.contains(c) {
                    let i = choose|i: int| 0 <= i < v.len() && v[i] == c;
                    assert(self.stoi@.contains_key(v[i] as u32));
                    let j = v.index_of(c);
                    assert(v[j] == c);
                    assert(i == j);
                } else {
                    if self.stoi@.contains_key(c as u32) {
                        let i = self.stoi@[c as u32] as int;
                        assert(v[i] == c);
                    }
                }
            }
            ids.push(id);
        }
        ids
    }

    /// The characters that `ids` stand for.
    pub fn decode(&self, ids: &[u32]) -> (s: String)
        requires
            forall|i: int| 0 <= i < ids@.len() ==> (ids@[i] as int) < self@.len(),
        ensures
            s@ == decode_ids(self@, ids@),
    {
        let mut s = String::new();
        let mut i: usize = 0;
        while i < ids.len()
            invariant
                i <= ids@.len(),
                forall|j: int| 0 <= j < ids@.len() ==> (ids@[j] as int) < self@.len(),
                s@ == decode_ids(self@, ids@.take(i as int)),
            decreases ids@.len() - i,
        {
            let c = self.itos[ids[i] as usize];
            push_char(&mut s, c);
            assert(ids@.take(i + 1) == ids@.take(i as int).push(ids@[i as int]));
            i = i + 1;
        }
        assert(ids@.take(ids@.len() as int) == ids@);
        s
    }

    /// The number of distinct ids.
    pub fn vocab_size(&self) -> (n: usize)
        ensures
            n == self@.len(),
    {
        self.itos.len()
    }
}

/// In a vocabulary, the character of position `i` has code point at least `i`.
proof fn lemma_codes_at_least_position(v: Seq<char>, i: int)
    requires
        strictly_increasing(v),
        0 <= i < v.len(),
    ensures
        i <= v[i] as int,
    decreases i,
{
    lemma_char_range(v[i]);
    if i > 0 {
        lemma_codes_at_least_position(v, i - 1);
        assert((v[i - 1] as int) < (v[i] as int));
    }
}

/// A vocabulary has at most `0x110000` characters.
pub proof fn lemma_vocabulary_bounded(v: Seq<char>)
    requires
        strictly_increasing(v),
    ensures
        v.len() <= 0x110000,
{
    if v.len() > 0 {
        lemma_codes_at_least_position(v, v.len() - 1);
        lemma_char_range(v[v.len() - 1]);
    }
}

/// Encoding then decoding gives back every text whose characters all belong to the
/// vocabulary, and every id of such a text is below the vocabulary size.
pub proof fn lemma_round_trip(v: Seq<char>, s: Seq<char>)
    requires
        strictly_increasing(v),
        forall|i: int| 0 <= i < s.len() ==> v.contains(#[trigger] s[i]),
    ensures
        forall|i: int|
            0 <= i < s.len() ==> (#[trigger] encode_ids(v, s)[i] as int) < v.len(),
        decode_ids(v, encode_ids(v, s)) == s,
{
    lemma_vocabulary_bounded(v);
    let ids = encode_ids(v, s);
    assert forall|i: int| 0 <= i < s.len() implies (#[trigger] ids[i] as int) < v.len() && v[
        ids[i] as int] == s[i] by {
        assert(v.contains(s[i]));
        let j = v.index_of(s[i]);
        assert(0 <= j < v.len() && v[j] == s[i]);
    }
    assert(decode_ids(v, ids) =~= s);
}

/// The vocabulary of a corpus covers the corpus: the corpus encodes to ids below the
/// vocabulary size and decodes back to itself.
pub proof fn lemma_corpus_round_trip(v: Seq<char>, text: Seq<char>)
    requires
        is_vocabulary_of(v, text),
    ensures
        forall|i: int|
            0 <= i < text.len() ==> (#[trigger] encode_ids(v, text)[i] as int) < v.len(),
        decode_ids(v, encode_ids(v, text)) == text,
{
    assert forall|i: int| 0 <= i < text.len() implies v.contains(#[trigger] text[i]) by {
        assert(text.to_set().contains(text[i]));
        assert(v.to_set().contains(text[i]));
    }
    lemma_round_trip(v, text);
}

/// Two vocabularies of the same set of characters are equal.
proof fn lemma_sorted_unique(a: Seq<char>, b: Seq<char>)
    requires
        strictly_increasing(a),
        strictly_increasing(b),
        a.to_set() == b.to_set(),
    ensures
        a == b,
    decreases a.len(),
{
    if a.len() == 0 {
        if b.len() > 0 {
            assert(b.to_set().contains(b[0]));
        }
    } else {
        assert(a.to_set().contains(a[0]));
        assert(b.contains(a[0]));
        assert(b.len() > 0);
        assert(b.to_set().contains(b[0]));
        assert(a.contains(b[0]));
        assert(a[0] == b[0]) by {
            let i = choose|i: int| 0 <= i < b.len() && b[i] == a[0];
            let j = choose|j: int| 0 <= j < a.len() && a[j] == b[0];
            if i > 0 {
                assert((b[0] as int) < (b[i] as int));
                assert((a[0] as int) <= (a[j] as int));
            }
            if j > 0 {
                assert((a[0] as int) < (a[j] as int));
                assert((b[0] as int) <= (b[i] as int));
            }
        }
        let a1 = a.drop_first();
        let b1 = b.drop_first();
        assert forall|x: char| a1.contains(x) <==> b1.contains(x) by {
            if a1.contains(x) {
                let i = choose|i: int| 0 <= i < a1.len() && a1[i] == x;
                assert(a[i + 1] == x);
                assert(a.to_set().contains(x));
                let j = choose|j: int| 0 <= j < b.len() && b[j] == x;
                assert(j != 0);
                assert(b1[j - 1] == x);
            }
            if b1.contains(x) {
                let i = choose|i: int| 0 <= i < b1.len() && b1[i] == x;
                assert(b[i + 1] == x);
                assert(b.to_set().contains(x));
                let j = choose|j: int| 0 <= j < a.len() && a[j] == x;
                assert(j != 0);
                assert(a1[j - 1] == x);
            }
        }
        assert(a1.to_set() =~= b1.to_set());
        lemma_sorted_unique(a1, b1);
        assert(a =~= seq![a[0]] + a1);
        assert(b =~= seq![b[0]] + b1);
    }
}

/// The vocabulary depends only on the set of characters of the corpus: corpora with
/// the same characters, in any order and number, give the same vocabulary, and its
/// size is the number of distinct characters.
pub proof fn lemma_vocabulary_determined(v1: Seq<char>, t1: Seq<char>, v2: Seq<char>, t2: Seq<char>)
    requires
        is_vocabulary_of(v1, t1),
        is_vocabulary_of(v2, t2),
        t1.to_set() == t2.to_set(),
    ensures
        v1 == v2,
        v1.len() == t1.to_set().len(),
{
    lemma_sorted_unique(v1, v2);
    v1.unique_seq_to_set();
}

} // verus!
