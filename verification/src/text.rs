use vstd::prelude::*;

verus! {

/// The characters of `s`, in order.
pub fn chars_of(s: &str) -> (out: Vec<char>)
    ensures
        out@ == s@,
{
    let mut out: Vec<char> = Vec::new();
    for c in it: s.chars()
        invariant
            it.seq() == s@,
            out@ == it.seq().take(it.index() as int),
    {
        out.push(c);
    }
    out
}

/// The Unicode scalar value of `c`.
pub fn code_of(c: char) -> (k: u32)
    ensures
        k as int == c as int,
{
    c as u32
}

/// Appends one character: calls `String::push`.
#[verifier::external_body]
pub fn push_char(s: &mut String, c: char)
    ensures
        final(s)@ == old(s)@.push(c),
{
    s.push(c)
}

/// Whether `a` and `b` hold the same characters: calls `<str as PartialEq>::eq`.
#[verifier::external_body]
pub fn str_eq(a: &str, b: &str) -> (r: bool)
    ensures
        r == (a@ == b@),
{
    a == b
}

/// The character of decimal digit `d`.
pub open spec fn digit_char(d: int) -> char {
    if d <= 0 {
        '0'
    } else if d == 1 {
        '1'
    } else if d == 2 {
        '2'
    } else if d == 3 {
        '3'
    } else if d == 4 {
        '4'
    } else if d == 5 {
        '5'
    } else if d == 6 {
        '6'
    } else if d == 7 {
        '7'
    } else if d == 8 {
        '8'
    } else {
        '9'
    }
}

/// The decimal representation of `n`, without leading zeros.
pub open spec fn decimal(n: nat) -> Seq<char>
    decreases n,
{
    if n < 10 {
        seq![digit_char(n as int)]
    } else {
        decimal(n / 10).push(digit_char((n % 10) as int))
    }
}

fn digit(d: u32) -> (c: char)
    requires
        d < 10,
    ensures
        c == digit_char(d as int),
{
    match d {
        0 => '0',
        1 => '1',
        2 => '2',
        3 => '3',
        4 => '4',
        5 => '5',
        6 => '6',
        7 => '7',
        8 => '8',
        _ => '9',
    }
}

/// Appends the decimal representation of `n`.
pub fn push_decimal(s: &mut String, n: u32)
    ensures
        final(s)@ == old(s)@ + decimal(n as nat),
    decreases n,
{
    if n >= 10 {
        push_decimal(s, n / 10);
    }
    push_char(s, digit(n % 10));
    proof {
        if n >= 10 {
            assert(decimal(n as nat) == decimal((n / 10) as nat).push(digit_char((n % 10) as int)));
        }
    }
}

/// The decimal representation of a number below 1000 has at most three digits.
pub proof fn lemma_decimal_short(n: nat)
    requires
        n < 1000,
    ensures
        decimal(n).len() <= 3,
{
    if n >= 10 {
        let m = n / 10;
        if m >= 10 {
            assert(m / 10 < 10);
            assert(decimal(m) == decimal(m / 10).push(digit_char((m % 10) as int)));
        }
        assert(decimal(n) == decimal(m).push(digit_char((n % 10) as int)));
    }
}

/// The decimal representation consists of digits only.
pub proof fn lemma_decimal_digits(n: nat)
    ensures
        forall|i: int| 0 <= i < decimal(n).len() ==> '0' <= #[trigger] decimal(n)[i] <= '9',
    decreases n,
{
    if n >= 10 {
        lemma_decimal_digits(n / 10);
        assert(decimal(n) == decimal(n / 10).push(digit_char((n % 10) as int)));
    }
}

/// `t` holds no space.
pub open spec fn no_space(t: Seq<char>) -> bool {
    !t.contains(' ')
}

/// The tokens of `t` joined by single spaces.
pub open spec fn spaced(t: Seq<Seq<char>>) -> Seq<char>
    decreases t.len(),
{
    if t.len() == 0 {
        seq![]
    } else if t.len() == 1 {
        t[0]
    } else {
        t[0] + seq![' '] + spaced(t.drop_first())
    }
}

/// Splitting at the first space: the part before it holds no space.
pub proof fn lemma_split_at_space(a: Seq<char>, b: Seq<char>, c: Seq<char>, d: Seq<char>)
    requires
        no_space(a),
        no_space(c),
        a + seq![' '] + b == c + seq![' '] + d,
    ensures
        a == c,
        b == d,
{
    let x = a + seq![' '] + b;
    let y = c + seq![' '] + d;
    if a.len() < c.len() {
        assert(x[a.len() as int] == ' ');
        assert(y[a.len() as int] == c[a.len() as int]);
        assert(c.contains(' '));
    } else if c.len() < a.len() {
        assert(y[c.len() as int] == ' ');
        assert(x[c.len() as int] == a[c.len() as int]);
        assert(a.contains(' '));
    }
    assert(a =~= x.subrange(0, a.len() as int));
    assert(c =~= y.subrange(0, c.len() as int));
    assert(b =~= x.subrange(a.len() as int + 1, x.len() as int));
    assert(d =~= y.subrange(c.len() as int + 1, y.len() as int));
}

/// Two equally long lists of space-free tokens that join to the same text are equal.
pub proof fn lemma_spaced_injective(t: Seq<Seq<char>>, u: Seq<Seq<char>>)
    requires
        t.len() == u.len(),
        forall|i: int| 0 <= i < t.len() ==> no_space(#[trigger] t[i]),
        forall|i: int| 0 <= i < u.len() ==> no_space(#[trigger] u[i]),
        spaced(t) == spaced(u),
    ensures
        t == u,
    decreases t.len(),
{
    if t.len() >= 2 {
        lemma_split_at_space(t[0], spaced(t.drop_first()), u[0], spaced(u.drop_first()));
        assert forall|i: int| 0 <= i < t.len() - 1 implies no_space(#[trigger] t.drop_first()[i]) by {
            assert(t.drop_first()[i] == t[i + 1]);
        }
        assert forall|i: int| 0 <= i < u.len() - 1 implies no_space(#[trigger] u.drop_first()[i]) by {
            assert(u.drop_first()[i] == u[i + 1]);
        }
        lemma_spaced_injective(t.drop_first(), u.drop_first());
        assert(t =~= seq![t[0]] + t.drop_first());
        assert(u =~= seq![u[0]] + u.drop_first());
    }
    assert(t =~= u);
}

/// Six tokens joined by spaces.
pub proof fn lemma_spaced_six(t: Seq<Seq<char>>)
    requires
        t.len() == 6,
    ensures
        spaced(t) == t[0] + seq![' '] + t[1] + seq![' '] + t[2] + seq![' '] + t[3] + seq![' ']
            + t[4] + seq![' '] + t[5],
{
    let t1 = t.drop_first();
    let t2 = t1.drop_first();
    let t3 = t2.drop_first();
    let t4 = t3.drop_first();
    let t5 = t4.drop_first();
    assert(spaced(t5) == t[5]);
    assert(spaced(t4) == t[4] + seq![' '] + t[5]);
    assert(spaced(t3) == t[3] + seq![' '] + spaced(t4));
    assert(spaced(t2) == t[2] + seq![' '] + spaced(t3));
    assert(spaced(t1) == t[1] + seq![' '] + spaced(t2));
    assert(spaced(t) == t[0] + seq![' '] + spaced(t1));
    assert(spaced(t) =~= t[0] + seq![' '] + t[1] + seq![' '] + t[2] + seq![' '] + t[3] + seq![' ']
        + t[4] + seq![' '] + t[5]);
}

/// Two texts without spaces joined make a text without spaces.
pub proof fn lemma_concat_no_space(a: Seq<char>, b: Seq<char>)
    requires
        no_space(a),
        no_space(b),
    ensures
        no_space(a + b),
{
    if (a + b).contains(' ') {
        let i = choose|i: int| 0 <= i < (a + b).len() && (a + b)[i] == ' ';
        if i < a.len() {
            assert(a[i] == ' ');
        } else {
            assert(b[i - a.len()] == ' ');
        }
    }
}

/// A joined text holds a character only when one of its parts does.
pub proof fn lemma_concat_lacks(a: Seq<char>, b: Seq<char>, c: char)
    requires
        !a.contains(c),
        !b.contains(c),
    ensures
        !(a + b).contains(c),
{
    if (a + b).contains(c) {
        let i = choose|i: int| 0 <= i < (a + b).len() && (a + b)[i] == c;
        if i < a.len() {
            assert(a[i] == c);
        } else {
            assert(b[i - a.len()] == c);
        }
    }
}

/// A common prefix cancels.
pub proof fn lemma_cancel_prefix(p: Seq<char>, a: Seq<char>, b: Seq<char>)
    requires
        p + a == p + b,
    ensures
        a == b,
{
    assert(a =~= (p + a).subrange(p.len() as int, (p + a).len() as int));
    assert(b =~= (p + b).subrange(p.len() as int, (p + b).len() as int));
}

/// A common suffix cancels.
pub proof fn lemma_cancel_suffix(a: Seq<char>, b: Seq<char>, q: Seq<char>)
    requires
        a + q == b + q,
    ensures
        a == b,
{
    assert(a.len() == b.len()) by {
        assert((a + q).len() == a.len() + q.len());
        assert((b + q).len() == b.len() + q.len());
        assert((a + q).len() == (b + q).len());
    }
    assert(a =~= (a + q).subrange(0, a.len() as int));
    assert(b =~= (b + q).subrange(0, b.len() as int));
}

/// Decimal representations hold no space.
pub proof fn lemma_decimal_no_space(n: nat)
    ensures
        no_space(decimal(n)),
{
    lemma_decimal_digits(n);
    if decimal(n).contains(' ') {
        let i = choose|i: int| 0 <= i < decimal(n).len() && decimal(n)[i] == ' ';
        assert('0' <= decimal(n)[i] <= '9');
    }
}

/// The lines of `lines`, each followed by a newline.
pub open spec fn newline_terminated(lines: Seq<Seq<char>>) -> Seq<char>
    decreases lines.len(),
{
    if lines.len() == 0 {
        seq![]
    } else {
        newline_terminated(lines.drop_last()) + lines.last() + seq!['\n']
    }
}

/// `pat` occurs in `s` at position `i`.
pub open spec fn occurs_at(s: Seq<char>, pat: Seq<char>, i: int) -> bool {
    &&& 0 <= i
    &&& i + pat.len() <= s.len()
    &&& s.subrange(i, i + pat.len()) == pat
}

/// `pat` occurs somewhere in `s`.
pub open spec fn contains_text(s: Seq<char>, pat: Seq<char>) -> bool {
    exists|i: int| occurs_at(s, pat, i)
}

/// `i` is the first position where `pat` occurs in `s`.
pub open spec fn is_first_occurrence(s: Seq<char>, pat: Seq<char>, i: int) -> bool {
    &&& occurs_at(s, pat, i)
    &&& forall|j: int| 0 <= j < i ==> !occurs_at(s, pat, j)
}

/// `s` with the first occurrence of `pat` replaced by `to`; `s` itself when `pat`
/// does not occur.
pub open spec fn replace_first(s: Seq<char>, pat: Seq<char>, to: Seq<char>) -> Seq<char> {
    if contains_text(s, pat) {
        let i = choose|i: int| is_first_occurrence(s, pat, i);
        s.subrange(0, i) + to + s.subrange(i + pat.len(), s.len() as int)
    } else {
        s
    }
}

/// `s` ends with `suffix`.
pub open spec fn ends_with(s: Seq<char>, suffix: Seq<char>) -> bool {
    suffix.len() <= s.len() && s.subrange(s.len() - suffix.len(), s.len() as int) == suffix
}

/// Whether `pat` occurs in `s` at position `i`.
fn matches_at(s: &Vec<char>, pat: &Vec<char>, i: usize) -> (r: bool)
    ensures
        r == occurs_at(s@, pat@, i as int),
{
    if i > s.len() || pat.len() > s.len() - i {
        return false;
    }
    let mut k: usize = 0;
    while k < pat.len()
        invariant
            s@.len() <= usize::MAX,
            i + pat@.len() <= s@.len(),
            k <= pat@.len(),
            forall|m: int| 0 <= m < k ==> s@[i + m] == pat@[m],
        decreases pat@.len() - k,
    {
        if s[i + k] != pat[k] {
            assert(s@.subrange(i as int, i + pat@.len())[k as int] != pat@[k as int]);
            return false;
        }
        k = k + 1;
    }
    assert(s@.subrange(i as int, i + pat@.len()) =~= pat@);
    true
}

/// The first position where `pat` occurs in `s`, if any.
fn find_first(s: &Vec<char>, pat: &Vec<char>) -> (r: Option<usize>)
    ensures
        match r {
            Some(i) => is_first_occurrence(s@, pat@, i as int),
            None => !contains_text(s@, pat@),
        },
{
    let mut i: usize = 0;
    while i < s.len()
        invariant
            i <= s@.len(),
            forall|j: int| 0 <= j < i ==> !occurs_at(s@, pat@, j),
        decreases s@.len() - i,
    {
        if matches_at(s, pat, i) {
            return Some(i);
        }
        i = i + 1;
    }
    if matches_at(s, pat, i) {
        return Some(i);
    }
    proof {
        assert forall|j: int| !occurs_at(s@, pat@, j) by {
            if j > s@.len() {
                assert(!(j + pat@.len() <= s@.len()));
            }
        }
    }
    None
}

/// `s` with its first occurrence of `pat` replaced by `to` (as `str::replacen` with
/// a count of 1).
pub fn replace_first_str(s: &str, pat: &str, to: &str) -> (r: String)
    ensures
        r@ == replace_first(s@, pat@, to@),
{
    let sc = chars_of(s);
    let pc = chars_of(pat);
    match find_first(&sc, &pc) {
        None => String::from_str(s),
        Some(i) => {
            let mut r = String::new();
            let mut k: usize = 0;
            while k < i
                invariant
                    i + pc@.len() <= sc@.len(),
                    k <= i,
                    r@ == sc@.subrange(0, k as int),
                decreases i - k,
            {
                push_char(&mut r, sc[k]);
                assert(sc@.subrange(0, k + 1) =~= sc@.subrange(0, k as int).push(sc@[k as int]));
                k = k + 1;
            }
            r.append(to);
            assert(sc@.len() == sc.len());
            let mut k: usize = i + pc.len();
            let ghost head = r@;
            while k < sc.len()
                invariant
                    i + pc@.len() <= k <= sc@.len(),
                    r@ == head + sc@.subrange(i + pc@.len(), k as int),
                decreases sc@.len() - k,
            {
                push_char(&mut r, sc[k]);
                assert(sc@.subrange(i + pc@.len(), k + 1) =~= sc@.subrange(
                    i + pc@.len(),
                    k as int,
                ).push(sc@[k as int]));
                k = k + 1;
            }
            proof {
                let j = choose|j: int| is_first_occurrence(s@, pat@, j);
                if j < i {
                } else if i < j {
                }
                assert(j == i);
            }
            r
        },
    }
}

/// Whether `s` ends with `suffix` (as `str::ends_with`).
pub fn ends_with_str(s: &str, suffix: &str) -> (r: bool)
    ensures
        r == ends_with(s@, suffix@),
{
    let sc = chars_of(s);
    let pc = chars_of(suffix);
    if pc.len() > sc.len() {
        return false;
    }
    matches_at(&sc, &pc, sc.len() - pc.len())
}

/// Whether `pat` occurs in `s` (as `str::contains` with a text pattern).
pub fn contains_str(s: &str, pat: &str) -> (r: bool)
    ensures
        r == contains_text(s@, pat@),
{
    let sc = chars_of(s);
    let pc = chars_of(pat);
    find_first(&sc, &pc).is_some()
}

/// Replacing the first occurrence of a pattern that occurs puts the replacement in.
pub proof fn lemma_replace_first_inserts(s: Seq<char>, pat: Seq<char>, to: Seq<char>)
    requires
        contains_text(s, pat),
    ensures
        contains_text(replace_first(s, pat, to), to),
{
    let i = choose|i: int| is_first_occurrence(s, pat, i);
    assert(is_first_occurrence(s, pat, i)) by {
        let k = choose|k: int| occurs_at(s, pat, k);
        lemma_first_occurrence_exists(s, pat, k);
    }
    let r = replace_first(s, pat, to);
    assert(r.subrange(i, i + to.len()) =~= to);
    assert(occurs_at(r, to, i));
}

/// Where a pattern occurs, it has a first occurrence.
proof fn lemma_first_occurrence_exists(s: Seq<char>, pat: Seq<char>, k: int)
    requires
        occurs_at(s, pat, k),
    ensures
        exists|i: int| is_first_occurrence(s, pat, i),
    decreases k,
{
    if forall|j: int| 0 <= j < k ==> !occurs_at(s, pat, j) {
        assert(is_first_occurrence(s, pat, k));
    } else {
        let j = choose|j: int| 0 <= j < k && occurs_at(s, pat, j);
        lemma_first_occurrence_exists(s, pat, j);
    }
}

/// `a` comes strictly before `b` in lexicographic order of code points (the order
/// of `String`s, whose UTF-8 bytes sort as their code points do).
pub open spec fn text_lt(a: Seq<char>, b: Seq<char>) -> bool
    decreases a.len(),
{
    if b.len() == 0 {
        false
    } else if a.len() == 0 {
        true
    } else if a[0] != b[0] {
        (a[0] as int) < (b[0] as int)
    } else {
        text_lt(a.drop_first(), b.drop_first())
    }
}

/// `a` comes before `b` or equals it.
pub open spec fn text_le(a: Seq<char>, b: Seq<char>) -> bool {
    a == b || text_lt(a, b)
}

/// Lexicographic order is irreflexive.
pub proof fn lemma_text_lt_irreflexive(a: Seq<char>)
    ensures
        !text_lt(a, a),
    decreases a.len(),
{
    if a.len() > 0 {
        lemma_text_lt_irreflexive(a.drop_first());
    }
}

/// Lexicographic order is transitive.
pub proof fn lemma_text_lt_transitive(a: Seq<char>, b: Seq<char>, c: Seq<char>)
    requires
        text_lt(a, b),
        text_lt(b, c),
    ensures
        text_lt(a, c),
    decreases a.len(),
{
    if a.len() > 0 && b.len() > 0 && c.len() > 0 && a[0] == b[0] && b[0] == c[0] {
        lemma_text_lt_transitive(a.drop_first(), b.drop_first(), c.drop_first());
    }
}

/// Lexicographic order is total.
pub proof fn lemma_text_lt_total(a: Seq<char>, b: Seq<char>)
    ensures
        a == b || text_lt(a, b) || text_lt(b, a),
    decreases a.len(),
{
    if a.len() > 0 && b.len() > 0 && a[0] == b[0] {
        lemma_text_lt_total(a.drop_first(), b.drop_first());
        if a.drop_first() == b.drop_first() {
            assert(a =~= seq![a[0]] + a.drop_first());
            assert(b =~= seq![b[0]] + b.drop_first());
        }
    } else if a.len() == 0 && b.len() == 0 {
        assert(a =~= b);
    } else if a.len() > 0 && b.len() > 0 {
        assert((a[0] as int) != (b[0] as int));
    }
}

/// Past a common prefix, the order is that of the rests.
proof fn lemma_text_lt_skip(a: Seq<char>, b: Seq<char>, i: int)
    requires
        0 <= i <= a.len(),
        i <= b.len(),
        forall|k: int| 0 <= k < i ==> a[k] == b[k],
    ensures
        text_lt(a, b) == text_lt(a.skip(i), b.skip(i)),
    decreases i,
{
    if i > 0 {
        lemma_text_lt_skip(a.drop_first(), b.drop_first(), i - 1);
        assert(a.drop_first().skip(i - 1) =~= a.skip(i));
        assert(b.drop_first().skip(i - 1) =~= b.skip(i));
    } else {
        assert(a.skip(0) =~= a);
        assert(b.skip(0) =~= b);
    }
}

/// Whether `a` comes strictly before `b` in lexicographic order of code points.
pub fn text_less(a: &Vec<char>, b: &Vec<char>) -> (r: bool)
    ensures
        r == text_lt(a@, b@),
{
    let mut i: usize = 0;
    while i < a.len() && i < b.len() && a[i] == b[i]
        invariant
            i <= a@.len(),
            i <= b@.len(),
            forall|k: int| 0 <= k < i ==> a@[k] == b@[k],
        decreases a@.len() - i,
    {
        i = i + 1;
    }
    proof {
        lemma_text_lt_skip(a@, b@, i as int);
    }
    if i == b.len() {
        false
    } else if i == a.len() {
        true
    } else {
        proof {
            assert(a@.skip(i as int)[0] == a@[i as int]);
            assert(b@.skip(i as int)[0] == b@[i as int]);
        }
        (code_of(a[i]) < code_of(b[i]))
    }
}

} // verus!
