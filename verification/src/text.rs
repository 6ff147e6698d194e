//! Character-level string helpers used throughout the library.
use vstd::prelude::*;

use crate::bindings::push_char;

verus! {

broadcast use vstd::string::group_string_axioms;

/// The view of an optional string.
pub open spec fn opt_view(o: Option<String>) -> Option<Seq<char>> {
    match o {
        Some(s) => Some(s@),
        None => None,
    }
}

/// The views of a sequence of strings.
pub open spec fn strings_view(v: Seq<String>) -> Seq<Seq<char>> {
    v.map_values(|s: String| s@)
}

/// ASCII letters and digits.
pub open spec fn is_ascii_alphanumeric(c: char) -> bool {
    ('a' <= c && c <= 'z') || ('A' <= c && c <= 'Z') || ('0' <= c && c <= '9')
}

/// ASCII hexadecimal digits, either case.
pub open spec fn is_ascii_hexdigit(c: char) -> bool {
    ('a' <= c && c <= 'f') || ('A' <= c && c <= 'F') || ('0' <= c && c <= '9')
}

/// `a` is a prefix of `s`.
pub open spec fn has_prefix(s: Seq<char>, a: Seq<char>) -> bool {
    a.len() <= s.len() && s.subrange(0, a.len() as int) == a
}

/// `a` is a suffix of `s`.
pub open spec fn has_suffix(s: Seq<char>, a: Seq<char>) -> bool {
    a.len() <= s.len() && s.subrange(s.len() - a.len(), s.len() as int) == a
}

/// `s` holds `a` starting at position `i`.
pub open spec fn occurs_at(s: Seq<char>, a: Seq<char>, i: int) -> bool {
    0 <= i && i + a.len() <= s.len() && s.subrange(i, i + a.len()) == a
}

/// Lexicographic order on character sequences, by code point (the order of `str`).
pub open spec fn seq_lt(a: Seq<char>, b: Seq<char>) -> bool
    decreases a.len(),
{
    if b.len() == 0 {
        false
    } else if a.len() == 0 {
        true
    } else if a[0] != b[0] {
        a[0] < b[0]
    } else {
        seq_lt(a.drop_first(), b.drop_first())
    }
}

/// The characters of `s`, in order.
pub fn chars_of(s: &str) -> (out: Vec<char>)
    ensures
        out@ == s@,
{
    let mut out: Vec<char> = Vec::new();
    for c in it: s.chars()
        invariant
            out@ == it.seq().take(it.index() as int),
    {
        out.push(c);
    }
    out
}

/// A string holding the characters `v[from..to]`.
pub fn string_of(v: &Vec<char>, from: usize, to: usize) -> (s: String)
    requires
        from <= to <= v.len(),
    ensures
        s@ == v@.subrange(from as int, to as int),
{
    let mut s = String::new();
    let mut i = from;
    while i < to
        invariant
            from <= i <= to <= v.len(),
            s@ == v@.subrange(from as int, i as int),
        decreases to - i,
    {
        push_char(&mut s, v[i]);
        i += 1;
    }
    s
}

/// Appends `t` to `s`.
pub fn append(s: &mut String, t: &str)
    ensures
        final(s)@ == old(s)@ + t@,
{
    let v = chars_of(t);
    let mut i: usize = 0;
    while i < v.len()
        invariant
            0 <= i <= v.len(),
            v@ == t@,
            s@ == old(s)@ + t@.subrange(0, i as int),
        decreases v.len() - i,
    {
        push_char(s, v[i]);
        i += 1;
    }
}

/// The decimal digit for `d` (below 10).
pub open spec fn digit_char(d: nat) -> char {
    (d + 0x30) as char
}

/// The decimal numeral of `n`, without leading zeros.
pub open spec fn decimal(n: nat) -> Seq<char>
    decreases n,
{
    if n < 10 {
        seq![digit_char(n)]
    } else {
        decimal(n / 10).push(digit_char(n % 10))
    }
}

/// The decimal numeral of `n`.
pub fn decimal_text(n: usize) -> (s: String)
    ensures
        s@ == decimal(n as nat),
    decreases n,
{
    let d: u8 = (n % 10) as u8;
    let c = (0x30u8 + d) as char;
    if n < 10 {
        let mut s = String::new();
        push_char(&mut s, c);
        assert(s@ =~= seq![digit_char(n as nat)]);
        s
    } else {
        let mut s = decimal_text(n / 10);
        push_char(&mut s, c);
        s
    }
}

/// Whether two character sequences are equal.
pub fn chars_equal(a: &Vec<char>, b: &Vec<char>) -> (eq: bool)
    ensures
        eq == (a@ == b@),
{
    if a.len() != b.len() {
        return false;
    }
    let mut i: usize = 0;
    while i < a.len()
        invariant
            0 <= i <= a.len(),
            a.len() == b.len(),
            a@.subrange(0, i as int) == b@.subrange(0, i as int),
        decreases a.len() - i,
    {
        if a[i] != b[i] {
            assert(a@[i as int] != b@[i as int]);
            return false;
        }
        assert(a@.subrange(0, i + 1) =~= a@.subrange(0, i as int).push(a@[i as int]));
        assert(b@.subrange(0, i + 1) =~= b@.subrange(0, i as int).push(b@[i as int]));
        i += 1;
    }
    assert(a@ =~= a@.subrange(0, a.len() as int));
    assert(b@ =~= b@.subrange(0, b.len() as int));
    true
}

/// Whether `s` reads exactly `t`.
pub fn str_equal(s: &str, t: &str) -> (eq: bool)
    ensures
        eq == (s@ == t@),
{
    let a = chars_of(s);
    let b = chars_of(t);
    chars_equal(&a, &b)
}

/// Whether `v` holds `a` starting at position `i`.
pub fn chars_occur_at(v: &Vec<char>, a: &Vec<char>, i: usize) -> (b: bool)
    ensures
        b == occurs_at(v@, a@, i as int),
{
    if i > v.len() || a.len() > v.len() - i {
        return false;
    }
    let mut k: usize = 0;
    while k < a.len()
        invariant
            0 <= k <= a.len(),
            i + a.len() <= v.len(),
            forall|j: int| 0 <= j < k ==> v@[i + j] == a@[j],
        decreases a.len() - k,
    {
        if v[i + k] != a[k] {
            assert(v@.subrange(i as int, i + a.len())[k as int] != a@[k as int]);
            return false;
        }
        k += 1;
    }
    assert(v@.subrange(i as int, i + a.len()) =~= a@);
    true
}

/// Strict lexicographic comparison of two character sequences.
pub fn chars_less(a: &Vec<char>, b: &Vec<char>) -> (lt: bool)
    ensures
        lt == seq_lt(a@, b@),
{
    let mut i: usize = 0;
    assert(a@.skip(0) =~= a@);
    assert(b@.skip(0) =~= b@);
    while i < a.len() && i < b.len()
        invariant
            0 <= i <= a.len(),
            i <= b.len(),
            a@.subrange(0, i as int) == b@.subrange(0, i as int),
            seq_lt(a@, b@) == seq_lt(a@.skip(i as int), b@.skip(i as int)),
        decreases a.len() - i,
    {
        if a[i] != b[i] {
            return a[i] < b[i];
        }
        assert(a@.skip(i as int).drop_first() =~= a@.skip(i + 1));
        assert(b@.skip(i as int).drop_first() =~= b@.skip(i + 1));
        assert(a@.subrange(0, i + 1) =~= a@.subrange(0, i as int).push(a@[i as int]));
        assert(b@.subrange(0, i + 1) =~= b@.subrange(0, i as int).push(b@[i as int]));
        i += 1;
    }
    i < b.len()
}

/// `a` is a proper prefix of `b`: shorter, and `b` starts with it.
pub open spec fn is_proper_prefix(a: Seq<char>, b: Seq<char>) -> bool {
    a.len() < b.len() && b.subrange(0, a.len() as int) == a
}

/// `a` and `b` agree before position `i`, and there `a` has the smaller
/// character.
pub open spec fn first_difference_smaller(a: Seq<char>, b: Seq<char>, i: int) -> bool {
    &&& 0 <= i < a.len()
    &&& i < b.len()
    &&& a.subrange(0, i) == b.subrange(0, i)
    &&& a[i] < b[i]
}

/// `seq_lt` is the order of `str`: `a` comes before `b` exactly when `a` is
/// a proper prefix of `b` (so the empty text comes first, and "go" before
/// "golang"), or at the first position where they differ `a` has the
/// smaller character.
pub proof fn law_seq_lt_is_text_order(a: Seq<char>, b: Seq<char>)
    ensures
        seq_lt(a, b) <==> (is_proper_prefix(a, b) || exists|i: int| first_difference_smaller(a, b, i)),
    decreases a.len(),
{
    if b.len() == 0 {
        assert(!is_proper_prefix(a, b));
        assert(forall|i: int| !first_difference_smaller(a, b, i));
    } else if a.len() == 0 {
        assert(b.subrange(0, 0) =~= a);
        assert(is_proper_prefix(a, b));
    } else if a[0] != b[0] {
        assert(!is_proper_prefix(a, b)) by {
            if is_proper_prefix(a, b) {
                assert(b.subrange(0, a.len() as int)[0] == a[0]);
            }
        }
        assert forall|i: int| first_difference_smaller(a, b, i) implies i == 0 by {
            if i > 0 {
                assert(a.subrange(0, i)[0] == b.subrange(0, i)[0]);
            }
        }
        assert(a.subrange(0, 0) =~= b.subrange(0, 0));
        if a[0] < b[0] {
            assert(first_difference_smaller(a, b, 0));
        }
    } else {
        let a1 = a.drop_first();
        let b1 = b.drop_first();
        law_seq_lt_is_text_order(a1, b1);
        assert(is_proper_prefix(a, b) <==> is_proper_prefix(a1, b1)) by {
            if is_proper_prefix(a, b) {
                assert(b1.subrange(0, a1.len() as int) =~= b.subrange(0, a.len() as int).drop_first());
            }
            if is_proper_prefix(a1, b1) {
                assert(b.subrange(0, a.len() as int) =~= seq![b[0]] + b1.subrange(0, a1.len() as int));
                assert(a =~= seq![a[0]] + a1);
            }
        }
        assert((exists|i: int| first_difference_smaller(a, b, i)) <==> (exists|i: int| first_difference_smaller(a1, b1, i))) by {
            if exists|i: int| first_difference_smaller(a, b, i) {
                let i = choose|i: int| first_difference_smaller(a, b, i);
                assert(i > 0);
                assert(a1.subrange(0, i - 1) =~= a.subrange(0, i).drop_first());
                assert(b1.subrange(0, i - 1) =~= b.subrange(0, i).drop_first());
                assert(first_difference_smaller(a1, b1, i - 1));
            }
            if exists|i: int| first_difference_smaller(a1, b1, i) {
                let i = choose|i: int| first_difference_smaller(a1, b1, i);
                assert(a.subrange(0, i + 1) =~= seq![a[0]] + a1.subrange(0, i));
                assert(b.subrange(0, i + 1) =~= seq![b[0]] + b1.subrange(0, i));
                assert(first_difference_smaller(a, b, i + 1));
            }
        }
    }
}

/// No sequence comes before itself.
pub proof fn lemma_seq_lt_irreflexive(a: Seq<char>)
    ensures
        !seq_lt(a, a),
    decreases a.len(),
{
    if a.len() > 0 {
        lemma_seq_lt_irreflexive(a.drop_first());
    }
}

/// The order is asymmetric.
pub proof fn lemma_seq_lt_asymmetric(a: Seq<char>, b: Seq<char>)
    ensures
        seq_lt(a, b) ==> !seq_lt(b, a),
    decreases a.len(),
{
    if a.len() > 0 && b.len() > 0 && a[0] == b[0] {
        lemma_seq_lt_asymmetric(a.drop_first(), b.drop_first());
    }
}

/// The order is transitive.
pub proof fn lemma_seq_lt_transitive(a: Seq<char>, b: Seq<char>, c: Seq<char>)
    requires
        seq_lt(a, b),
        seq_lt(b, c),
    ensures
        seq_lt(a, c),
    decreases a.len(),
{
    if a.len() > 0 && b.len() > 0 && c.len() > 0 && a[0] == b[0] && b[0] == c[0] {
        lemma_seq_lt_transitive(a.drop_first(), b.drop_first(), c.drop_first());
    }
}

/// Any two different sequences are ordered one way or the other.
pub proof fn lemma_seq_lt_total(a: Seq<char>, b: Seq<char>)
    ensures
        a == b || seq_lt(a, b) || seq_lt(b, a),
    decreases a.len(),
{
    if a.len() > 0 && b.len() > 0 {
        if a[0] == b[0] {
            lemma_seq_lt_total(a.drop_first(), b.drop_first());
            if a.drop_first() == b.drop_first() {
                assert(a =~= seq![a[0]] + a.drop_first());
                assert(b =~= seq![b[0]] + b.drop_first());
            }
        }
    } else if a.len() == 0 && b.len() == 0 {
        assert(a =~= b);
    }
}

} // verus!
