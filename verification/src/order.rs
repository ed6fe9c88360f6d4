//! The lexicographic order of texts, by code point.

use vstd::prelude::*;
use vstd::string::*;

verus! {

/// `a` comes before `b`, or they are equal.
pub open spec fn lex_le(a: Seq<char>, b: Seq<char>) -> bool
    decreases a.len(),
{
    if a.len() == 0 {
        true
    } else if b.len() == 0 {
        false
    } else if a[0] != b[0] {
        a[0] < b[0]
    } else {
        lex_le(a.drop_first(), b.drop_first())
    }
}

/// Every text comes before itself or is equal.
pub proof fn lemma_lex_reflexive(a: Seq<char>)
    ensures
        lex_le(a, a),
    decreases a.len(),
{
    if a.len() > 0 {
        lemma_lex_reflexive(a.drop_first());
    }
}

/// Two texts that come before each other are equal.
pub proof fn lemma_lex_antisymmetric(a: Seq<char>, b: Seq<char>)
    requires
        lex_le(a, b),
        lex_le(b, a),
    ensures
        a == b,
    decreases a.len(),
{
    if a.len() > 0 && b.len() > 0 {
        lemma_lex_antisymmetric(a.drop_first(), b.drop_first());
        assert(a == seq![a[0]] + a.drop_first());
        assert(b == seq![b[0]] + b.drop_first());
    } else {
        assert(a == b);
    }
}

/// The order is transitive.
pub proof fn lemma_lex_transitive(a: Seq<char>, b: Seq<char>, c: Seq<char>)
    requires
        lex_le(a, b),
        lex_le(b, c),
    ensures
        lex_le(a, c),
    decreases a.len(),
{
    if a.len() > 0 && a[0] == b[0] && b[0] == c[0] {
        lemma_lex_transitive(a.drop_first(), b.drop_first(), c.drop_first());
    }
}

/// Of any two texts one comes before the other, or they are equal.
pub proof fn lemma_lex_total(a: Seq<char>, b: Seq<char>)
    ensures
        lex_le(a, b) || lex_le(b, a),
    decreases a.len(),
{
    if a.len() > 0 && b.len() > 0 {
        lemma_lex_total(a.drop_first(), b.drop_first());
    }
}

/// Whether `a` comes before `b` or they are equal.
pub fn text_le(a: &str, b: &str) -> (r: bool)
    ensures
        r == lex_le(a@, b@),
{
    let mut x = a.chars();
    let mut y = b.chars();
    let ghost mut n: int = 0;
    assert(a@.skip(0) == a@);
    assert(b@.skip(0) == b@);
    loop
        invariant
            0 <= n <= a@.len(),
            n <= b@.len(),
            vstd::std_specs::iter::IteratorSpec::remaining(&x) == a@.skip(n),
            vstd::std_specs::iter::IteratorSpec::remaining(&y) == b@.skip(n),
            lex_le(a@, b@) == lex_le(a@.skip(n), b@.skip(n)),
        decreases a@.len() - n,
    {
        match x.next() {
            None => {
                return true;
            },
            Some(p) => match y.next() {
                None => {
                    return false;
                },
                Some(q) => {
                    if p != q {
                        return p < q;
                    }
                    assert(a@.skip(n).drop_first() == a@.skip(n + 1));
                    assert(b@.skip(n).drop_first() == b@.skip(n + 1));
                    proof {
                        n = n + 1;
                    }
                },
            },
        }
    }
}

/// A text comes before every longer one that begins with it, and not after it.
pub proof fn law_prefix_comes_first(a: Seq<char>, b: Seq<char>)
    ensures
        lex_le(a, a + b),
        b.len() > 0 ==> !lex_le(a + b, a),
    decreases a.len(),
{
    if a.len() > 0 {
        law_prefix_comes_first(a.drop_first(), b);
        assert((a + b).drop_first() == a.drop_first() + b);
    }
}

/// Of two texts that begin alike, the one with the smaller character behind that comes first,
/// whatever follows.
pub proof fn law_first_difference_decides(
    p: Seq<char>,
    c: char,
    x: Seq<char>,
    d: char,
    y: Seq<char>,
)
    requires
        (c as int) < (d as int),
    ensures
        lex_le(p + seq![c] + x, p + seq![d] + y),
        !lex_le(p + seq![d] + y, p + seq![c] + x),
    decreases p.len(),
{
    let a = p + seq![c] + x;
    let b = p + seq![d] + y;
    if p.len() > 0 {
        let q = p.drop_first();
        law_first_difference_decides(q, c, x, d, y);
        assert(a.drop_first() == q + seq![c] + x);
        assert(b.drop_first() == q + seq![d] + y);
        assert(a[0] == b[0]);
    } else {
        assert(a[0] == c);
        assert(b[0] == d);
    }
}

} // verus!
