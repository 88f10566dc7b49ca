//! Lexicographic byte-value order on package names, and the prefix
//! relation that completion queries are answered with.

use vstd::prelude::*;

verus! {

/// `a` is less than or equal to `b` in lexicographic byte-value order.
pub open spec fn lex_le(a: Seq<u8>, b: Seq<u8>) -> bool
    decreases a.len(),
{
    if a.len() == 0 {
        true
    } else if b.len() == 0 {
        false
    } else if a[0] < b[0] {
        true
    } else if a[0] > b[0] {
        false
    } else {
        lex_le(a.skip(1), b.skip(1))
    }
}

/// Strict lexicographic byte-value order.
pub open spec fn lex_lt(a: Seq<u8>, b: Seq<u8>) -> bool {
    lex_le(a, b) && a != b
}

/// `p` is a prefix of `s`.
pub open spec fn is_prefix(p: Seq<u8>, s: Seq<u8>) -> bool
    decreases p.len(),
{
    if p.len() == 0 {
        true
    } else if s.len() == 0 {
        false
    } else {
        p[0] == s[0] && is_prefix(p.skip(1), s.skip(1))
    }
}

pub proof fn lemma_lex_le_refl(a: Seq<u8>)
    ensures
        lex_le(a, a),
    decreases a.len(),
{
    if a.len() > 0 {
        lemma_lex_le_refl(a.skip(1));
    }
}

pub proof fn lemma_lex_le_antisym(a: Seq<u8>, b: Seq<u8>)
    requires
        lex_le(a, b),
        lex_le(b, a),
    ensures
        a == b,
    decreases a.len(),
{
    if a.len() == 0 {
        assert(b.len() == 0);
        assert(a =~= b);
    } else {
        assert(b.len() > 0);
        assert(a[0] == b[0]);
        lemma_lex_le_antisym(a.skip(1), b.skip(1));
        assert(a.len() == b.len());
        assert forall|i: int| 0 <= i < a.len() implies a[i] == b[i] by {
            if i >= 1 {
                assert(a.skip(1)[i - 1] == a[i]);
                assert(b.skip(1)[i - 1] == b[i]);
            }
        }
        assert(a =~= b);
    }
}

pub proof fn lemma_lex_le_trans(a: Seq<u8>, b: Seq<u8>, c: Seq<u8>)
    requires
        lex_le(a, b),
        lex_le(b, c),
    ensures
        lex_le(a, c),
    decreases a.len(),
{
    if a.len() > 0 {
        assert(b.len() > 0);
        assert(c.len() > 0);
        if a[0] == b[0] && b[0] == c[0] {
            lemma_lex_le_trans(a.skip(1), b.skip(1), c.skip(1));
        }
    }
}

pub proof fn lemma_lex_lt_le_trans(a: Seq<u8>, b: Seq<u8>, c: Seq<u8>)
    requires
        lex_lt(a, b),
        lex_le(b, c),
    ensures
        lex_lt(a, c),
{
    lemma_lex_le_trans(a, b, c);
    if a == c {
        lemma_lex_le_antisym(a, b);
    }
}

pub proof fn lemma_lex_le_lt_trans(a: Seq<u8>, b: Seq<u8>, c: Seq<u8>)
    requires
        lex_le(a, b),
        lex_lt(b, c),
    ensures
        lex_lt(a, c),
{
    lemma_lex_le_trans(a, b, c);
    if a == c {
        lemma_lex_le_antisym(b, c);
    }
}

pub proof fn lemma_lex_lt_trans(a: Seq<u8>, b: Seq<u8>, c: Seq<u8>)
    requires
        lex_lt(a, b),
        lex_lt(b, c),
    ensures
        lex_lt(a, c),
{
    lemma_lex_lt_le_trans(a, b, c);
}

/// A prefix of a name never comes after it in lexicographic order.
pub proof fn lemma_prefix_le(p: Seq<u8>, s: Seq<u8>)
    requires
        is_prefix(p, s),
    ensures
        lex_le(p, s),
    decreases p.len(),
{
    if p.len() > 0 {
        lemma_prefix_le(p.skip(1), s.skip(1));
    }
}

/// Anything sitting between a string and one of its extensions also
/// extends the common prefix: prefix matches are contiguous in sorted
/// order.
pub proof fn lemma_prefix_between(p: Seq<u8>, s: Seq<u8>, t: Seq<u8>)
    requires
        lex_le(p, s),
        lex_le(s, t),
        is_prefix(p, t),
    ensures
        is_prefix(p, s),
    decreases p.len(),
{
    if p.len() > 0 {
        assert(t.len() > 0);
        assert(s.len() > 0);
        assert(p[0] == t[0]);
        if p[0] < s[0] {
            assert(t[0] < s[0]);
            assert(!lex_le(s, t));
        } else {
            assert(p[0] == s[0]);
            assert(s[0] == t[0]);
            lemma_prefix_between(p.skip(1), s.skip(1), t.skip(1));
        }
    }
}

/// Index-wise characterization of the prefix relation.
pub proof fn lemma_is_prefix_index(p: Seq<u8>, s: Seq<u8>)
    ensures
        is_prefix(p, s) <==> (p.len() <= s.len() && forall|j: int|
            0 <= j < p.len() ==> p[j] == s[j]),
    decreases p.len(),
{
    if p.len() > 0 && s.len() > 0 {
        lemma_is_prefix_index(p.skip(1), s.skip(1));
        if p[0] == s[0] && p.len() <= s.len() && forall|j: int| 0 <= j < p.len() ==> p[j] == s[j] {
            assert(forall|j: int| 0 <= j < p.skip(1).len() ==> #[trigger] p.skip(1)[j] == p[j + 1]
                == s[j + 1] == s.skip(1)[j]);
        }
        if is_prefix(p, s) {
            assert(forall|j: int| 1 <= j < p.len() ==> #[trigger] p[j] == p.skip(1)[j - 1]
                == s.skip(1)[j - 1] == s[j]);
        }
    }
}

/// Comparing two names is decided at the first index where they differ,
/// as long as they agree everywhere before it.
pub proof fn lemma_lex_le_common(a: Seq<u8>, b: Seq<u8>, i: int)
    requires
        0 <= i <= a.len(),
        i <= b.len(),
        forall|j: int| 0 <= j < i ==> a[j] == b[j],
    ensures
        lex_le(a, b) == lex_le(a.skip(i), b.skip(i)),
    decreases i,
{
    if i == 0 {
        assert(a.skip(0) =~= a);
        assert(b.skip(0) =~= b);
    } else {
        assert(a[0] == b[0]);
        lemma_lex_le_common(a.skip(1), b.skip(1), i - 1);
        assert(a.skip(1).skip(i - 1) =~= a.skip(i));
        assert(b.skip(1).skip(i - 1) =~= b.skip(i));
    }
}

/// Three-way comparison of two byte strings in lexicographic order:
/// `-1` for strictly below, `0` for equal, `1` for strictly above.
pub fn bytes_cmp(a: &Vec<u8>, b: &Vec<u8>) -> (r: i8)
    ensures
        r == -1i8 || r == 0i8 || r == 1i8,
        (r == 0i8) <==> (a@ == b@),
        (r == -1i8) <==> lex_lt(a@, b@),
        (r == 1i8) <==> lex_lt(b@, a@),
{
    let n: usize = if a.len() < b.len() {
        a.len()
    } else {
        b.len()
    };
    let mut i: usize = 0;
    while i < n
        invariant
            i <= n,
            n <= a@.len(),
            n <= b@.len(),
            n == a@.len() || n == b@.len(),
            forall|j: int| 0 <= j < i ==> a@[j] == b@[j],
        decreases n - i,
    {
        if a[i] < b[i] {
            proof {
                lemma_lex_le_common(a@, b@, i as int);
                assert(a@.skip(i as int)[0] == a@[i as int]);
                assert(b@.skip(i as int)[0] == b@[i as int]);
                assert(lex_le(a@.skip(i as int), b@.skip(i as int)));
                assert(a@[i as int] != b@[i as int]);
                assert(a@ != b@);
                lemma_lex_le_antisym_contra(a@, b@);
            }
            return -1;
        }
        if a[i] > b[i] {
            proof {
                lemma_lex_le_common(b@, a@, i as int);
                assert(b@.skip(i as int)[0] == b@[i as int]);
                assert(a@.skip(i as int)[0] == a@[i as int]);
                assert(lex_le(b@.skip(i as int), a@.skip(i as int)));
                assert(a@ != b@);
                lemma_lex_le_antisym_contra(b@, a@);
            }
            return 1;
        }
        i = i + 1;
    }
    if a.len() == b.len() {
        proof {
            assert(a@ =~= b@);
            lemma_lex_le_refl(a@);
        }
        0
    } else if a.len() < b.len() {
        proof {
            lemma_lex_le_common(a@, b@, n as int);
            assert(a@.skip(n as int).len() == 0);
            assert(a@.len() != b@.len());
            assert(a@ != b@);
            lemma_lex_le_antisym_contra(a@, b@);
        }
        -1
    } else {
        proof {
            lemma_lex_le_common(b@, a@, n as int);
            assert(b@.skip(n as int).len() == 0);
            assert(a@ != b@);
            lemma_lex_le_antisym_contra(b@, a@);
        }
        1
    }
}

/// A name strictly below another is never also weakly above it.
proof fn lemma_lex_le_antisym_contra(a: Seq<u8>, b: Seq<u8>)
    requires
        lex_le(a, b),
        a != b,
    ensures
        lex_lt(a, b),
        !lex_le(b, a),
        !lex_lt(b, a),
{
    if lex_le(b, a) {
        lemma_lex_le_antisym(a, b);
    }
}

/// Does the name `s` start with `p`?
pub fn has_prefix(p: &Vec<u8>, s: &Vec<u8>) -> (r: bool)
    ensures
        r == is_prefix(p@, s@),
{
    proof {
        lemma_is_prefix_index(p@, s@);
    }
    if p.len() > s.len() {
        return false;
    }
    let mut i: usize = 0;
    while i < p.len()
        invariant
            i <= p@.len() <= s@.len(),
            forall|j: int| 0 <= j < i ==> p@[j] == s@[j],
        decreases p@.len() - i,
    {
        if p[i] != s[i] {
            proof {
                lemma_is_prefix_index(p@, s@);
                assert(p@[i as int] != s@[i as int]);
            }
            return false;
        }
        i = i + 1;
    }
    true
}

} // verus!
