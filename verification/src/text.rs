//! Byte-level text handling: trimming the whitespace around submitted
//! lines, and picking the version token out of the manager's banner.

use vstd::prelude::*;

verus! {

/// ASCII whitespace: space, tab, line feed, vertical tab, form feed,
/// carriage return.
pub open spec fn is_space(b: u8) -> bool {
    b == 32 || (9 <= b && b <= 13)
}

/// Runtime test for [`is_space`].
pub fn byte_is_space(b: u8) -> (r: bool)
    ensures
        r == is_space(b),
{
    b == 32 || (9 <= b && b <= 13)
}

/// The line with its leading whitespace removed.
pub open spec fn trim_front(s: Seq<u8>) -> Seq<u8>
    decreases s.len(),
{
    if s.len() > 0 && is_space(s[0]) {
        trim_front(s.skip(1))
    } else {
        s
    }
}

/// The line with its trailing whitespace removed.
pub open spec fn trim_back(s: Seq<u8>) -> Seq<u8>
    decreases s.len(),
{
    if s.len() > 0 && is_space(s[s.len() - 1]) {
        trim_back(s.drop_last())
    } else {
        s
    }
}

/// The line with surrounding whitespace removed, as submitted input is
/// normalized before classification.
pub open spec fn trim_spec(s: Seq<u8>) -> Seq<u8> {
    trim_back(trim_front(s))
}

/// `trim_front` drops exactly the leading run of whitespace.
proof fn lemma_trim_front_at(s: Seq<u8>, st: int)
    requires
        0 <= st <= s.len(),
        forall|j: int| 0 <= j < st ==> is_space(s[j]),
        st == s.len() || !is_space(s[st]),
    ensures
        trim_front(s) == s.skip(st),
    decreases st,
{
    if st == 0 {
        assert(s.skip(0) =~= s);
    } else {
        assert(is_space(s[0]));
        lemma_trim_front_at(s.skip(1), st - 1);
        assert(s.skip(1).skip(st - 1) =~= s.skip(st));
    }
}

/// `trim_back` drops exactly the trailing run of whitespace.
proof fn lemma_trim_back_at(s: Seq<u8>, e: int)
    requires
        0 <= e <= s.len(),
        forall|j: int| e <= j < s.len() ==> is_space(s[j]),
        e == 0 || !is_space(s[e - 1]),
    ensures
        trim_back(s) == s.subrange(0, e),
    decreases s.len() - e,
{
    if e == s.len() {
        if s.len() > 0 {
            assert(!is_space(s[s.len() - 1]));
        }
        assert(s.subrange(0, e) =~= s);
    } else {
        assert(is_space(s[s.len() - 1]));
        lemma_trim_back_at(s.drop_last(), e);
        assert(s.drop_last().subrange(0, e) =~= s.subrange(0, e));
    }
}

/// Remove the whitespace around a submitted line.
pub fn trim(s: &Vec<u8>) -> (r: Vec<u8>)
    ensures
        r@ == trim_spec(s@),
{
    let n: usize = s.len();
    let mut st: usize = 0;
    while st < n && byte_is_space(s[st])
        invariant
            st <= n,
            n == s@.len(),
            forall|j: int| 0 <= j < st ==> is_space(s@[j]),
        decreases n - st,
    {
        st = st + 1;
    }
    let mut e: usize = n;
    while e > st && byte_is_space(s[e - 1])
        invariant
            st <= e <= n,
            n == s@.len(),
            forall|j: int| e <= j < n ==> is_space(s@[j]),
        decreases e,
    {
        e = e - 1;
    }
    let mut r: Vec<u8> = Vec::new();
    let mut i: usize = st;
    while i < e
        invariant
            st <= i <= e <= n,
            n == s@.len(),
            r@ == s@.subrange(st as int, i as int),
        decreases e - i,
    {
        r.push(s[i]);
        proof {
            assert(r@ =~= s@.subrange(st as int, i + 1));
        }
        i = i + 1;
    }
    proof {
        lemma_trim_front_at(s@, st as int);
        let t = s@.skip(st as int);
        assert forall|j: int| (e - st) <= j < t.len() implies is_space(t[j]) by {
            assert(t[j] == s@[j + st]);
        }
        if e > st {
            assert(t[e - st - 1] == s@[e - 1]);
        }
        lemma_trim_back_at(t, e - st);
        assert(t.subrange(0, e - st) =~= s@.subrange(st as int, e as int));
    }
    r
}

/// The longest whitespace-free run at the head of the text: the next
/// token, empty when the text starts with whitespace or is exhausted.
pub open spec fn take_token(s: Seq<u8>) -> Seq<u8>
    decreases s.len(),
{
    if s.len() > 0 && !is_space(s[0]) {
        seq![s[0]] + take_token(s.skip(1))
    } else {
        Seq::empty()
    }
}

/// The text with its head token removed.
pub open spec fn drop_token(s: Seq<u8>) -> Seq<u8>
    decreases s.len(),
{
    if s.len() > 0 && !is_space(s[0]) {
        drop_token(s.skip(1))
    } else {
        s
    }
}

/// The text up to, and not including, its first line feed.
pub open spec fn first_line(s: Seq<u8>) -> Seq<u8>
    decreases s.len(),
{
    if s.len() == 0 || s[0] == 10 {
        Seq::empty()
    } else {
        seq![s[0]] + first_line(s.skip(1))
    }
}

/// The second whitespace-separated token of the text, if it has one.
pub open spec fn second_token(s: Seq<u8>) -> Option<Seq<u8>> {
    let rest = trim_front(drop_token(trim_front(s)));
    if rest.len() == 0 {
        Option::None
    } else {
        Option::Some(take_token(rest))
    }
}

/// What the version banner reports for the manager: the second token
/// of the first line of the manager's own version output.
pub open spec fn version_token_spec(out: Seq<u8>) -> Option<Seq<u8>> {
    second_token(first_line(out))
}

/// `take_token` takes exactly the bytes before the first whitespace.
proof fn lemma_take_token_at(s: Seq<u8>, k: int)
    requires
        0 <= k <= s.len(),
        forall|j: int| 0 <= j < k ==> !is_space(s[j]),
        k == s.len() || is_space(s[k]),
    ensures
        take_token(s) == s.subrange(0, k),
    decreases k,
{
    if k == 0 {
        assert(take_token(s) =~= s.subrange(0, 0));
    } else {
        assert(!is_space(s[0]));
        lemma_take_token_at(s.skip(1), k - 1);
        assert(seq![s[0]] + s.skip(1).subrange(0, k - 1) =~= s.subrange(0, k));
    }
}

/// `drop_token` drops exactly the bytes before the first whitespace.
proof fn lemma_drop_token_at(s: Seq<u8>, k: int)
    requires
        0 <= k <= s.len(),
        forall|j: int| 0 <= j < k ==> !is_space(s[j]),
        k == s.len() || is_space(s[k]),
    ensures
        drop_token(s) == s.skip(k),
    decreases k,
{
    if k == 0 {
        assert(s.skip(0) =~= s);
    } else {
        assert(!is_space(s[0]));
        lemma_drop_token_at(s.skip(1), k - 1);
        assert(s.skip(1).skip(k - 1) =~= s.skip(k));
    }
}

/// `first_line` is exactly the bytes before the first line feed.
proof fn lemma_first_line_at(s: Seq<u8>, nl: int)
    requires
        0 <= nl <= s.len(),
        forall|j: int| 0 <= j < nl ==> s[j] != 10,
        nl == s.len() || s[nl] == 10,
    ensures
        first_line(s) == s.subrange(0, nl),
    decreases nl,
{
    if nl == 0 {
        assert(first_line(s) =~= s.subrange(0, 0));
    } else {
        assert(s[0] != 10);
        lemma_first_line_at(s.skip(1), nl - 1);
        assert(seq![s[0]] + s.skip(1).subrange(0, nl - 1) =~= s.subrange(0, nl));
    }
}

/// The token the version banner shows for the manager, extracted from
/// the manager's reported version text; nothing when that text's first
/// line has fewer than two tokens.
pub fn manager_version_token(out: &Vec<u8>) -> (r: Option<Vec<u8>>)
    ensures
        (r is Some) <==> (version_token_spec(out@) is Some),
        r matches Some(v) ==> version_token_spec(out@) == Option::Some(v@),
{
    let n: usize = out.len();
    let mut nl: usize = 0;
    while nl < n && out[nl] != 10
        invariant
            nl <= n,
            n == out@.len(),
            forall|j: int| 0 <= j < nl ==> out@[j] != 10,
        decreases n - nl,
    {
        nl = nl + 1;
    }
    proof {
        lemma_first_line_at(out@, nl as int);
    }
    let ghost line = out@.subrange(0, nl as int);
    let mut i1: usize = 0;
    while i1 < nl && byte_is_space(out[i1])
        invariant
            i1 <= nl <= n,
            n == out@.len(),
            forall|j: int| 0 <= j < i1 ==> is_space(out@[j]),
        decreases nl - i1,
    {
        i1 = i1 + 1;
    }
    let mut i2: usize = i1;
    while i2 < nl && !byte_is_space(out[i2])
        invariant
            i1 <= i2 <= nl <= n,
            n == out@.len(),
            forall|j: int| i1 <= j < i2 ==> !is_space(out@[j]),
        decreases nl - i2,
    {
        i2 = i2 + 1;
    }
    let mut i3: usize = i2;
    while i3 < nl && byte_is_space(out[i3])
        invariant
            i2 <= i3 <= nl <= n,
            n == out@.len(),
            forall|j: int| i2 <= j < i3 ==> is_space(out@[j]),
        decreases nl - i3,
    {
        i3 = i3 + 1;
    }
    proof {
        assert forall|j: int| 0 <= j < i1 implies is_space(line[j]) by {
            assert(line[j] == out@[j]);
        }
        lemma_trim_front_at(line, i1 as int);
        let t1 = line.skip(i1 as int);
        assert forall|j: int| 0 <= j < i2 - i1 implies !is_space(t1[j]) by {
            assert(t1[j] == out@[j + i1]);
        }
        if i2 < nl {
            assert(t1[i2 - i1] == out@[i2 as int]);
        }
        lemma_drop_token_at(t1, i2 - i1);
        assert(t1.skip(i2 - i1) =~= line.skip(i2 as int));
        let t2 = line.skip(i2 as int);
        assert forall|j: int| 0 <= j < i3 - i2 implies is_space(t2[j]) by {
            assert(t2[j] == out@[j + i2]);
        }
        if i3 < nl {
            assert(t2[i3 - i2] == out@[i3 as int]);
        }
        lemma_trim_front_at(t2, i3 - i2);
        assert(t2.skip(i3 - i2) =~= line.skip(i3 as int));
    }
    if i3 == nl {
        proof {
            assert(line.skip(i3 as int).len() == 0);
        }
        return Option::None;
    }
    let mut i4: usize = i3;
    while i4 < nl && !byte_is_space(out[i4])
        invariant
            i3 <= i4 <= nl <= n,
            n == out@.len(),
            forall|j: int| i3 <= j < i4 ==> !is_space(out@[j]),
        decreases nl - i4,
    {
        i4 = i4 + 1;
    }
    let mut tok: Vec<u8> = Vec::new();
    let mut i: usize = i3;
    while i < i4
        invariant
            i3 <= i <= i4 <= nl <= n,
            n == out@.len(),
            tok@ == out@.subrange(i3 as int, i as int),
        decreases i4 - i,
    {
        tok.push(out[i]);
        proof {
            assert(tok@ =~= out@.subrange(i3 as int, i + 1));
        }
        i = i + 1;
    }
    proof {
        let t3 = line.skip(i3 as int);
        assert forall|j: int| 0 <= j < i4 - i3 implies !is_space(t3[j]) by {
            assert(t3[j] == out@[j + i3]);
        }
        if i4 < nl {
            assert(t3[i4 - i3] == out@[i4 as int]);
        }
        lemma_take_token_at(t3, i4 - i3);
        assert(t3.subrange(0, i4 - i3) =~= out@.subrange(i3 as int, i4 as int));
        assert(t3.len() > 0);
        assert(!is_space(t3[0]));
    }
    Option::Some(tok)
}

} // verus!
