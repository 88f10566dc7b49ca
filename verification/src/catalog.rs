//! The package-name catalog: an ordered, duplicate-free set of names
//! merged from two line-based sources, and prefix completion over it.

use vstd::prelude::*;

use crate::order::{
    bytes_cmp, has_prefix, is_prefix, lemma_lex_le_lt_trans, lemma_lex_le_refl,
    lemma_lex_lt_le_trans, lemma_lex_lt_trans, lemma_prefix_between, lemma_prefix_le, lex_le,
    lex_lt,
};

verus! {

/// The sequence of byte strings that a sequence of names denotes.
pub open spec fn names_of(v: Seq<Vec<u8>>) -> Seq<Seq<u8>> {
    Seq::new(v.len(), |i: int| v[i]@)
}

/// The sequence of byte strings that a list of names denotes.
pub open spec fn names_view(v: Vec<Vec<u8>>) -> Seq<Seq<u8>> {
    names_of(v@)
}

/// Every name comes strictly before the next: sorted with no duplicates.
pub open spec fn strictly_sorted(s: Seq<Seq<u8>>) -> bool {
    forall|i: int, j: int| 0 <= i < j < s.len() ==> lex_lt(s[i], s[j])
}

/// No name is the empty string.
pub open spec fn all_nonempty(s: Seq<Seq<u8>>) -> bool {
    forall|i: int| 0 <= i < s.len() ==> s[i].len() > 0
}

/// The set of non-empty lines among `lines`: what a source contributes
/// to the catalog.
pub open spec fn nonempty_set(lines: Seq<Seq<u8>>) -> Set<Seq<u8>> {
    Set::new(|x: Seq<u8>| lines.contains(x) && x.len() > 0)
}

/// The catalog entries whose names start with `p`, in catalog order.
pub open spec fn prefix_matches(c: Seq<Seq<u8>>, p: Seq<u8>) -> Seq<Seq<u8>> {
    c.filter(|e: Seq<u8>| is_prefix(p, e))
}

/// The deduplicated, sorted set of all known package names, held
/// read-only for completion queries.
pub struct Catalog {
    pub entries: Vec<Vec<u8>>,
}

impl View for Catalog {
    type V = Seq<Seq<u8>>;

    open spec fn view(&self) -> Seq<Seq<u8>> {
        names_view(self.entries)
    }
}

impl Catalog {
    /// The catalog invariant: strictly sorted (hence duplicate-free)
    /// and free of empty names.
    pub open spec fn wf(self) -> bool {
        strictly_sorted(self@) && all_nonempty(self@)
    }
}

/// A verified copy of a byte string.
pub(crate) fn clone_bytes(v: &Vec<u8>) -> (r: Vec<u8>)
    ensures
        r@ == v@,
{
    let mut r: Vec<u8> = Vec::new();
    let mut i: usize = 0;
    while i < v.len()
        invariant
            i <= v@.len(),
            r@ == v@.subrange(0, i as int),
        decreases v@.len() - i,
    {
        r.push(v[i]);
        proof {
            assert(r@ =~= v@.subrange(0, i + 1));
        }
        i = i + 1;
    }
    proof {
        assert(r@ =~= v@);
    }
    r
}

/// Binary search for the first position whose name is at least `key`;
/// the sortedness invariant makes this the only place `key`, or a name
/// extending it, can sit.
fn lower_bound(entries: &Vec<Vec<u8>>, key: &Vec<u8>) -> (r: usize)
    requires
        strictly_sorted(names_view(*entries)),
    ensures
        r <= entries@.len(),
        forall|j: int| 0 <= j < r ==> lex_lt(names_view(*entries)[j], key@),
        forall|j: int| r <= j < entries@.len() ==> lex_le(key@, names_view(*entries)[j]),
{
    let ghost c = names_view(*entries);
    let mut lo: usize = 0;
    let mut hi: usize = entries.len();
    while lo < hi
        invariant
            lo <= hi <= entries@.len(),
            c == names_view(*entries),
            strictly_sorted(c),
            forall|j: int| 0 <= j < lo ==> lex_lt(c[j], key@),
            forall|j: int| hi <= j < c.len() ==> lex_le(key@, c[j]),
        decreases hi - lo,
    {
        let mid: usize = lo + (hi - lo) / 2;
        let cmp = bytes_cmp(&entries[mid], key);
        if cmp == -1 {
            proof {
                assert forall|j: int| 0 <= j < mid + 1 implies lex_lt(c[j], key@) by {
                    if j < mid {
                        lemma_lex_lt_trans(c[j], c[mid as int], key@);
                    }
                }
            }
            lo = mid + 1;
        } else {
            proof {
                if cmp == 0 {
                    lemma_lex_le_refl(key@);
                }
                assert forall|j: int| mid <= j < c.len() implies lex_le(key@, c[j]) by {
                    if j > mid {
                        lemma_lex_le_lt_trans(key@, c[mid as int], c[j]);
                    }
                }
            }
            hi = mid;
        }
    }
    lo
}

/// Inserting into a sequence adds exactly one element to the set of
/// names it holds.
proof fn lemma_insert_to_set(s: Seq<Seq<u8>>, pos: int, e: Seq<u8>)
    requires
        0 <= pos <= s.len(),
    ensures
        s.insert(pos, e).to_set() =~= s.to_set().insert(e),
{
    let t = s.insert(pos, e);
    s.insert_ensures(pos, e);
    assert forall|x: Seq<u8>| t.to_set().contains(x) implies s.to_set().insert(e).contains(x) by {
        let i = choose|i: int| 0 <= i < t.len() && t[i] == x;
        if i < pos {
            assert(s[i] == x);
            assert(s.contains(x));
        } else if i > pos {
            assert(t[(i - 1) + 1] == s[i - 1]);
            assert(s.contains(x));
        }
    }
    assert forall|x: Seq<u8>| s.to_set().insert(e).contains(x) implies t.to_set().contains(x) by {
        if x == e {
            assert(t[pos] == x);
            assert(t.contains(x));
        } else {
            let i = choose|i: int| 0 <= i < s.len() && s[i] == x;
            if i < pos {
                assert(t[i] == x);
            } else {
                assert(t[i + 1] == s[i]);
            }
            assert(t.contains(x));
        }
    }
}

/// Inserting a new name at the position the order assigns it keeps the
/// sequence strictly sorted.
proof fn lemma_insert_sorted(s: Seq<Seq<u8>>, pos: int, e: Seq<u8>)
    requires
        0 <= pos <= s.len(),
        strictly_sorted(s),
        forall|j: int| 0 <= j < pos ==> lex_lt(s[j], e),
        forall|j: int| pos <= j < s.len() ==> lex_lt(e, s[j]),
    ensures
        strictly_sorted(s.insert(pos, e)),
{
    let t = s.insert(pos, e);
    s.insert_ensures(pos, e);
    assert forall|i: int, j: int| 0 <= i < j < t.len() implies lex_lt(t[i], t[j]) by {
        if i < pos {
            assert(t[i] == s[i]);
        } else if i > pos {
            assert(t[(i - 1) + 1] == s[i - 1]);
        }
        if j < pos {
            assert(t[j] == s[j]);
        } else if j > pos {
            assert(t[(j - 1) + 1] == s[j - 1]);
        }
    }
}

/// Insert one non-empty name, keeping the entries sorted and
/// duplicate-free; the set of names grows by exactly that name.
fn insert_entry(entries: &mut Vec<Vec<u8>>, e: &Vec<u8>)
    requires
        strictly_sorted(names_view(*old(entries))),
        all_nonempty(names_view(*old(entries))),
        e@.len() > 0,
    ensures
        strictly_sorted(names_view(*final(entries))),
        all_nonempty(names_view(*final(entries))),
        names_view(*final(entries)).to_set() == names_view(*old(entries)).to_set().insert(e@),
{
    let ghost c0 = names_view(*entries);
    let pos = lower_bound(entries, e);
    if pos < entries.len() {
        let cmp = bytes_cmp(&entries[pos], e);
        if cmp == 0 {
            proof {
                assert(c0[pos as int] == e@);
                assert(c0.contains(e@));
                assert(c0.to_set() =~= c0.to_set().insert(e@));
            }
            return ;
        }
    }
    let fresh = clone_bytes(e);
    entries.insert(pos, fresh);
    proof {
        assert(names_view(*entries) =~= c0.insert(pos as int, e@));
        assert forall|j: int| pos <= j < c0.len() implies lex_lt(e@, c0[j]) by {
            if j > pos {
                lemma_lex_le_lt_trans(e@, c0[pos as int], c0[j]);
            }
        }
        lemma_insert_sorted(c0, pos as int, e@);
        lemma_insert_to_set(c0, pos as int, e@);
        c0.insert_ensures(pos as int, e@);
        assert forall|k: int| 0 <= k < names_view(*entries).len() implies names_view(*entries)[k].len()
            > 0 by {
            let t = c0.insert(pos as int, e@);
            if k < pos {
                assert(t[k] == c0[k]);
            } else if k > pos {
                assert(t[(k - 1) + 1] == c0[k - 1]);
            }
        }
        assert(names_view(*entries).to_set() =~= c0.to_set().insert(e@));
    }
}

/// One step of feeding a source: the non-empty lines seen so far grow
/// by the current line exactly when it is non-empty.
proof fn lemma_nonempty_set_step(ls: Seq<Seq<u8>>, i: int)
    requires
        0 <= i < ls.len(),
    ensures
        ls[i].len() > 0 ==> nonempty_set(ls.subrange(0, i + 1)) =~= nonempty_set(
            ls.subrange(0, i),
        ).insert(ls[i]),
        ls[i].len() == 0 ==> nonempty_set(ls.subrange(0, i + 1)) =~= nonempty_set(
            ls.subrange(0, i),
        ),
{
    let pre = ls.subrange(0, i);
    let cur = ls.subrange(0, i + 1);
    assert forall|x: Seq<u8>| cur.contains(x) implies pre.contains(x) || x == ls[i] by {
        let k = choose|k: int| 0 <= k < cur.len() && cur[k] == x;
        if k < i {
            assert(pre[k] == x);
        }
    }
    assert forall|x: Seq<u8>| pre.contains(x) implies cur.contains(x) by {
        let k = choose|k: int| 0 <= k < pre.len() && pre[k] == x;
        assert(cur[k] == x);
    }
    assert(cur[i] == ls[i]);
    assert(cur.contains(ls[i]));
}

/// Feed every non-empty line of one source into the entries.
fn insert_lines(entries: &mut Vec<Vec<u8>>, lines: &Vec<Vec<u8>>)
    requires
        strictly_sorted(names_view(*old(entries))),
        all_nonempty(names_view(*old(entries))),
    ensures
        strictly_sorted(names_view(*final(entries))),
        all_nonempty(names_view(*final(entries))),
        names_view(*final(entries)).to_set() == names_view(*old(entries)).to_set().union(
            nonempty_set(names_view(*lines)),
        ),
{
    let ghost c0 = names_view(*old(entries));
    let ghost ls = names_view(*lines);
    let mut i: usize = 0;
    while i < lines.len()
        invariant
            i <= lines@.len(),
            ls == names_view(*lines),
            strictly_sorted(names_view(*entries)),
            all_nonempty(names_view(*entries)),
            names_view(*entries).to_set() == c0.to_set().union(
                nonempty_set(ls.subrange(0, i as int)),
            ),
        decreases lines@.len() - i,
    {
        let line = &lines[i];
        let ghost before = names_view(*entries);
        if line.len() > 0 {
            insert_entry(entries, line);
        }
        proof {
            lemma_nonempty_set_step(ls, i as int);
            if ls[i as int].len() > 0 {
                assert(names_view(*entries).to_set() =~= c0.to_set().union(
                    nonempty_set(ls.subrange(0, i + 1)),
                ));
            } else {
                assert(names_view(*entries).to_set() =~= c0.to_set().union(
                    nonempty_set(ls.subrange(0, i + 1)),
                ));
            }
        }
        i = i + 1;
    }
    proof {
        assert(ls.subrange(0, ls.len() as int) =~= ls);
    }
}

/// Build the catalog from the lines the two sources produced: keep the
/// non-empty lines, sort them by byte value, and drop duplicates. The
/// result holds exactly the union of the two sources' non-empty lines.
pub fn build_catalog(a: &Vec<Vec<u8>>, b: &Vec<Vec<u8>>) -> (r: Catalog)
    ensures
        r.wf(),
        r@.to_set() == nonempty_set(names_view(*a)).union(nonempty_set(names_view(*b))),
{
    let mut entries: Vec<Vec<u8>> = Vec::new();
    proof {
        assert(names_view(entries) =~= Seq::<Seq<u8>>::empty());
    }
    insert_lines(&mut entries, a);
    insert_lines(&mut entries, b);
    proof {
        assert(names_view(entries).to_set() =~= nonempty_set(names_view(*a)).union(
            nonempty_set(names_view(*b)),
        ));
    }
    Catalog { entries }
}

/// A sequence whose matches against `pred` sit exactly in `[s, e)` is
/// filtered to that very subrange.
proof fn lemma_filter_is_subrange<A>(c: Seq<A>, pred: spec_fn(A) -> bool, s: int, e: int)
    requires
        0 <= s <= e <= c.len(),
        forall|j: int| 0 <= j < c.len() ==> (pred(c[j]) <==> s <= j < e),
    ensures
        c.filter(pred) == c.subrange(s, e),
    decreases c.len(),
{
    reveal(Seq::filter);
    if c.len() == 0 {
        assert(c.filter(pred) =~= c.subrange(s, e));
    } else {
        let last = c.last();
        let cp = c.drop_last();
        if pred(last) {
            assert(s <= c.len() - 1 < e);
            assert(e == c.len());
            lemma_filter_is_subrange(cp, pred, s, c.len() - 1);
            assert(c.filter(pred) =~= c.subrange(s, e));
        } else if s == c.len() {
            lemma_filter_is_subrange(cp, pred, c.len() - 1, c.len() - 1);
            assert(c.filter(pred) =~= c.subrange(s, e));
        } else {
            assert(e <= c.len() - 1);
            lemma_filter_is_subrange(cp, pred, s, e);
            assert(c.filter(pred) =~= c.subrange(s, e));
        }
    }
}

impl Catalog {
    /// Every catalog entry that starts with `prefix`, in catalog order:
    /// the sorted order makes the matches one contiguous range, found
    /// by binary search and a forward scan.
    pub fn complete(&self, prefix: &Vec<u8>) -> (r: Vec<Vec<u8>>)
        requires
            self.wf(),
        ensures
            names_view(r) == prefix_matches(self@, prefix@),
    {
        let ghost c = self@;
        let ghost p = prefix@;
        let lo = lower_bound(&self.entries, prefix);
        let mut out: Vec<Vec<u8>> = Vec::new();
        let mut i: usize = lo;
        proof {
            assert(names_view(out) =~= c.subrange(lo as int, lo as int));
        }
        loop
            invariant_except_break
                lo <= i <= c.len(),
                c == self@,
                p == prefix@,
                strictly_sorted(c),
                names_view(out) == c.subrange(lo as int, i as int),
                forall|j: int| lo <= j < i ==> is_prefix(p, c[j]),
            ensures
                lo <= i <= c.len(),
                names_view(out) == c.subrange(lo as int, i as int),
                forall|j: int| lo <= j < i ==> is_prefix(p, c[j]),
                i == c.len() || !is_prefix(p, c[i as int]),
            decreases c.len() - i,
        {
            if i == self.entries.len() {
                break ;
            }
            if !has_prefix(prefix, &self.entries[i]) {
                break ;
            }
            let fresh = clone_bytes(&self.entries[i]);
            let ghost fv = fresh@;
            let ghost o0 = out@;
            out.push(fresh);
            proof {
                assert(names_of(o0) == c.subrange(lo as int, i as int));
                assert(names_of(o0).len() == o0.len());
                assert(o0.len() == i - lo);
                assert(out@.len() == o0.len() + 1);
                assert(fv == c[i as int]);
                assert forall|k: int| 0 <= k < names_view(out).len() implies names_view(out)[k]
                    == c.subrange(lo as int, i + 1)[k] by {
                    if k < o0.len() {
                        assert(out@[k] == o0[k]);
                        assert(names_of(o0)[k] == c.subrange(lo as int, i as int)[k]);
                    } else {
                        assert(out@[k]@ == fv);
                    }
                }
                assert(names_view(out) =~= c.subrange(lo as int, i + 1));
            }
            i = i + 1;
        }
        proof {
            assert forall|j: int| 0 <= j < c.len() implies (is_prefix(p, c[j]) <==> lo <= j
                < i) by {
                if j < lo {
                    if is_prefix(p, c[j]) {
                        lemma_prefix_le(p, c[j]);
                        lemma_lex_lt_le_trans(c[j], p, c[j]);
                    }
                } else if j >= i as int {
                    assert(i < c.len());
                    if is_prefix(p, c[j]) && j > i {
                        assert(lex_lt(c[i as int], c[j]));
                        assert(lex_le(p, c[i as int]));
                        lemma_prefix_le(p, c[j]);
                        lemma_prefix_between(p, c[i as int], c[j]);
                    }
                }
            }
            lemma_filter_is_subrange(c, |e: Seq<u8>| is_prefix(p, e), lo as int, i as int);
        }
        out
    }

    /// Runtime check of the catalog invariant, for callers outside the
    /// verified library that must guard a completion query.
    pub fn is_wf(&self) -> (r: bool)
        ensures
            r == self.wf(),
    {
        let ghost c = self@;
        let n: usize = self.entries.len();
        if n == 0 {
            return true;
        }
        if self.entries[0].len() == 0 {
            proof {
                assert(c[0].len() == 0);
            }
            return false;
        }
        let mut i: usize = 0;
        while i < n - 1
            invariant
                c == self@,
                n == c.len(),
                n == self.entries@.len(),
                1 <= n,
                i <= n - 1,
                forall|j: int, k: int| 0 <= j < k <= i ==> lex_lt(c[j], c[k]),
                forall|k: int| 0 <= k <= i ==> c[k].len() > 0,
            decreases n - 1 - i,
        {
            let cmp = bytes_cmp(&self.entries[i], &self.entries[i + 1]);
            if cmp != -1 {
                proof {
                    assert(!lex_lt(c[i as int], c[i as int + 1]));
                }
                return false;
            }
            if self.entries[i + 1].len() == 0 {
                proof {
                    assert(c[i as int + 1].len() == 0);
                }
                return false;
            }
            proof {
                assert forall|j: int, k: int| 0 <= j < k <= i + 1 implies lex_lt(c[j], c[k]) by {
                    if k == i + 1 && j < i {
                        lemma_lex_lt_trans(c[j], c[i as int], c[k]);
                    }
                }
            }
            i = i + 1;
        }
        proof {
            assert(strictly_sorted(c));
            assert(all_nonempty(c));
        }
        true
    }
}

/// The catalog invariant characterizes the catalog uniquely: two
/// strictly sorted sequences holding the same set of names are the same
/// sequence.
pub proof fn lemma_sorted_unique(c1: Seq<Seq<u8>>, c2: Seq<Seq<u8>>)
    requires
        strictly_sorted(c1),
        strictly_sorted(c2),
        c1.to_set() == c2.to_set(),
    ensures
        c1 == c2,
    decreases c1.len(),
{
    if c1.len() == 0 {
        if c2.len() > 0 {
            assert(c2.contains(c2[0]));
            assert(c1.to_set().contains(c2[0]));
            assert(false);
        }
        assert(c1 =~= c2);
    } else {
        if c2.len() == 0 {
            assert(c1.contains(c1[0]));
            assert(c2.to_set().contains(c1[0]));
            assert(false);
        }
        assert(c1.contains(c1[0]));
        assert(c2.to_set().contains(c1[0]));
        let j1 = choose|j: int| 0 <= j < c2.len() && c2[j] == c1[0];
        if j1 > 0 {
            assert(lex_lt(c2[0], c2[j1]));
        } else {
            lemma_lex_le_refl(c2[0]);
        }
        assert(lex_le(c2[0], c1[0]));
        assert(c2.contains(c2[0]));
        assert(c1.to_set().contains(c2[0]));
        let j2 = choose|j: int| 0 <= j < c1.len() && c1[j] == c2[0];
        if j2 > 0 {
            assert(lex_lt(c1[0], c1[j2]));
        } else {
            lemma_lex_le_refl(c1[0]);
        }
        assert(lex_le(c1[0], c2[0]));
        crate::order::lemma_lex_le_antisym(c1[0], c2[0]);
        assert(c1[0] == c2[0]);
        lemma_sorted_tail_set(c1);
        lemma_sorted_tail_set(c2);
        assert forall|i: int, j: int| 0 <= i < j < c1.skip(1).len() implies lex_lt(
            c1.skip(1)[i],
            c1.skip(1)[j],
        ) by {
            assert(c1.skip(1)[i] == c1[i + 1]);
            assert(c1.skip(1)[j] == c1[j + 1]);
        }
        assert forall|i: int, j: int| 0 <= i < j < c2.skip(1).len() implies lex_lt(
            c2.skip(1)[i],
            c2.skip(1)[j],
        ) by {
            assert(c2.skip(1)[i] == c2[i + 1]);
            assert(c2.skip(1)[j] == c2[j + 1]);
        }
        assert(c1.skip(1).to_set() =~= c2.skip(1).to_set());
        lemma_sorted_unique(c1.skip(1), c2.skip(1));
        assert(c1.len() == c2.len());
        assert forall|k: int| 0 <= k < c1.len() implies c1[k] == c2[k] by {
            if k >= 1 {
                assert(c1.skip(1)[k - 1] == c1[k]);
                assert(c2.skip(1)[k - 1] == c2[k]);
            }
        }
        assert(c1 =~= c2);
    }
}

/// A strictly sorted catalog holds no name twice.
pub proof fn lemma_sorted_no_duplicates(c: Seq<Seq<u8>>)
    requires
        strictly_sorted(c),
    ensures
        forall|i: int, j: int| 0 <= i < j < c.len() ==> c[i] != c[j],
{
    assert forall|i: int, j: int| 0 <= i < j < c.len() implies c[i] != c[j] by {
        assert(lex_lt(c[i], c[j]));
    }
}

/// In a strictly sorted sequence the head is not among the tail, so
/// dropping it removes exactly one name from the set.
proof fn lemma_sorted_tail_set(c: Seq<Seq<u8>>)
    requires
        strictly_sorted(c),
        c.len() > 0,
    ensures
        c.skip(1).to_set() =~= c.to_set().remove(c[0]),
{
    assert forall|x: Seq<u8>| c.skip(1).to_set().contains(x) implies c.to_set().remove(
        c[0],
    ).contains(x) by {
        let i = choose|i: int| 0 <= i < c.skip(1).len() && c.skip(1)[i] == x;
        assert(c[i + 1] == x);
        assert(c.contains(x));
        assert(lex_lt(c[0], c[i + 1]));
    }
    assert forall|x: Seq<u8>| c.to_set().remove(c[0]).contains(x) implies c.skip(
        1,
    ).to_set().contains(x) by {
        let i = choose|i: int| 0 <= i < c.len() && c[i] == x;
        assert(i != 0);
        assert(c.skip(1)[i - 1] == x);
        assert(c.skip(1).contains(x));
    }
}

/// Catalog construction is order-independent: whatever order the two
/// sources produced their lines in, catalogs holding the same union of
/// non-empty lines are equal.
pub proof fn lemma_build_order_independent(
    a1: Seq<Seq<u8>>,
    b1: Seq<Seq<u8>>,
    a2: Seq<Seq<u8>>,
    b2: Seq<Seq<u8>>,
    c1: Seq<Seq<u8>>,
    c2: Seq<Seq<u8>>,
)
    requires
        strictly_sorted(c1),
        strictly_sorted(c2),
        c1.to_set() == nonempty_set(a1).union(nonempty_set(b1)),
        c2.to_set() == nonempty_set(a2).union(nonempty_set(b2)),
        nonempty_set(a1).union(nonempty_set(b1)) == nonempty_set(a2).union(nonempty_set(b2)),
    ensures
        c1 == c2,
{
    lemma_sorted_unique(c1, c2);
}

/// In particular, swapping the two sources changes nothing: the union
/// of their non-empty lines is symmetric.
pub proof fn lemma_build_sources_swapped(
    a: Seq<Seq<u8>>,
    b: Seq<Seq<u8>>,
    c1: Seq<Seq<u8>>,
    c2: Seq<Seq<u8>>,
)
    requires
        strictly_sorted(c1),
        strictly_sorted(c2),
        c1.to_set() == nonempty_set(a).union(nonempty_set(b)),
        c2.to_set() == nonempty_set(b).union(nonempty_set(a)),
    ensures
        c1 == c2,
{
    assert(nonempty_set(a).union(nonempty_set(b)) =~= nonempty_set(b).union(nonempty_set(a)));
    lemma_sorted_unique(c1, c2);
}

/// Prefix matches form a contiguous range of a sorted catalog: a name
/// between two matches is itself a match.
pub proof fn lemma_matches_contiguous(c: Seq<Seq<u8>>, p: Seq<u8>)
    requires
        strictly_sorted(c),
    ensures
        forall|i: int, j: int, k: int|
            0 <= i <= j <= k < c.len() && is_prefix(p, c[i]) && is_prefix(p, c[k]) ==> is_prefix(
                p,
                c[j],
            ),
{
    assert forall|i: int, j: int, k: int|
        0 <= i <= j <= k < c.len() && is_prefix(p, c[i]) && is_prefix(p, c[k]) implies is_prefix(
        p,
        c[j],
    ) by {
        lemma_prefix_le(p, c[i]);
        lemma_lex_le_refl(c[i]);
        lemma_lex_le_refl(c[j]);
        if i < j {
            assert(lex_lt(c[i], c[j]));
        }
        if j < k {
            assert(lex_lt(c[j], c[k]));
        }
        assert(lex_le(c[i], c[j]));
        assert(lex_le(c[j], c[k]));
        crate::order::lemma_lex_le_trans(p, c[i], c[j]);
        lemma_prefix_between(p, c[j], c[k]);
    }
}

/// The empty prefix matches every name: completion with an empty line
/// returns the whole catalog.
pub proof fn lemma_complete_empty_prefix(c: Seq<Seq<u8>>)
    ensures
        prefix_matches(c, Seq::empty()) == c,
{
    lemma_filter_is_subrange(c, |e: Seq<u8>| is_prefix(Seq::empty(), e), 0, c.len() as int);
    assert(c.subrange(0, c.len() as int) =~= c);
}

/// When no name starts with the prefix, completion returns nothing.
pub proof fn lemma_complete_no_match(c: Seq<Seq<u8>>, p: Seq<u8>)
    requires
        forall|j: int| 0 <= j < c.len() ==> !is_prefix(p, c[j]),
    ensures
        prefix_matches(c, p) == Seq::<Seq<u8>>::empty(),
{
    lemma_filter_is_subrange(c, |e: Seq<u8>| is_prefix(p, e), 0, 0);
    assert(c.subrange(0, 0) =~= Seq::<Seq<u8>>::empty());
}

} // verus!
