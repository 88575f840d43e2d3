//! The canonical request-parameter mapping used when signing: keys are kept
//! unique and in strictly ascending byte-wise order, so the parameter string
//! of step one of the signing algorithm is independent of insertion order.

use vstd::prelude::*;
use crate::encoding::{pe, percent_encode_bytes, push_all};

verus! {

/// Strict lexicographic (byte-wise ascending) order on byte sequences.
pub open spec fn lex_lt(a: Seq<u8>, b: Seq<u8>) -> bool
    decreases a.len(),
{
    if b.len() == 0 {
        false
    } else if a.len() == 0 {
        true
    } else if a[0] < b[0] {
        true
    } else if a[0] > b[0] {
        false
    } else {
        lex_lt(a.drop_first(), b.drop_first())
    }
}

/// `lex_lt` is a strict total order: of `a < b`, `b < a` and `a == b`,
/// exactly one holds.
pub proof fn lemma_lex_trichotomy(a: Seq<u8>, b: Seq<u8>)
    ensures
        lex_lt(a, b) || lex_lt(b, a) || a == b,
        lex_lt(a, b) ==> !lex_lt(b, a) && a != b,
        lex_lt(b, a) ==> !lex_lt(a, b) && b != a,
    decreases a.len(),
{
    if a.len() == 0 && b.len() == 0 {
        assert(a =~= b);
    } else if a.len() != 0 && b.len() != 0 && a[0] == b[0] {
        lemma_lex_trichotomy(a.drop_first(), b.drop_first());
        if a.drop_first() == b.drop_first() {
            assert forall|i: int| 0 <= i < a.len() implies a[i] == b[i] by {
                if i > 0 {
                    assert(a[i] == a.drop_first()[i - 1]);
                    assert(b[i] == b.drop_first()[i - 1]);
                }
            }
            assert(a =~= b);
        }
        if a == b {
            assert(a.drop_first() =~= b.drop_first());
        }
    }
}

pub proof fn lemma_lex_trans(a: Seq<u8>, b: Seq<u8>, c: Seq<u8>)
    requires
        lex_lt(a, b),
        lex_lt(b, c),
    ensures
        lex_lt(a, c),
    decreases a.len(),
{
    if a.len() != 0 && b.len() != 0 && c.len() != 0 {
        if a[0] == b[0] && b[0] == c[0] {
            lemma_lex_trans(a.drop_first(), b.drop_first(), c.drop_first());
        }
    }
}

/// Compare two byte vectors in lexicographic order.
pub fn bytes_lt(a: &Vec<u8>, b: &Vec<u8>) -> (r: bool)
    ensures
        r == lex_lt(a@, b@),
{
    let mut i: usize = 0;
    proof {
        assert(a@.skip(0) =~= a@);
        assert(b@.skip(0) =~= b@);
    }
    while i < a.len() && i < b.len()
        invariant
            i <= a@.len(),
            i <= b@.len(),
            lex_lt(a@, b@) == lex_lt(a@.skip(i as int), b@.skip(i as int)),
        decreases a@.len() - i,
    {
        let x = a[i];
        let y = b[i];
        assert(a@.skip(i as int)[0] == x);
        assert(b@.skip(i as int)[0] == y);
        if x < y {
            return true;
        }
        if x > y {
            return false;
        }
        proof {
            assert(a@.skip(i as int).drop_first() =~= a@.skip(i + 1));
            assert(b@.skip(i as int).drop_first() =~= b@.skip(i + 1));
        }
        i = i + 1;
    }
    if i < b.len() {
        assert(a@.skip(i as int).len() == 0);
        assert(b@.skip(i as int).len() > 0);
        true
    } else {
        assert(b@.skip(i as int).len() == 0);
        false
    }
}

/// Equality of two byte vectors.
pub fn bytes_eq(a: &Vec<u8>, b: &Vec<u8>) -> (r: bool)
    ensures
        r == (a@ == b@),
{
    if a.len() != b.len() {
        return false;
    }
    let mut i: usize = 0;
    while i < a.len()
        invariant
            i <= a@.len(),
            a@.len() == b@.len(),
            forall|j: int| 0 <= j < i ==> a@[j] == b@[j],
        decreases a@.len() - i,
    {
        if a[i] != b[i] {
            return false;
        }
        i = i + 1;
    }
    proof {
        assert(a@ =~= b@);
    }
    true
}

/// The index of the first entry whose key is not below `k`.
fn lower_bound(items: &Vec<(Vec<u8>, Vec<u8>)>, k: &Vec<u8>) -> (i: usize)
    ensures
        i <= items@.len(),
        forall|j: int| 0 <= j < i ==> lex_lt(#[trigger] items@[j].0@, k@),
        i < items@.len() ==> !lex_lt(items@[i as int].0@, k@),
{
    let mut i: usize = 0;
    while i < items.len()
        invariant
            i <= items@.len(),
            forall|j: int| 0 <= j < i ==> lex_lt(#[trigger] items@[j].0@, k@),
        decreases items@.len() - i,
    {
        if !bytes_lt(&items[i].0, k) {
            return i;
        }
        i = i + 1;
    }
    i
}

/// One key-value entry as plain byte vectors.
pub type Entry = (Vec<u8>, Vec<u8>);

/// The view of an entry: the pair of byte sequences.
pub open spec fn entry_view(e: Entry) -> (Seq<u8>, Seq<u8>) {
    (e.0@, e.1@)
}

/// Keys strictly ascending, hence unique.
pub open spec fn sorted_keys(s: Seq<(Seq<u8>, Seq<u8>)>) -> bool {
    forall|i: int, j: int| 0 <= i < j < s.len() ==> lex_lt(#[trigger] s[i].0, #[trigger] s[j].0)
}

/// Insertion into a key-sorted entry sequence; an equal key replaces its
/// entry, so a later binding wins.
pub open spec fn sorted_insert(s: Seq<(Seq<u8>, Seq<u8>)>, k: Seq<u8>, v: Seq<u8>) -> Seq<
    (Seq<u8>, Seq<u8>),
>
    decreases s.len(),
{
    if s.len() == 0 {
        seq![(k, v)]
    } else if lex_lt(k, s[0].0) {
        seq![(k, v)] + s
    } else if k == s[0].0 {
        seq![(k, v)] + s.drop_first()
    } else {
        seq![s[0]] + sorted_insert(s.drop_first(), k, v)
    }
}

/// Which keys an entry sequence holds.
pub open spec fn has_key(s: Seq<(Seq<u8>, Seq<u8>)>, k: Seq<u8>) -> bool {
    exists|i: int| 0 <= i < s.len() && s[i].0 == k
}

pub proof fn lemma_sorted_insert_sorted(s: Seq<(Seq<u8>, Seq<u8>)>, k: Seq<u8>, v: Seq<u8>)
    requires
        sorted_keys(s),
    ensures
        sorted_keys(sorted_insert(s, k, v)),
        forall|k2: Seq<u8>| #[trigger]
            has_key(sorted_insert(s, k, v), k2) <==> (has_key(s, k2) || k2 == k),
    decreases s.len(),
{
    let r = sorted_insert(s, k, v);
    if s.len() == 0 {
        assert forall|k2: Seq<u8>| #[trigger] has_key(r, k2) implies (has_key(s, k2) || k2 == k) by {
            let i = choose|i: int| 0 <= i < r.len() && r[i].0 == k2;
            assert(r[i].0 == k);
        }
        assert(r[0].0 == k);
    } else if lex_lt(k, s[0].0) {
        assert forall|i: int, j: int| 0 <= i < j < r.len() implies lex_lt(r[i].0, r[j].0) by {
            if i == 0 {
                assert(r[j].0 == s[j - 1].0);
                if j > 1 {
                    lemma_lex_trans(k, s[0].0, s[j - 1].0);
                }
            } else {
                assert(r[i].0 == s[i - 1].0);
                assert(r[j].0 == s[j - 1].0);
            }
        }
        assert forall|k2: Seq<u8>| #[trigger] has_key(r, k2) implies (has_key(s, k2) || k2 == k) by {
            let i = choose|i: int| 0 <= i < r.len() && r[i].0 == k2;
            if i > 0 {
                assert(s[i - 1].0 == k2);
            }
        }
        assert forall|k2: Seq<u8>| has_key(s, k2) || k2 == k implies #[trigger] has_key(r, k2) by {
            if has_key(s, k2) {
                let i = choose|i: int| 0 <= i < s.len() && s[i].0 == k2;
                assert(r[i + 1].0 == k2);
            } else {
                assert(r[0].0 == k2);
            }
        }
    } else if k == s[0].0 {
        assert forall|i: int, j: int| 0 <= i < j < r.len() implies lex_lt(r[i].0, r[j].0) by {
            assert(r[j].0 == s[j].0);
            if i > 0 {
                assert(r[i].0 == s[i].0);
            }
        }
        assert forall|k2: Seq<u8>| #[trigger] has_key(r, k2) implies (has_key(s, k2) || k2 == k) by {
            let i = choose|i: int| 0 <= i < r.len() && r[i].0 == k2;
            if i > 0 {
                assert(s[i].0 == k2);
            }
        }
        assert forall|k2: Seq<u8>| has_key(s, k2) || k2 == k implies #[trigger] has_key(r, k2) by {
            if k2 == k {
                assert(r[0].0 == k2);
            } else {
                let i = choose|i: int| 0 <= i < s.len() && s[i].0 == k2;
                assert(i > 0);
                assert(r[i].0 == k2);
            }
        }
    } else {
        lemma_lex_trichotomy(k, s[0].0);
        assert(lex_lt(s[0].0, k));
        let tail = s.drop_first();
        assert(sorted_keys(tail)) by {
            assert(forall|i: int, j: int|
                0 <= i < j < tail.len() ==> lex_lt(#[trigger] tail[i].0, #[trigger] tail[j].0));
        }
        lemma_sorted_insert_sorted(tail, k, v);
        let rt = sorted_insert(tail, k, v);
        assert(r == seq![s[0]] + rt);
        assert forall|i: int, j: int| 0 <= i < j < r.len() implies lex_lt(r[i].0, r[j].0) by {
            if i == 0 {
                assert(r[j].0 == rt[j - 1].0);
                assert(has_key(rt, rt[j - 1].0));
                if rt[j - 1].0 == k {
                    assert(lex_lt(s[0].0, k));
                } else {
                    assert(has_key(tail, rt[j - 1].0));
                    let m = choose|m: int| 0 <= m < tail.len() && tail[m].0 == rt[j - 1].0;
                    assert(lex_lt(s[0].0, s[m + 1].0));
                }
            } else {
                assert(r[i].0 == rt[i - 1].0);
                assert(r[j].0 == rt[j - 1].0);
            }
        }
        assert forall|k2: Seq<u8>| #[trigger] has_key(r, k2) implies (has_key(s, k2) || k2 == k) by {
            let i = choose|i: int| 0 <= i < r.len() && r[i].0 == k2;
            if i == 0 {
                assert(s[0].0 == k2);
            } else {
                assert(rt[i - 1].0 == k2);
                assert(has_key(rt, k2));
                if k2 != k {
                    let m = choose|m: int| 0 <= m < tail.len() && tail[m].0 == k2;
                    assert(s[m + 1].0 == k2);
                }
            }
        }
        assert forall|k2: Seq<u8>| has_key(s, k2) || k2 == k implies #[trigger] has_key(r, k2) by {
            if k2 == k {
                assert(has_key(rt, k2));
                let m = choose|m: int| 0 <= m < rt.len() && rt[m].0 == k2;
                assert(r[m + 1].0 == k2);
            } else {
                let i = choose|i: int| 0 <= i < s.len() && s[i].0 == k2;
                if i == 0 {
                    assert(r[0].0 == k2);
                } else {
                    assert(tail[i - 1].0 == k2);
                    assert(has_key(tail, k2));
                    assert(has_key(rt, k2));
                    let m = choose|m: int| 0 <= m < rt.len() && rt[m].0 == k2;
                    assert(r[m + 1].0 == k2);
                }
            }
        }
    }
}

/// Insertion grows a sorted entry sequence by one entry exactly when the key
/// is fresh, and otherwise replaces in place.
pub proof fn lemma_sorted_insert_len(s: Seq<(Seq<u8>, Seq<u8>)>, k: Seq<u8>, v: Seq<u8>)
    requires
        sorted_keys(s),
    ensures
        has_key(s, k) ==> sorted_insert(s, k, v).len() == s.len(),
        !has_key(s, k) ==> sorted_insert(s, k, v).len() == s.len() + 1,
    decreases s.len(),
{
    if s.len() == 0 {
        assert(!has_key(s, k));
    } else if lex_lt(k, s[0].0) {
        assert(!has_key(s, k)) by {
            assert forall|i: int| 0 <= i < s.len() implies s[i].0 != k by {
                if i > 0 {
                    lemma_lex_trans(k, s[0].0, s[i].0);
                }
                lemma_lex_trichotomy(k, s[i].0);
            }
        }
    } else if k == s[0].0 {
        assert(has_key(s, k));
    } else {
        lemma_lex_trichotomy(k, s[0].0);
        let t = s.drop_first();
        assert(sorted_keys(t)) by {
            assert(forall|i: int, j: int|
                0 <= i < j < t.len() ==> lex_lt(#[trigger] t[i].0, #[trigger] t[j].0));
        }
        lemma_sorted_insert_len(t, k, v);
        assert(has_key(s, k) <==> has_key(t, k)) by {
            if has_key(s, k) {
                let i = choose|i: int| 0 <= i < s.len() && s[i].0 == k;
                assert(i > 0);
                assert(t[i - 1].0 == k);
            }
            if has_key(t, k) {
                let i = choose|i: int| 0 <= i < t.len() && t[i].0 == k;
                assert(s[i + 1].0 == k);
            }
        }
    }
}

/// Inserting two entries with different keys commutes: the canonical order
/// of the result does not depend on the order of the insertions.
pub proof fn lemma_insert_commutes(
    s: Seq<(Seq<u8>, Seq<u8>)>,
    k1: Seq<u8>,
    v1: Seq<u8>,
    k2: Seq<u8>,
    v2: Seq<u8>,
)
    requires
        sorted_keys(s),
        k1 != k2,
    ensures
        sorted_insert(sorted_insert(s, k1, v1), k2, v2) == sorted_insert(
            sorted_insert(s, k2, v2),
            k1,
            v1,
        ),
    decreases s.len(), (if s.len() > 0 && lex_lt(s[0].0, k1) {
        0int
    } else {
        1int
    }),
{
    lemma_lex_trichotomy(k1, k2);
    if s.len() == 0 {
        lemma_insert_commutes_base(s, k1, v1, k2, v2);
    } else {
        let h = s[0];
        let t = s.drop_first();
        assert(sorted_keys(t)) by {
            assert(forall|i: int, j: int|
                0 <= i < j < t.len() ==> lex_lt(#[trigger] t[i].0, #[trigger] t[j].0));
        }
        lemma_lex_trichotomy(k1, h.0);
        lemma_lex_trichotomy(k2, h.0);
        // Reduce every case to equalities between explicit cons cells.
        if lex_lt(h.0, k1) && lex_lt(h.0, k2) {
            lemma_insert_commutes(t, k1, v1, k2, v2);
            let a = sorted_insert(s, k1, v1);
            assert(a == seq![h] + sorted_insert(t, k1, v1));
            assert(a.len() > 0 && a[0] == h);
            assert(a.drop_first() =~= sorted_insert(t, k1, v1));
            assert(sorted_insert(a, k2, v2) == seq![h] + sorted_insert(
                sorted_insert(t, k1, v1),
                k2,
                v2,
            ));
            let b = sorted_insert(s, k2, v2);
            assert(b == seq![h] + sorted_insert(t, k2, v2));
            assert(b.len() > 0 && b[0] == h);
            assert(b.drop_first() =~= sorted_insert(t, k2, v2));
            assert(sorted_insert(b, k1, v1) == seq![h] + sorted_insert(
                sorted_insert(t, k2, v2),
                k1,
                v1,
            ));
        } else if lex_lt(h.0, k1) {
            // k2 goes at or before the head, k1 into the tail.
            let a = sorted_insert(s, k1, v1);
            assert(a == seq![h] + sorted_insert(t, k1, v1));
            assert(a.len() > 0 && a[0] == h);
            assert(a.drop_first() =~= sorted_insert(t, k1, v1));
            if k2 == h.0 {
                let b = sorted_insert(s, k2, v2);
                assert(b == seq![(k2, v2)] + t);
                assert(b.len() > 0 && b[0] == (k2, v2));
                assert(b.drop_first() =~= t);
                assert(sorted_insert(a, k2, v2) == seq![(k2, v2)] + sorted_insert(t, k1, v1));
                assert(sorted_insert(b, k1, v1) == seq![(k2, v2)] + sorted_insert(t, k1, v1));
            } else {
                assert(lex_lt(k2, h.0));
                let b = sorted_insert(s, k2, v2);
                assert(b == seq![(k2, v2)] + s);
                assert(b.len() > 0 && b[0] == (k2, v2));
                assert(b.drop_first() =~= s);
                lemma_lex_trans(k2, h.0, k1);
                assert(sorted_insert(a, k2, v2) == seq![(k2, v2)] + a);
                assert(sorted_insert(b, k1, v1) == seq![(k2, v2)] + sorted_insert(s, k1, v1));
            }
        } else if lex_lt(h.0, k2) {
            lemma_insert_commutes(s, k2, v2, k1, v1);
        } else {
            // Both keys stand at or before the head; they differ, so at most
            // one equals the head key.
            let a = sorted_insert(s, k1, v1);
            let b = sorted_insert(s, k2, v2);
            if k1 == h.0 {
                assert(lex_lt(k2, h.0));
                assert(a == seq![(k1, v1)] + t);
                assert(a.len() > 0 && a[0] == (k1, v1));
                assert(a.drop_first() =~= t);
                assert(sorted_insert(a, k2, v2) == seq![(k2, v2)] + a);
                assert(b == seq![(k2, v2)] + s);
                assert(b.len() > 0 && b[0] == (k2, v2));
                assert(b.drop_first() =~= s);
                assert(sorted_insert(b, k1, v1) == seq![(k2, v2)] + sorted_insert(s, k1, v1));
            } else if k2 == h.0 {
                assert(lex_lt(k1, h.0));
                assert(b == seq![(k2, v2)] + t);
                assert(b.len() > 0 && b[0] == (k2, v2));
                assert(b.drop_first() =~= t);
                assert(sorted_insert(b, k1, v1) == seq![(k1, v1)] + b);
                assert(a == seq![(k1, v1)] + s);
                assert(a.len() > 0 && a[0] == (k1, v1));
                assert(a.drop_first() =~= s);
                assert(sorted_insert(a, k2, v2) == seq![(k1, v1)] + sorted_insert(s, k2, v2));
            } else {
                assert(lex_lt(k1, h.0) && lex_lt(k2, h.0));
                assert(a == seq![(k1, v1)] + s);
                assert(a.len() > 0 && a[0] == (k1, v1));
                assert(a.drop_first() =~= s);
                assert(b == seq![(k2, v2)] + s);
                assert(b.len() > 0 && b[0] == (k2, v2));
                assert(b.drop_first() =~= s);
                if lex_lt(k1, k2) {
                    assert(sorted_insert(b, k1, v1) == seq![(k1, v1)] + b);
                    assert(sorted_insert(a, k2, v2) == seq![(k1, v1)] + sorted_insert(
                        s,
                        k2,
                        v2,
                    ));
                } else {
                    assert(sorted_insert(a, k2, v2) == seq![(k2, v2)] + a);
                    assert(sorted_insert(b, k1, v1) == seq![(k2, v2)] + sorted_insert(
                        s,
                        k1,
                        v1,
                    ));
                }
            }
        }
    }
}

proof fn lemma_insert_commutes_base(
    s: Seq<(Seq<u8>, Seq<u8>)>,
    k1: Seq<u8>,
    v1: Seq<u8>,
    k2: Seq<u8>,
    v2: Seq<u8>,
)
    requires
        s.len() == 0,
        k1 != k2,
    ensures
        sorted_insert(sorted_insert(s, k1, v1), k2, v2) == sorted_insert(
            sorted_insert(s, k2, v2),
            k1,
            v1,
        ),
{
    lemma_lex_trichotomy(k1, k2);
    let a = sorted_insert(s, k1, v1);
    let b = sorted_insert(s, k2, v2);
    assert(a == seq![(k1, v1)]);
    assert(b == seq![(k2, v2)]);
    assert(a[0] == (k1, v1) && a.len() == 1);
    assert(b[0] == (k2, v2) && b.len() == 1);
    assert(a.drop_first() =~= Seq::<(Seq<u8>, Seq<u8>)>::empty());
    assert(b.drop_first() =~= Seq::<(Seq<u8>, Seq<u8>)>::empty());
    if lex_lt(k1, k2) {
        assert(sorted_insert(a, k2, v2) == seq![a[0]] + sorted_insert(a.drop_first(), k2, v2));
        assert(sorted_insert(a.drop_first(), k2, v2) == seq![(k2, v2)]);
        assert(sorted_insert(b, k1, v1) == seq![(k1, v1)] + b);
        assert(sorted_insert(a, k2, v2) =~= sorted_insert(b, k1, v1));
    } else {
        assert(lex_lt(k2, k1));
        assert(sorted_insert(b, k1, v1) == seq![b[0]] + sorted_insert(b.drop_first(), k1, v1));
        assert(sorted_insert(b.drop_first(), k1, v1) == seq![(k1, v1)]);
        assert(sorted_insert(a, k2, v2) == seq![(k2, v2)] + a);
        assert(sorted_insert(a, k2, v2) =~= sorted_insert(b, k1, v1));
    }
}

/// The value bound to a key: the first binding, which in a key-sorted
/// sequence is the only one.
pub open spec fn lookup(s: Seq<(Seq<u8>, Seq<u8>)>, k: Seq<u8>) -> Seq<u8>
    decreases s.len(),
{
    if s.len() == 0 {
        Seq::empty()
    } else if s[0].0 == k {
        s[0].1
    } else {
        lookup(s.drop_first(), k)
    }
}

/// The canonical order determines the sequence: two key-sorted entry
/// sequences that bind the same keys to the same values are equal — so the
/// parameter string built from a mapping does not depend on the order in
/// which the mapping was put together.
pub proof fn lemma_canonical_form(s1: Seq<(Seq<u8>, Seq<u8>)>, s2: Seq<(Seq<u8>, Seq<u8>)>)
    requires
        sorted_keys(s1),
        sorted_keys(s2),
        forall|k: Seq<u8>| #[trigger] has_key(s1, k) <==> #[trigger] has_key(s2, k),
        forall|k: Seq<u8>| has_key(s1, k) ==> #[trigger] lookup(s1, k) == lookup(s2, k),
    ensures
        s1 == s2,
    decreases s1.len(),
{
    if s1.len() == 0 && s2.len() == 0 {
        assert(s1 =~= s2);
    } else if s1.len() == 0 {
        assert(has_key(s2, s2[0].0));
        assert(has_key(s1, s2[0].0));
        let i = choose|i: int| 0 <= i < s1.len() && s1[i].0 == s2[0].0;
        assert(false);
    } else if s2.len() == 0 {
        assert(has_key(s1, s1[0].0));
        assert(has_key(s2, s1[0].0));
        let i = choose|i: int| 0 <= i < s2.len() && s2[i].0 == s1[0].0;
        assert(false);
    } else {
        let k0 = s1[0].0;
        assert(has_key(s1, k0));
        assert(has_key(s2, k0));
        let j = choose|j: int| 0 <= j < s2.len() && s2[j].0 == k0;
        if j != 0 {
            // The front key of s2 would then be strictly below k0, yet it is
            // also a key of s1, where every key is at least k0.
            assert(lex_lt(s2[0].0, k0));
            assert(has_key(s2, s2[0].0));
            assert(has_key(s1, s2[0].0));
            let m = choose|m: int| 0 <= m < s1.len() && s1[m].0 == s2[0].0;
            if m == 0 {
                lemma_lex_trichotomy(s2[0].0, k0);
            } else {
                assert(lex_lt(k0, s1[m].0));
                lemma_lex_trans(s2[0].0, k0, s1[m].0);
                lemma_lex_trichotomy(s2[0].0, s1[m].0);
            }
            assert(false);
        }
        assert(s2[0].0 == k0);
        assert(lookup(s1, k0) == s1[0].1);
        assert(lookup(s2, k0) == s2[0].1);
        assert(s1[0].1 == s2[0].1);
        let t1 = s1.drop_first();
        let t2 = s2.drop_first();
        assert(sorted_keys(t1)) by {
            assert(forall|i: int, j2: int|
                0 <= i < j2 < t1.len() ==> lex_lt(#[trigger] t1[i].0, #[trigger] t1[j2].0));
        }
        assert(sorted_keys(t2)) by {
            assert(forall|i: int, j2: int|
                0 <= i < j2 < t2.len() ==> lex_lt(#[trigger] t2[i].0, #[trigger] t2[j2].0));
        }
        // Tail keys are exactly the keys other than k0, on both sides.
        assert forall|k: Seq<u8>| #[trigger] has_key(t1, k) implies #[trigger] has_key(t2, k) by {
            let i = choose|i: int| 0 <= i < t1.len() && t1[i].0 == k;
            assert(s1[i + 1].0 == k);
            assert(lex_lt(k0, k));
            lemma_lex_trichotomy(k0, k);
            assert(has_key(s1, k));
            assert(has_key(s2, k));
            let j2 = choose|j2: int| 0 <= j2 < s2.len() && s2[j2].0 == k;
            assert(j2 != 0);
            assert(t2[j2 - 1].0 == k);
        }
        assert forall|k: Seq<u8>| #[trigger] has_key(t2, k) implies #[trigger] has_key(t1, k) by {
            let i = choose|i: int| 0 <= i < t2.len() && t2[i].0 == k;
            assert(s2[i + 1].0 == k);
            assert(lex_lt(k0, k));
            lemma_lex_trichotomy(k0, k);
            assert(has_key(s2, k));
            assert(has_key(s1, k));
            let j2 = choose|j2: int| 0 <= j2 < s1.len() && s1[j2].0 == k;
            assert(j2 != 0);
            assert(t1[j2 - 1].0 == k);
        }
        // Tail lookups agree: away from k0, lookup skips the front entry.
        assert forall|k: Seq<u8>| has_key(t1, k) implies #[trigger] lookup(t1, k) == lookup(
            t2,
            k,
        ) by {
            let i = choose|i: int| 0 <= i < t1.len() && t1[i].0 == k;
            assert(s1[i + 1].0 == k);
            assert(lex_lt(k0, k));
            lemma_lex_trichotomy(k0, k);
            assert(k != k0);
            assert(has_key(s1, k));
            assert(lookup(s1, k) == lookup(t1, k));
            assert(lookup(s2, k) == lookup(t2, k));
        }
        lemma_canonical_form(t1, t2);
        assert forall|i: int| 0 <= i < s1.len() implies s1[i] == s2[i] by {
            if i > 0 {
                assert(s1[i] == t1[i - 1]);
                assert(s2[i] == t2[i - 1]);
            }
        }
        assert(s1 =~= s2);
    }
}

/// A mapping from parameter names to values, kept in canonical
/// (byte-wise ascending, duplicate-free) key order.
pub struct ParamMap {
    items: Vec<Entry>,
}

impl View for ParamMap {
    type V = Seq<(Seq<u8>, Seq<u8>)>;

    closed spec fn view(&self) -> Seq<(Seq<u8>, Seq<u8>)> {
        self.items@.map_values(|e: Entry| entry_view(e))
    }
}

impl ParamMap {
    /// Canonical order as an invariant.
    pub open spec fn wf(&self) -> bool {
        sorted_keys(self@)
    }

    /// An empty mapping.
    pub fn new() -> (r: ParamMap)
        ensures
            r@ == Seq::<(Seq<u8>, Seq<u8>)>::empty(),
            r.wf(),
    {
        let r = ParamMap { items: Vec::new() };
        proof {
            assert(r@ =~= Seq::<(Seq<u8>, Seq<u8>)>::empty());
        }
        r
    }

    /// Bind `k` to `v`; a later binding of an existing key replaces the
    /// earlier one.
    pub fn insert(&mut self, k: Vec<u8>, v: Vec<u8>)
        requires
            old(self).wf(),
        ensures
            final(self)@ == sorted_insert(old(self)@, k@, v@),
            final(self).wf(),
    {
        proof {
            lemma_sorted_insert_sorted(old(self)@, k@, v@);
        }
        let ghost s0 = self@;
        let i = lower_bound(&self.items, &k);
        proof {
            lemma_sorted_insert_prefix(s0, k@, v@, i as int);
        }
        if i < self.items.len() && bytes_eq(&self.items[i].0, &k) {
            let ghost old_items = self.items@;
            self.items.remove(i);
            self.items.insert(i, (k, v));
            proof {
                assert(self@ =~= s0.take(i as int) + (seq![(k@, v@)] + s0.skip(i as int).drop_first()));
                assert(sorted_insert(s0.skip(i as int), k@, v@) == seq![(k@, v@)] + s0.skip(
                    i as int,
                ).drop_first());
                assert(self@ =~= sorted_insert(s0, k@, v@));
            }
        } else {
            self.items.insert(i, (k, v));
            proof {
                if i < s0.len() {
                    lemma_lex_trichotomy(k@, s0[i as int].0);
                    assert(lex_lt(k@, s0[i as int].0));
                    assert(sorted_insert(s0.skip(i as int), k@, v@) == seq![(k@, v@)] + s0.skip(
                        i as int,
                    ));
                } else {
                    assert(s0.skip(i as int).len() == 0);
                }
                assert(self@ =~= s0.take(i as int) + (seq![(k@, v@)] + s0.skip(i as int)));
                assert(self@ =~= sorted_insert(s0, k@, v@));
            }
        }
    }

    /// How many parameters are bound.
    pub fn len(&self) -> (r: usize)
        ensures
            r == self@.len(),
    {
        self.items.len()
    }

    /// The entries, in canonical order.
    pub fn entries(&self) -> (r: &Vec<Entry>)
        ensures
            r@.map_values(|e: Entry| entry_view(e)) == self@,
    {
        &self.items
    }

    /// Percent-encode and join the entries as `key=value` pairs with `&`,
    /// in canonical order: the parameter string of the signing algorithm.
    pub fn param_string(&self) -> (r: Vec<u8>)
        ensures
            r@ == spec_param_string(self@),
    {
        let mut r: Vec<u8> = Vec::new();
        let mut i: usize = 0;
        proof {
            assert(self@.take(0) =~= Seq::<(Seq<u8>, Seq<u8>)>::empty());
        }
        while i < self.items.len()
            invariant
                i <= self@.len(),
                self@.len() == self.items@.len(),
                forall|j: int|
                    0 <= j < self@.len() ==> #[trigger] self@[j] == entry_view(self.items@[j]),
                r@ == spec_param_string(self@.take(i as int)),
            decreases self@.len() - i,
        {
            if i > 0 {
                r.push(0x26);  // &
            }
            let ek = percent_encode_bytes(self.items[i].0.as_slice());
            push_all(&mut r, ek.as_slice());
            r.push(0x3d);  // =
            let ev = percent_encode_bytes(self.items[i].1.as_slice());
            push_all(&mut r, ev.as_slice());
            proof {
                lemma_param_string_push(self@.take(i as int), self@[i as int]);
                assert(self@.take(i as int).push(self@[i as int]) =~= self@.take(i + 1));
                assert(r@ =~= spec_param_string(self@.take(i + 1)));
            }
            i = i + 1;
        }
        proof {
            assert(self@.take(self@.len() as int) =~= self@);
        }
        r
    }
}

/// `key=value` with both sides percent-encoded.
pub open spec fn spec_pair_string(p: (Seq<u8>, Seq<u8>)) -> Seq<u8> {
    pe(p.0) + seq![0x3du8] + pe(p.1)
}

/// The canonical parameter string of an entry sequence.
pub open spec fn spec_param_string(s: Seq<(Seq<u8>, Seq<u8>)>) -> Seq<u8>
    decreases s.len(),
{
    if s.len() == 0 {
        Seq::empty()
    } else if s.len() == 1 {
        spec_pair_string(s[0])
    } else {
        spec_pair_string(s[0]) + seq![0x26u8] + spec_param_string(s.drop_first())
    }
}

proof fn lemma_param_string_push(s: Seq<(Seq<u8>, Seq<u8>)>, p: (Seq<u8>, Seq<u8>))
    ensures
        s.len() == 0 ==> spec_param_string(s.push(p)) == spec_param_string(s) + spec_pair_string(
            p,
        ),
        s.len() > 0 ==> spec_param_string(s.push(p)) == spec_param_string(s) + seq![0x26u8]
            + spec_pair_string(p),
    decreases s.len(),
{
    if s.len() == 0 {
        assert(s.push(p).len() == 1);
        assert(s.push(p)[0] == p);
        assert(spec_param_string(s.push(p)) == spec_pair_string(p));
        assert(spec_param_string(s) + spec_pair_string(p) =~= spec_pair_string(p));
    } else {
        lemma_param_string_push(s.drop_first(), p);
        assert(s.push(p).drop_first() =~= s.drop_first().push(p));
        assert(s.push(p)[0] == s[0]);
        assert(s.push(p).len() >= 2);
        if s.len() == 1 {
            assert(spec_param_string(s.push(p)) == spec_pair_string(s[0]) + seq![0x26u8]
                + spec_param_string(s.drop_first().push(p)));
            assert(s.drop_first().len() == 0);
            assert(spec_param_string(s.drop_first().push(p)) == spec_param_string(s.drop_first())
                + spec_pair_string(p));
            assert(spec_param_string(s.drop_first()) =~= Seq::<u8>::empty());
            assert(spec_param_string(s.push(p)) =~= spec_param_string(s) + seq![0x26u8]
                + spec_pair_string(p));
        } else {
            assert(spec_param_string(s.push(p)) =~= spec_param_string(s) + seq![0x26u8]
                + spec_pair_string(p));
        }
    }
}

proof fn lemma_sorted_insert_prefix(s: Seq<(Seq<u8>, Seq<u8>)>, k: Seq<u8>, v: Seq<u8>, i: int)
    requires
        0 <= i <= s.len(),
        forall|j: int| 0 <= j < i ==> lex_lt(#[trigger] s[j].0, k),
    ensures
        sorted_insert(s, k, v) == s.take(i) + sorted_insert(s.skip(i), k, v),
    decreases i,
{
    if i == 0 {
        assert(s.take(0) =~= Seq::<(Seq<u8>, Seq<u8>)>::empty());
        assert(s.skip(0) =~= s);
        assert(s.take(0) + sorted_insert(s.skip(0), k, v) =~= sorted_insert(s, k, v));
    } else {
        assert(lex_lt(s[0].0, k));
        lemma_lex_trichotomy(k, s[0].0);
        assert(sorted_insert(s, k, v) == seq![s[0]] + sorted_insert(s.drop_first(), k, v));
        let t = s.drop_first();
        assert(forall|j: int| 0 <= j < i - 1 ==> lex_lt(#[trigger] t[j].0, k));
        lemma_sorted_insert_prefix(t, k, v, i - 1);
        assert(t.take(i - 1) =~= s.take(i).drop_first());
        assert(t.skip(i - 1) =~= s.skip(i));
        assert(seq![s[0]] + (t.take(i - 1) + sorted_insert(t.skip(i - 1), k, v)) =~= s.take(i)
            + sorted_insert(s.skip(i), k, v));
    }
}

} // verus!
