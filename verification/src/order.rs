//! Ordered insertion, spec-level and executable: the strictly ascending
//! symbol-address lists of sections, and the byte-lexicographically
//! name-sorted symbol sequence of a container.

use vstd::prelude::*;

use crate::model::{bytes_lt, sorted_by_name, strictly_sorted, Symbol, SymbolModel};

verus! {

/// Inserting an address into an ascending, duplicate-free sequence: before
/// the first larger entry, and dropped when already present.
pub open spec fn insert_addr(s: Seq<u64>, a: u64) -> Seq<u64>
    decreases s.len(),
{
    if s.len() == 0 {
        seq![a]
    } else if a < s[0] {
        seq![a] + s
    } else if a == s[0] {
        s
    } else {
        seq![s[0]] + insert_addr(s.drop_first(), a)
    }
}

/// What `insert_addr` holds: the old entries and the new address.
pub proof fn lemma_insert_addr_contains(s: Seq<u64>, a: u64, x: u64)
    ensures
        insert_addr(s, a).contains(x) <==> (s.contains(x) || x == a),
    decreases s.len(),
{
    if s.len() == 0 {
        assert(insert_addr(s, a) =~= seq![a]);
        if x == a {
            assert(insert_addr(s, a)[0] == x);
        }
        if insert_addr(s, a).contains(x) {
            let i = choose|i: int| 0 <= i < insert_addr(s, a).len() && insert_addr(s, a)[i] == x;
            assert(insert_addr(s, a)[i] == a);
        }
    } else if a < s[0] {
        assert(s =~= insert_addr(s, a).drop_first());
        assert(insert_addr(s, a)[0] == a);
        if insert_addr(s, a).contains(x) {
            let i = choose|i: int| 0 <= i < insert_addr(s, a).len() && insert_addr(s, a)[i] == x;
            if i == 0 {
            } else {
                assert(s[i - 1] == x);
            }
        }
        if s.contains(x) {
            let i = choose|i: int| 0 <= i < s.len() && s[i] == x;
            assert(insert_addr(s, a)[i + 1] == x);
        }
        if x == a {
            assert(insert_addr(s, a)[0] == x);
        }
    } else if a == s[0] {
        if x == a {
            assert(s[0] == x);
        }
    } else {
        lemma_insert_addr_contains(s.drop_first(), a, x);
        let t = insert_addr(s, a);
        assert(t[0] == s[0]);
        assert(t.drop_first() =~= insert_addr(s.drop_first(), a));
        if t.contains(x) {
            let i = choose|i: int| 0 <= i < t.len() && t[i] == x;
            if i == 0 {
                assert(s[0] == x);
            } else {
                assert(t.drop_first()[i - 1] == x);
            }
        }
        if s.contains(x) {
            let i = choose|i: int| 0 <= i < s.len() && s[i] == x;
            if i == 0 {
                assert(t[0] == x);
            } else {
                assert(s.drop_first()[i - 1] == x);
                assert(insert_addr(s.drop_first(), a).contains(x));
                let j = choose|j: int|
                    0 <= j < t.drop_first().len() && t.drop_first()[j] == x;
                assert(t[j + 1] == x);
            }
        }
        if x == a {
            assert(insert_addr(s.drop_first(), a).contains(x));
            let j = choose|j: int| 0 <= j < t.drop_first().len() && t.drop_first()[j] == x;
            assert(t[j + 1] == x);
        }
    }
}

/// Inserting into a strictly ascending sequence keeps it strictly ascending.
pub proof fn lemma_insert_addr_sorted(s: Seq<u64>, a: u64)
    requires
        strictly_sorted(s),
    ensures
        strictly_sorted(insert_addr(s, a)),
    decreases s.len(),
{
    if s.len() == 0 {
    } else if a < s[0] {
        let t = insert_addr(s, a);
        assert forall|i: int, j: int| 0 <= i < j < t.len() implies t[i] < t[j] by {
            if i == 0 {
                assert(t[j] == s[j - 1]);
                if j > 1 {
                    assert(s[0] < s[j - 1]);
                }
            } else {
                assert(t[i] == s[i - 1] && t[j] == s[j - 1]);
            }
        }
    } else if a == s[0] {
    } else {
        assert(strictly_sorted(s.drop_first())) by {
            assert(forall|i: int, j: int|
                0 <= i < j < s.drop_first().len() ==> s.drop_first()[i] == s[i + 1]
                    && s.drop_first()[j] == s[j + 1]);
        }
        lemma_insert_addr_sorted(s.drop_first(), a);
        let r = insert_addr(s.drop_first(), a);
        let t = insert_addr(s, a);
        assert(t[0] == s[0]);
        assert(t.drop_first() =~= r);
        assert forall|i: int, j: int| 0 <= i < j < t.len() implies t[i] < t[j] by {
            if i == 0 {
                assert(t[j] == r[j - 1]);
                assert(r.contains(r[j - 1]));
                lemma_insert_addr_contains(s.drop_first(), a, r[j - 1]);
                if r[j - 1] == a {
                    assert(s[0] < a);
                } else {
                    let k = choose|k: int|
                        0 <= k < s.drop_first().len() && s.drop_first()[k] == r[j - 1];
                    assert(s[k + 1] == r[j - 1]);
                    assert(s[0] < s[k + 1]);
                }
            } else {
                assert(t[i] == r[i - 1] && t[j] == r[j - 1]);
            }
        }
    }
}

/// How `insert_addr` relates to the insertion position an executable scan
/// finds: `p` is the first position whose entry is at least `a`.
pub proof fn lemma_insert_addr_at(s: Seq<u64>, a: u64, p: int)
    requires
        0 <= p <= s.len(),
        forall|i: int| 0 <= i < p ==> s[i] < a,
        p < s.len() ==> a <= s[p],
    ensures
        insert_addr(s, a) == if p < s.len() && s[p] == a {
            s
        } else {
            s.take(p) + seq![a] + s.skip(p)
        },
    decreases s.len(),
{
    if s.len() == 0 {
        assert(insert_addr(s, a) =~= s.take(0) + seq![a] + s.skip(0));
    } else if p == 0 {
        if s[0] == a {
        } else {
            assert(a < s[0]);
            assert(insert_addr(s, a) =~= s.take(0) + seq![a] + s.skip(0));
        }
    } else {
        assert(s[0] < a);
        lemma_insert_addr_at(s.drop_first(), a, p - 1);
        if p < s.len() && s[p] == a {
            assert(s.drop_first()[p - 1] == a);
            assert(insert_addr(s, a) =~= seq![s[0]] + s.drop_first());
            assert(seq![s[0]] + s.drop_first() =~= s);
        } else {
            assert(insert_addr(s, a) =~= seq![s[0]] + (s.drop_first().take(p - 1) + seq![a]
                + s.drop_first().skip(p - 1)));
            assert(seq![s[0]] + (s.drop_first().take(p - 1) + seq![a] + s.drop_first().skip(p - 1))
                =~= s.take(p) + seq![a] + s.skip(p));
        }
    }
}

/// Inserts a symbol address into a section's ascending address list, keeping
/// it duplicate-free.
pub fn push_addr(v: &mut Vec<u64>, a: u64)
    ensures
        final(v)@ == insert_addr(old(v)@, a),
{
    let mut p: usize = 0;
    while p < v.len() && v[p] < a
        invariant
            p <= v@.len(),
            v@ == old(v)@,
            forall|i: int| 0 <= i < p ==> v@[i] < a,
        decreases v@.len() - p,
    {
        p = p + 1;
    }
    proof {
        lemma_insert_addr_at(v@, a, p as int);
    }
    if p < v.len() && v[p] == a {
        return;
    }
    v.insert(p, a);
    proof {
        assert(v@ =~= old(v)@.take(p as int) + seq![a] + old(v)@.skip(p as int));
    }
}

/// Inserting a symbol into a name-sorted sequence: before the first entry
/// whose raw name is strictly greater.
pub open spec fn insert_sym(s: Seq<SymbolModel>, x: SymbolModel) -> Seq<SymbolModel>
    decreases s.len(),
{
    if s.len() == 0 {
        seq![x]
    } else if bytes_lt(x.name_bytes, s[0].name_bytes) {
        seq![x] + s
    } else {
        seq![s[0]] + insert_sym(s.drop_first(), x)
    }
}

/// Sorting a symbol sequence by repeated insertion.
pub open spec fn sort_syms(s: Seq<SymbolModel>) -> Seq<SymbolModel>
    decreases s.len(),
{
    if s.len() == 0 {
        s
    } else {
        insert_sym(sort_syms(s.drop_first()), s[0])
    }
}

/// The byte-lexicographic order is asymmetric.
pub proof fn lemma_bytes_lt_asymm(a: Seq<u8>, b: Seq<u8>)
    requires
        bytes_lt(a, b),
    ensures
        !bytes_lt(b, a),
    decreases a.len(),
{
    if b.len() == 0 {
    } else if a.len() == 0 {
    } else if a[0] < b[0] {
    } else if a[0] > b[0] {
    } else {
        lemma_bytes_lt_asymm(a.drop_first(), b.drop_first());
    }
}

/// The byte-lexicographic order is transitive.
pub proof fn lemma_bytes_lt_trans(a: Seq<u8>, b: Seq<u8>, c: Seq<u8>)
    requires
        bytes_lt(a, b),
        bytes_lt(b, c),
    ensures
        bytes_lt(a, c),
    decreases a.len(),
{
    if b.len() == 0 {
    } else if c.len() == 0 {
    } else if a.len() == 0 {
    } else if a[0] < b[0] {
        if b[0] < c[0] {
        } else {
            assert(b[0] == c[0]);
        }
    } else {
        assert(a[0] == b[0]);
        if b[0] < c[0] {
        } else {
            assert(b[0] == c[0]);
            lemma_bytes_lt_trans(a.drop_first(), b.drop_first(), c.drop_first());
        }
    }
}

/// Two byte sequences that neither order strictly are equal.
pub proof fn lemma_bytes_lt_connex(a: Seq<u8>, b: Seq<u8>)
    requires
        !bytes_lt(a, b),
        !bytes_lt(b, a),
    ensures
        a == b,
    decreases a.len(),
{
    if b.len() == 0 {
        assert(a.len() == 0);
        assert(a =~= b);
    } else if a.len() == 0 {
    } else {
        assert(a[0] == b[0]);
        lemma_bytes_lt_connex(a.drop_first(), b.drop_first());
        assert(a =~= seq![a[0]] + a.drop_first());
        assert(b =~= seq![b[0]] + b.drop_first());
    }
}

/// Inserting into a name-sorted sequence keeps it name-sorted.
pub proof fn lemma_insert_sym_sorted(s: Seq<SymbolModel>, x: SymbolModel)
    requires
        sorted_by_name(s),
    ensures
        sorted_by_name(insert_sym(s, x)),
    decreases s.len(),
{
    if s.len() == 0 {
    } else if bytes_lt(x.name_bytes, s[0].name_bytes) {
        let t = insert_sym(s, x);
        assert forall|i: int, j: int| 0 <= i < j < t.len() implies !bytes_lt(
            t[j].name_bytes,
            t[i].name_bytes,
        ) by {
            if i == 0 {
                assert(t[j] == s[j - 1]);
                if bytes_lt(s[j - 1].name_bytes, x.name_bytes) {
                    if j == 1 {
                        lemma_bytes_lt_asymm(x.name_bytes, s[0].name_bytes);
                    } else {
                        lemma_bytes_lt_trans(
                            s[j - 1].name_bytes,
                            x.name_bytes,
                            s[0].name_bytes,
                        );
                    }
                }
            } else {
                assert(t[i] == s[i - 1] && t[j] == s[j - 1]);
            }
        }
    } else {
        assert(sorted_by_name(s.drop_first())) by {
            assert(forall|i: int, j: int|
                0 <= i < j < s.drop_first().len() ==> s.drop_first()[i] == s[i + 1]
                    && s.drop_first()[j] == s[j + 1]);
        }
        lemma_insert_sym_sorted(s.drop_first(), x);
        let r = insert_sym(s.drop_first(), x);
        let t = insert_sym(s, x);
        assert(t[0] == s[0]);
        assert(t.drop_first() =~= r);
        assert forall|i: int, j: int| 0 <= i < j < t.len() implies !bytes_lt(
            t[j].name_bytes,
            t[i].name_bytes,
        ) by {
            if i == 0 {
                assert(t[j] == r[j - 1]);
                lemma_insert_sym_contains(s.drop_first(), x, j - 1);
                if bytes_lt(r[j - 1].name_bytes, s[0].name_bytes) {
                    if r[j - 1] == x {
                        lemma_bytes_lt_asymm(x.name_bytes, s[0].name_bytes);
                    } else {
                        let k = choose|k: int|
                            0 <= k < s.drop_first().len() && s.drop_first()[k] == r[j - 1];
                        assert(s[k + 1] == r[j - 1]);
                        assert(!bytes_lt(s[k + 1].name_bytes, s[0].name_bytes));
                    }
                }
            } else {
                assert(t[i] == r[i - 1] && t[j] == r[j - 1]);
            }
        }
    }
}

/// Every entry of an insertion result is the inserted symbol or an old one.
pub proof fn lemma_insert_sym_contains(s: Seq<SymbolModel>, x: SymbolModel, j: int)
    requires
        0 <= j < insert_sym(s, x).len(),
    ensures
        insert_sym(s, x)[j] == x || s.contains(insert_sym(s, x)[j]),
    decreases s.len(),
{
    if s.len() == 0 {
    } else if bytes_lt(x.name_bytes, s[0].name_bytes) {
        if j > 0 {
            assert(insert_sym(s, x)[j] == s[j - 1]);
        }
    } else {
        let t = insert_sym(s, x);
        if j == 0 {
            assert(t[0] == s[0]);
        } else {
            assert(t[j] == insert_sym(s.drop_first(), x)[j - 1]);
            lemma_insert_sym_contains(s.drop_first(), x, j - 1);
            if insert_sym(s.drop_first(), x)[j - 1] == x {
            } else {
                let k = choose|k: int|
                    0 <= k < s.drop_first().len() && s.drop_first()[k] == t[j];
                assert(s[k + 1] == t[j]);
            }
        }
    }
}

/// The insertion sort yields a name-sorted sequence, for any input order.
pub proof fn lemma_sort_syms_sorted(s: Seq<SymbolModel>)
    ensures
        sorted_by_name(sort_syms(s)),
    decreases s.len(),
{
    if s.len() == 0 {
    } else {
        lemma_sort_syms_sorted(s.drop_first());
        lemma_insert_sym_sorted(sort_syms(s.drop_first()), s[0]);
    }
}

/// How `insert_sym` relates to the insertion position an executable scan
/// finds: `p` is the first position whose entry's name is strictly greater.
pub proof fn lemma_insert_sym_at(s: Seq<SymbolModel>, x: SymbolModel, p: int)
    requires
        0 <= p <= s.len(),
        forall|i: int| 0 <= i < p ==> !bytes_lt(x.name_bytes, #[trigger] s[i].name_bytes),
        p < s.len() ==> bytes_lt(x.name_bytes, s[p].name_bytes),
    ensures
        insert_sym(s, x) == s.take(p) + seq![x] + s.skip(p),
    decreases s.len(),
{
    if s.len() == 0 {
        assert(insert_sym(s, x) =~= s.take(0) + seq![x] + s.skip(0));
    } else if p == 0 {
        assert(insert_sym(s, x) =~= s.take(0) + seq![x] + s.skip(0));
    } else {
        lemma_insert_sym_at(s.drop_first(), x, p - 1);
        assert(insert_sym(s, x) =~= seq![s[0]] + (s.drop_first().take(p - 1) + seq![x]
            + s.drop_first().skip(p - 1)));
        assert(seq![s[0]] + (s.drop_first().take(p - 1) + seq![x] + s.drop_first().skip(p - 1))
            =~= s.take(p) + seq![x] + s.skip(p));
    }
}

/// Byte-lexicographic strict comparison of two raw names.
pub fn name_lt(a: &Vec<u8>, b: &Vec<u8>) -> (r: bool)
    ensures
        r == bytes_lt(a@, b@),
{
    let mut i: usize = 0;
    proof {
        assert(a@.skip(0) =~= a@);
        assert(b@.skip(0) =~= b@);
    }
    loop
        invariant
            i <= a@.len(),
            i <= b@.len(),
            bytes_lt(a@, b@) == bytes_lt(a@.skip(i as int), b@.skip(i as int)),
        decreases a@.len() - i,
    {
        if i >= b.len() {
            return false;
        }
        if i >= a.len() {
            return true;
        }
        let x = a[i];
        let y = b[i];
        proof {
            assert(a@.skip(i as int)[0] == a@[i as int]);
            assert(b@.skip(i as int)[0] == b@[i as int]);
            assert(a@.skip(i as int).drop_first() =~= a@.skip(i + 1));
            assert(b@.skip(i as int).drop_first() =~= b@.skip(i + 1));
        }
        if x < y {
            return true;
        }
        if x > y {
            return false;
        }
        i = i + 1;
    }
}

/// Spec view of a symbol vector.
pub open spec fn sym_views(v: Seq<Symbol>) -> Seq<SymbolModel> {
    v.map_values(|s: Symbol| s@)
}

/// Inserts one symbol at its name-sorted position.
fn insert_symbol(v: &mut Vec<Symbol>, x: Symbol)
    ensures
        sym_views(final(v)@) == insert_sym(sym_views(old(v)@), x@),
{
    let ghost s = sym_views(old(v)@);
    let mut p: usize = 0;
    loop
        invariant
            p <= v@.len(),
            v@ == old(v)@,
            s == sym_views(v@),
            forall|i: int| 0 <= i < p ==> !bytes_lt(x@.name_bytes, #[trigger] s[i].name_bytes),
        ensures
            p <= v@.len(),
            v@ == old(v)@,
            forall|i: int| 0 <= i < p ==> !bytes_lt(x@.name_bytes, #[trigger] s[i].name_bytes),
            p < v@.len() ==> bytes_lt(x@.name_bytes, s[p as int].name_bytes),
        decreases v@.len() - p,
    {
        if p >= v.len() {
            break;
        }
        proof {
            assert(s[p as int] == v@[p as int]@);
        }
        if name_lt(&x.name_bytes, &v[p].name_bytes) {
            break;
        }
        p = p + 1;
    }
    proof {
        lemma_insert_sym_at(s, x@, p as int);
    }
    v.insert(p, x);
    proof {
        assert(sym_views(v@) =~= s.take(p as int) + seq![x@] + s.skip(p as int));
    }
}

/// Sorts a container's symbols by raw name, byte-lexicographically.
pub fn sort_symbols(v: Vec<Symbol>) -> (r: Vec<Symbol>)
    ensures
        sym_views(r@) == sort_syms(sym_views(v@)),
{
    let ghost orig = sym_views(v@);
    let mut v = v;
    let mut r: Vec<Symbol> = Vec::new();
    proof {
        assert(sym_views(r@) =~= sort_syms(orig.skip(orig.len() as int)));
        assert(sym_views(v@) =~= orig.take(orig.len() as int));
    }
    loop
        invariant
            v@.len() <= orig.len(),
            sym_views(v@) == orig.take(v@.len() as int),
            sym_views(r@) == sort_syms(orig.skip(v@.len() as int)),
        ensures
            sym_views(r@) == sort_syms(orig),
        decreases v@.len(),
    {
        let n = v.len();
        if n == 0 {
            proof {
                assert(orig.skip(0) =~= orig);
            }
            break;
        }
        let x = match v.pop() {
            Some(x) => x,
            None => {
                proof {
                    assert(false);
                }
                break;
            },
        };
        proof {
            assert(x@ == orig.take(n as int)[n - 1]);
            assert(x@ == orig[n - 1]);
            assert(sym_views(v@) =~= orig.take(n - 1));
        }
        insert_symbol(&mut r, x);
        proof {
            assert(orig.skip(n - 1)[0] == orig[n - 1]);
            assert(orig.skip(n - 1).drop_first() =~= orig.skip(n as int));
        }
    }
    proof {
        assert(orig.skip(0) =~= orig);
    }
    r
}

} // verus!
