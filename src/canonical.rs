use vstd::prelude::*;

use crate::dialect::bytes_equal;
use crate::diff::{entry_json, ty_json, DiffEntry, Op, ResourceType};

verus! {

broadcast use {vstd::seq_lib::to_multiset_insert, vstd::seq_lib::to_multiset_build};

/// Lexicographic order of byte strings; a proper prefix comes first.
pub open spec fn bytes_lt(a: Seq<u8>, b: Seq<u8>) -> bool
    decreases a.len(),
{
    if a.len() == 0 {
        b.len() > 0
    } else if b.len() == 0 {
        false
    } else if a[0] != b[0] {
        a[0] < b[0]
    } else {
        bytes_lt(a.drop_first(), b.drop_first())
    }
}

pub proof fn lemma_bytes_lt_asymmetric(a: Seq<u8>, b: Seq<u8>)
    ensures
        bytes_lt(a, b) ==> !bytes_lt(b, a),
    decreases a.len(),
{
    if a.len() > 0 && b.len() > 0 && a[0] == b[0] {
        lemma_bytes_lt_asymmetric(a.drop_first(), b.drop_first());
    }
}

pub proof fn lemma_bytes_lt_transitive(a: Seq<u8>, b: Seq<u8>, c: Seq<u8>)
    ensures
        bytes_lt(a, b) && bytes_lt(b, c) ==> bytes_lt(a, c),
    decreases a.len(),
{
    if a.len() > 0 && b.len() > 0 && c.len() > 0 && a[0] == b[0] && b[0] == c[0] {
        lemma_bytes_lt_transitive(a.drop_first(), b.drop_first(), c.drop_first());
    }
}

/// The key that orders diff entries: the canonical JSON of their resource type,
/// which starts with the address, then the module, name and type arguments.
pub open spec fn type_key(e: DiffEntry) -> Seq<u8> {
    ty_json(e.ty)
}

/// Entries come in ascending order of their type keys.
pub open spec fn sorted_by_type(es: Seq<DiffEntry>) -> bool {
    forall|p: int, q: int|
        0 <= p < q < es.len() ==> !bytes_lt(type_key(#[trigger] es[q]), type_key(#[trigger] es[p]))
}

/// `e` writes exactly what a genesis record already holds.
pub open spec fn unchanged(e: DiffEntry, genesis: Seq<DiffEntry>) -> bool {
    exists|k: int| 0 <= k < genesis.len() && entry_json(#[trigger] genesis[k]) == entry_json(e)
}

/// An effect that the diff reports: a write that changes the state.
pub open spec fn emitted(e: DiffEntry, genesis: Seq<DiffEntry>) -> bool {
    e.op is SetValue && !unchanged(e, genesis)
}

pub proof fn lemma_bytes_lt_total(a: Seq<u8>, b: Seq<u8>)
    ensures
        a != b ==> bytes_lt(a, b) || bytes_lt(b, a),
    decreases a.len(),
{
    if a.len() > 0 && b.len() > 0 && a[0] == b[0] {
        lemma_bytes_lt_total(a.drop_first(), b.drop_first());
        if a.drop_first() == b.drop_first() {
            assert(a =~= seq![a[0]] + a.drop_first());
            assert(b =~= seq![b[0]] + b.drop_first());
        }
    } else if a.len() == 0 && b.len() == 0 {
        assert(a =~= b);
    }
}

proof fn lemma_of_type_prepend(x: DiffEntry, rest: Seq<DiffEntry>, k: Seq<u8>)
    ensures
        of_type(seq![x] + rest, k) == if type_key(x) == k {
            seq![x] + of_type(rest, k)
        } else {
            of_type(rest, k)
        },
{
    rest.lemma_filter_prepend(x, has_type(k));
    assert(Seq::<DiffEntry>::empty() + of_type(rest, k) =~= of_type(rest, k));
}

proof fn lemma_nonempty_has_own_type(a: Seq<DiffEntry>)
    requires
        a.len() > 0,
    ensures
        of_type(a, type_key(a[0])).contains(a[0]),
{
    a.lemma_filter_contains(has_type(type_key(a[0])), 0);
}

proof fn lemma_empty_of_type(a: Seq<DiffEntry>, k: Seq<u8>)
    requires
        a.len() == 0,
    ensures
        of_type(a, k).len() == 0,
{
    a.lemma_all_neg_filter_empty(has_type(k));
}

proof fn lemma_sorted_drop_first(a: Seq<DiffEntry>)
    requires
        sorted_by_type(a),
        a.len() > 0,
    ensures
        sorted_by_type(a.drop_first()),
{
    let a1 = a.drop_first();
    assert forall|p: int, q: int| 0 <= p < q < a1.len() implies !bytes_lt(
        type_key(#[trigger] a1[q]),
        type_key(#[trigger] a1[p]),
    ) by {
        assert(a1[p] == a[p + 1] && a1[q] == a[q + 1]);
    }
}

/// The first entries of two such sequences have the same type.
proof fn lemma_first_types_equal(a: Seq<DiffEntry>, b: Seq<DiffEntry>)
    requires
        sorted_by_type(a),
        sorted_by_type(b),
        a.len() > 0,
        b.len() > 0,
        forall|k: Seq<u8>| #[trigger] of_type(a, k) == of_type(b, k),
    ensures
        type_key(a[0]) == type_key(b[0]),
{
    let x = a[0];
    let y = b[0];
    let kx = type_key(x);
    let ky = type_key(y);
    lemma_nonempty_has_own_type(a);
    lemma_nonempty_has_own_type(b);
    assert(of_type(a, kx) == of_type(b, kx));
    assert(of_type(a, ky) == of_type(b, ky));
    b.lemma_filter_contains_rev(has_type(kx), x);
    a.lemma_filter_contains_rev(has_type(ky), y);
    let jb = choose|i: int| 0 <= i < b.len() && b[i] == x;
    let ja = choose|i: int| 0 <= i < a.len() && a[i] == y;
    if jb > 0 {
        assert(!bytes_lt(type_key(b[jb]), type_key(b[0])));
    }
    if ja > 0 {
        assert(!bytes_lt(type_key(a[ja]), type_key(a[0])));
    }
    lemma_bytes_lt_total(kx, ky);
}

/// Equal first types give equal first entries and the same entries of each type after them.
proof fn lemma_heads_and_tails(a: Seq<DiffEntry>, b: Seq<DiffEntry>)
    requires
        a.len() > 0,
        b.len() > 0,
        type_key(a[0]) == type_key(b[0]),
        forall|k: Seq<u8>| #[trigger] of_type(a, k) == of_type(b, k),
    ensures
        a[0] == b[0],
        forall|k: Seq<u8>| #[trigger] of_type(a.drop_first(), k) == of_type(b.drop_first(), k),
{
    let x = a[0];
    let y = b[0];
    let kx = type_key(x);
    let a1 = a.drop_first();
    let b1 = b.drop_first();
    assert(a =~= seq![x] + a1);
    assert(b =~= seq![y] + b1);
    lemma_of_type_prepend(x, a1, kx);
    lemma_of_type_prepend(y, b1, kx);
    assert(of_type(a, kx) == of_type(b, kx));
    assert((seq![x] + of_type(a1, kx))[0] == x);
    assert((seq![y] + of_type(b1, kx))[0] == y);
    assert forall|k: Seq<u8>| #[trigger] of_type(a1, k) == of_type(b1, k) by {
        lemma_of_type_prepend(x, a1, k);
        lemma_of_type_prepend(y, b1, k);
        assert(of_type(a, k) == of_type(b, k));
        if kx == k {
            assert(of_type(a1, k) =~= (seq![x] + of_type(a1, k)).drop_first());
            assert(of_type(b1, k) =~= (seq![y] + of_type(b1, k)).drop_first());
        }
    }
}

/// Two sequences sorted by type key that hold the same entries of each type, in
/// the same order, are equal.
proof fn lemma_sorted_same_types_equal(a: Seq<DiffEntry>, b: Seq<DiffEntry>)
    requires
        sorted_by_type(a),
        sorted_by_type(b),
        forall|k: Seq<u8>| #[trigger] of_type(a, k) == of_type(b, k),
    ensures
        a == b,
    decreases a.len() + b.len(),
{
    if a.len() == 0 && b.len() == 0 {
        assert(a =~= b);
    } else if a.len() == 0 {
        lemma_nonempty_has_own_type(b);
        lemma_empty_of_type(a, type_key(b[0]));
        assert(of_type(a, type_key(b[0])) == of_type(b, type_key(b[0])));
    } else if b.len() == 0 {
        lemma_nonempty_has_own_type(a);
        lemma_empty_of_type(b, type_key(a[0]));
        assert(of_type(a, type_key(a[0])) == of_type(b, type_key(a[0])));
    } else {
        lemma_first_types_equal(a, b);
        lemma_heads_and_tails(a, b);
        lemma_sorted_drop_first(a);
        lemma_sorted_drop_first(b);
        lemma_sorted_same_types_equal(a.drop_first(), b.drop_first());
        assert(a =~= seq![a[0]] + a.drop_first());
        assert(b =~= seq![b[0]] + b.drop_first());
    }
}

/// A state diff is fixed by the effects of a run and the genesis records: any two
/// results that `canonical_diff` may return for them are equal, and so serialize
/// to the same bytes.
pub proof fn lemma_canonical_diff_deterministic(
    effects: Seq<DiffEntry>,
    genesis: Seq<DiffEntry>,
    r1: Seq<DiffEntry>,
    r2: Seq<DiffEntry>,
)
    requires
        sorted_by_type(r1),
        sorted_by_type(r2),
        forall|k: Seq<u8>|
            #[trigger] of_type(r1, k) == of_type(
                effects.filter(|e: DiffEntry| emitted(e, genesis)),
                k,
            ),
        forall|k: Seq<u8>|
            #[trigger] of_type(r2, k) == of_type(
                effects.filter(|e: DiffEntry| emitted(e, genesis)),
                k,
            ),
    ensures
        r1 == r2,
        crate::diff::diff_json(r1) == crate::diff::diff_json(r2),
{
    assert forall|k: Seq<u8>| #[trigger] of_type(r1, k) == of_type(r2, k) by {
        assert(of_type(r1, k) == of_type(effects.filter(|e: DiffEntry| emitted(e, genesis)), k));
        assert(of_type(r2, k) == of_type(effects.filter(|e: DiffEntry| emitted(e, genesis)), k));
    }
    lemma_sorted_same_types_equal(r1, r2);
}

fn bytes_less(a: &[u8], b: &[u8]) -> (r: bool)
    ensures
        r == bytes_lt(a@, b@),
{
    let mut i: usize = 0;
    assert(a@.subrange(0, a@.len() as int) =~= a@);
    assert(b@.subrange(0, b@.len() as int) =~= b@);
    while i < a.len() && i < b.len() && a[i] == b[i]
        invariant
            i <= a@.len(),
            i <= b@.len(),
            bytes_lt(a@, b@) == bytes_lt(
                a@.subrange(i as int, a@.len() as int),
                b@.subrange(i as int, b@.len() as int),
            ),
        decreases a@.len() - i,
    {
        assert(a@.subrange(i as int, a@.len() as int).drop_first() =~= a@.subrange(
            i + 1,
            a@.len() as int,
        ));
        assert(b@.subrange(i as int, b@.len() as int).drop_first() =~= b@.subrange(
            i + 1,
            b@.len() as int,
        ));
        i = i + 1;
    }
    assert(a@.subrange(0, a@.len() as int) =~= a@);
    assert(b@.subrange(0, b@.len() as int) =~= b@);
    if i == a.len() {
        i < b.len()
    } else if i == b.len() {
        false
    } else {
        a[i] < b[i]
    }
}

fn type_key_of(t: &ResourceType) -> (r: Vec<u8>)
    ensures
        r@ == ty_json(*t),
{
    t.to_json()
}

fn is_unchanged(e_json: &[u8], genesis: &Vec<DiffEntry>, Ghost(e): Ghost<DiffEntry>) -> (r: bool)
    requires
        e_json@ == entry_json(e),
    ensures
        r == unchanged(e, genesis@),
{
    let mut k: usize = 0;
    while k < genesis.len()
        invariant
            k <= genesis@.len(),
            e_json@ == entry_json(e),
            forall|j: int| 0 <= j < k ==> entry_json(#[trigger] genesis@[j]) != entry_json(e),
        decreases genesis@.len() - k,
    {
        let g = genesis[k].to_json();
        if bytes_equal(g.as_slice(), e_json) {
            return true;
        }
        k = k + 1;
    }
    false
}

/// Entries of resource type key `k`.
pub open spec fn has_type(k: Seq<u8>) -> spec_fn(DiffEntry) -> bool {
    |e: DiffEntry| type_key(e) == k
}

/// The entries of `es` whose type key is `k`, in their order in `es`.
pub open spec fn of_type(es: Seq<DiffEntry>, k: Seq<u8>) -> Seq<DiffEntry> {
    es.filter(has_type(k))
}

proof fn lemma_insert_of_type(s: Seq<DiffEntry>, j: int, e: DiffEntry, k: Seq<u8>)
    requires
        0 <= j <= s.len(),
        forall|p: int| j <= p < s.len() ==> type_key(#[trigger] s[p]) != type_key(e),
    ensures
        of_type(s.insert(j, e), k) == if k == type_key(e) {
            of_type(s, k).push(e)
        } else {
            of_type(s, k)
        },
{
    let a = s.subrange(0, j);
    let b = s.subrange(j, s.len() as int);
    let pr = has_type(k);
    assert(s =~= a + b);
    assert(s.insert(j, e) =~= a.push(e) + b);
    Seq::filter_distributes_over_add(a.push(e), b, pr);
    Seq::filter_distributes_over_add(a, b, pr);
    a.lemma_filter_push(e, pr);
    if k == type_key(e) {
        assert forall|i: int| 0 <= i < b.len() implies !pr(#[trigger] b[i]) by {
            assert(b[i] == s[j + i]);
        }
        b.lemma_all_neg_filter_empty(pr);
        assert(b.filter(pr) =~= Seq::<DiffEntry>::empty());
        assert(a.push(e).filter(pr) + b.filter(pr) =~= (a.filter(pr) + b.filter(pr)).push(e));
    }
}

proof fn lemma_insert_position(s: Seq<DiffEntry>, j: int, e: DiffEntry)
    requires
        sorted_by_type(s),
        0 <= j <= s.len(),
        forall|p: int| 0 <= p < j ==> !bytes_lt(type_key(e), type_key(#[trigger] s[p])),
        j < s.len() ==> bytes_lt(type_key(e), type_key(s[j])),
    ensures
        sorted_by_type(s.insert(j, e)),
        forall|k: Seq<u8>|
            #[trigger] of_type(s.insert(j, e), k) == if k == type_key(e) {
                of_type(s, k).push(e)
            } else {
                of_type(s, k)
            },
{
    let t = s.insert(j, e);
    let key = type_key(e);
    assert forall|p: int, q: int| 0 <= p < q < t.len() implies !bytes_lt(
        type_key(#[trigger] t[q]),
        type_key(#[trigger] t[p]),
    ) by {
        if q < j {
            assert(t[p] == s[p] && t[q] == s[q]);
        } else if q == j {
            assert(t[p] == s[p] && t[q] == e);
        } else if p > j {
            assert(t[p] == s[p - 1] && t[q] == s[q - 1]);
        } else if p < j {
            assert(t[p] == s[p] && t[q] == s[q - 1]);
        } else {
            assert(t[p] == e && t[q] == s[q - 1]);
            lemma_bytes_lt_asymmetric(key, type_key(s[j]));
            lemma_bytes_lt_transitive(type_key(s[q - 1]), key, type_key(s[j]));
            if q - 1 > j {
                assert(!bytes_lt(type_key(s[q - 1]), type_key(s[j])));
            }
        }
    }
    assert forall|p: int| j <= p < s.len() implies type_key(#[trigger] s[p]) != key by {
        lemma_bytes_lt_asymmetric(key, key);
        if p > j {
            assert(!bytes_lt(type_key(s[p]), type_key(s[j])));
        }
    }
    assert forall|k: Seq<u8>| #[trigger] of_type(t, k) == if k == key {
        of_type(s, k).push(e)
    } else {
        of_type(s, k)
    } by {
        lemma_insert_of_type(s, j, e, k);
    }
}

/// Inserts `e` after every entry whose key is not above its own.
fn insert_sorted(out: &mut Vec<DiffEntry>, e: DiffEntry)
    requires
        sorted_by_type(old(out)@),
    ensures
        sorted_by_type(final(out)@),
        final(out)@.to_multiset() == old(out)@.to_multiset().insert(e),
        forall|k: Seq<u8>|
            #[trigger] of_type(final(out)@, k) == if k == type_key(e) {
                of_type(old(out)@, k).push(e)
            } else {
                of_type(old(out)@, k)
            },
{
    let key = type_key_of(&e.ty);
    let mut j: usize = 0;
    while j < out.len() && !bytes_less(key.as_slice(), type_key_of(&out[j].ty).as_slice())
        invariant
            j <= out@.len(),
            key@ == type_key(e),
            forall|p: int| 0 <= p < j ==> !bytes_lt(key@, type_key(#[trigger] out@[p])),
        decreases out@.len() - j,
    {
        j = j + 1;
    }
    proof {
        lemma_insert_position(out@, j as int, e);
    }
    out.insert(j, e);
}

/// The state diff of a run: the writes that change the state, in ascending order
/// of their resource types. Deletions and writes that leave a genesis record as
/// it was give no entry.
pub fn canonical_diff(effects: Vec<DiffEntry>, genesis: &Vec<DiffEntry>) -> (r: Vec<DiffEntry>)
    ensures
        sorted_by_type(r@),
        r@.to_multiset() == effects@.filter(|e: DiffEntry| emitted(e, genesis@)).to_multiset(),
        forall|k: Seq<u8>|
            #[trigger] of_type(r@, k) == of_type(
                effects@.filter(|e: DiffEntry| emitted(e, genesis@)),
                k,
            ),
{
    let ghost all = effects@;
    let ghost pred = |e: DiffEntry| emitted(e, genesis@);
    let mut rest = effects;
    let n = rest.len();
    let mut out: Vec<DiffEntry> = Vec::new();
    let mut k: usize = 0;
    assert(all.subrange(0, 0).filter(pred) =~= Seq::<DiffEntry>::empty());
    assert(rest@ =~= all.subrange(0, all.len() as int));
    while rest.len() > 0
        invariant
            k + rest@.len() == all.len(),
            all.len() == n,
            rest@ == all.subrange(k as int, all.len() as int),
            pred == (|e: DiffEntry| emitted(e, genesis@)),
            sorted_by_type(out@),
            out@.to_multiset() == all.subrange(0, k as int).filter(pred).to_multiset(),
            forall|key: Seq<u8>|
                #[trigger] of_type(out@, key) == of_type(all.subrange(0, k as int).filter(pred), key),
        decreases rest@.len(),
    {
        let e = rest.remove(0);
        let ghost prev = out@;
        proof {
            assert(all.subrange(0, k + 1) =~= all.subrange(0, k as int).push(e));
            all.subrange(0, k as int).lemma_filter_push(e, pred);
            let f = all.subrange(0, k as int).filter(pred);
            assert forall|key: Seq<u8>| #[trigger] of_type(f.push(e), key) == if key == type_key(e) {
                of_type(f, key).push(e)
            } else {
                of_type(f, key)
            } by {
                f.lemma_filter_push(e, has_type(key));
            }
        }
        let write = match e.op {
            Op::SetValue(_) => true,
            Op::Delete => false,
        };
        if write {
            let e_json = e.to_json();
            if !is_unchanged(e_json.as_slice(), genesis, Ghost(e)) {
                insert_sorted(&mut out, e);
            }
        }
        k = k + 1;
    }
    assert(all.subrange(0, k as int) =~= all);
    out
}

} // verus!
