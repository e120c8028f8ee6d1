use vstd::prelude::*;

use crate::address::render_hex;
use crate::dialect::{dialect_literal, literal_address, DialectName};
use vstd::slice::slice_subrange;

verus! {

/// Length of a canonical hex literal: `0x` and the full-width digits.
pub const CANONICAL_LITERAL_LENGTH: usize = 66;

/// A byte that can be part of an identifier or literal token.
pub open spec fn is_word_byte(b: u8) -> bool {
    (48 <= b <= 57) || (65 <= b <= 90) || (97 <= b <= 122) || b == 95
}

/// End of the maximal run of word bytes that starts at `i`.
pub open spec fn token_end(s: Seq<u8>, i: int) -> int
    decreases s.len() - i,
{
    if 0 <= i < s.len() && is_word_byte(s[i]) {
        token_end(s, i + 1)
    } else {
        i
    }
}

pub proof fn lemma_token_end(s: Seq<u8>, i: int)
    requires
        0 <= i <= s.len(),
    ensures
        i <= token_end(s, i) <= s.len(),
        forall|j: int| i <= j < token_end(s, i) ==> is_word_byte(#[trigger] s[j]),
        token_end(s, i) == s.len() || !is_word_byte(s[token_end(s, i)]),
    decreases s.len() - i,
{
    if i < s.len() && is_word_byte(s[i]) {
        lemma_token_end(s, i + 1);
    }
}

/// What replaces a token: the canonical literal of the address it denotes, or the token itself.
pub open spec fn replacement(d: DialectName, tok: Seq<u8>) -> Seq<u8> {
    match literal_address(d, tok) {
        Some(a) => render_hex(a),
        None => tok,
    }
}

#[via_fn]
proof fn rewritten_from_decreases(d: DialectName, s: Seq<u8>, i: int) {
    if 0 <= i < s.len() && is_word_byte(s[i]) {
        lemma_token_end(s, i);
    }
}

/// The rewriting of `s` from position `i` on: dialect literals replaced, all else kept.
pub open spec fn rewritten_from(d: DialectName, s: Seq<u8>, i: int) -> Seq<u8>
    decreases s.len() - i,
    via rewritten_from_decreases
{
    if i < 0 || i >= s.len() {
        Seq::empty()
    } else if !is_word_byte(s[i]) {
        seq![s[i]] + rewritten_from(d, s, i + 1)
    } else {
        replacement(d, s.subrange(i, token_end(s, i))) + rewritten_from(d, s, token_end(s, i))
    }
}

#[via_fn]
proof fn records_from_decreases(d: DialectName, s: Seq<u8>, i: int, pos: int) {
    if 0 <= i < s.len() && is_word_byte(s[i]) {
        lemma_token_end(s, i);
    }
}

/// Positions just after a substituted literal, in the original and the rewritten text.
#[derive(Debug, Clone, Copy, PartialEq, Eq)]
pub struct OffsetRecord {
    pub original: usize,
    pub rewritten: usize,
}

/// The records that rewriting `s` from position `i` on appends, when the
/// rewritten text so far has length `pos`.
pub open spec fn records_from(d: DialectName, s: Seq<u8>, i: int, pos: int) -> Seq<OffsetRecord>
    decreases s.len() - i,
    via records_from_decreases
{
    if i < 0 || i >= s.len() {
        Seq::empty()
    } else if !is_word_byte(s[i]) {
        records_from(d, s, i + 1, pos + 1)
    } else {
        let e = token_end(s, i);
        match literal_address(d, s.subrange(i, e)) {
            Some(a) => seq![
                OffsetRecord {
                    original: e as usize,
                    rewritten: (pos + CANONICAL_LITERAL_LENGTH) as usize,
                },
            ] + records_from(d, s, e, pos + CANONICAL_LITERAL_LENGTH),
            None => records_from(d, s, e, pos + (e - i)),
        }
    }
}

/// A token starts at `i`: a word byte that no word byte precedes.
pub open spec fn token_starts_at(s: Seq<u8>, i: int) -> bool {
    0 <= i < s.len() && is_word_byte(s[i]) && (i == 0 || !is_word_byte(s[i - 1]))
}

/// No token of `s` is a literal of dialect `d`.
pub open spec fn has_no_dialect_literals(d: DialectName, s: Seq<u8>) -> bool {
    forall|i: int|
        #[trigger] token_starts_at(s, i) ==> literal_address(d, s.subrange(i, token_end(s, i)))
            is None
}

/// Records ascend strictly in both positions.
pub open spec fn records_ordered(recs: Seq<OffsetRecord>) -> bool {
    forall|j: int, k: int|
        0 <= j < k < recs.len() ==> (#[trigger] recs[j]).rewritten < (#[trigger] recs[k]).rewritten
            && recs[j].original < recs[k].original
}

/// Original position of rewritten position `p`, by the last of the first `n`
/// records that lies at or before `p`.
pub open spec fn translate_prefix(recs: Seq<OffsetRecord>, p: int, n: int) -> int
    decreases n,
{
    if n <= 0 {
        p
    } else if recs[n - 1].rewritten <= p {
        p - recs[n - 1].rewritten + recs[n - 1].original
    } else {
        translate_prefix(recs, p, n - 1)
    }
}

/// Original position of rewritten position `p`.
pub open spec fn translate_position(recs: Seq<OffsetRecord>, p: int) -> int {
    translate_prefix(recs, p, recs.len() as int)
}

/// Rewritten position `p` lies inside a substituted literal.
pub open spec fn inside_substitution(recs: Seq<OffsetRecord>, p: int) -> bool {
    exists|k: int|
        0 <= k < recs.len() && (#[trigger] recs[k]).rewritten - CANONICAL_LITERAL_LENGTH <= p
            < recs[k].rewritten
}

/// Maps positions in rewritten text back to the original text.
#[derive(Debug, Clone, PartialEq, Eq)]
pub struct OffsetMap {
    pub records: Vec<OffsetRecord>,
}

/// Rewritten source text and the map back to the original positions.
#[derive(Debug, Clone, PartialEq, Eq)]
pub struct Rewrite {
    pub text: Vec<u8>,
    pub map: OffsetMap,
}

impl OffsetMap {
    pub open spec fn wf(&self) -> bool {
        records_ordered(self.records@)
    }

    /// The original position of rewritten position `p`, if it fits in `usize`.
    pub fn translate(&self, p: usize) -> (r: Option<usize>)
        requires
            self.wf(),
        ensures
            translate_position(self.records@, p as int) <= usize::MAX ==> r == Some(
                translate_position(self.records@, p as int) as usize,
            ),
            translate_position(self.records@, p as int) > usize::MAX ==> r is None,
            translate_position(self.records@, p as int) >= 0,
    {
        proof {
            lemma_translate_nonnegative(self.records@, p as int, self.records@.len() as int);
        }
        let ghost recs = self.records@;
        let n = self.records.len();
        let mut lo: usize = 0;
        let mut hi: usize = n;
        while lo < hi
            invariant
                lo <= hi <= n,
                n == recs.len(),
                recs == self.records@,
                records_ordered(recs),
                forall|k: int| 0 <= k < lo ==> (#[trigger] recs[k]).rewritten <= p,
                forall|k: int| hi <= k < n ==> (#[trigger] recs[k]).rewritten > p,
            decreases hi - lo,
        {
            let mid = lo + (hi - lo) / 2;
            if self.records[mid].rewritten <= p {
                assert forall|k: int| 0 <= k < mid + 1 implies (#[trigger] recs[k]).rewritten
                    <= p by {
                    if k < mid {
                        assert(recs[k].rewritten < recs[mid as int].rewritten);
                    }
                }
                lo = mid + 1;
            } else {
                assert forall|k: int| mid <= k < n implies (#[trigger] recs[k]).rewritten > p by {
                    if k > mid {
                        assert(recs[mid as int].rewritten < recs[k].rewritten);
                    }
                }
                hi = mid;
            }
        }
        proof {
            lemma_translate_skip(recs, p as int, lo as int, n as int);
        }
        if lo == 0 {
            Some(p)
        } else {
            let rec = self.records[lo - 1];
            (p - rec.rewritten).checked_add(rec.original)
        }
    }
}

proof fn lemma_translate_nonnegative(recs: Seq<OffsetRecord>, p: int, n: int)
    requires
        p >= 0,
        n <= recs.len(),
    ensures
        translate_prefix(recs, p, n) >= 0,
    decreases n,
{
    if n > 0 {
        lemma_translate_nonnegative(recs, p, n - 1);
    }
}

proof fn lemma_translate_skip(recs: Seq<OffsetRecord>, p: int, lo: int, n: int)
    requires
        0 <= lo <= n <= recs.len(),
        forall|k: int| lo <= k < n ==> (#[trigger] recs[k]).rewritten > p,
    ensures
        translate_prefix(recs, p, n) == translate_prefix(recs, p, lo),
    decreases n - lo,
{
    if n > lo {
        lemma_translate_skip(recs, p, lo, n - 1);
    }
}

proof fn lemma_translate_same_prefix(a: Seq<OffsetRecord>, b: Seq<OffsetRecord>, p: int, n: int)
    requires
        0 <= n <= a.len(),
        n <= b.len(),
        forall|k: int| 0 <= k < n ==> a[k] == b[k],
    ensures
        translate_prefix(a, p, n) == translate_prefix(b, p, n),
    decreases n,
{
    if n > 0 {
        lemma_translate_same_prefix(a, b, p, n - 1);
    }
}

proof fn lemma_token_end_append(a: Seq<u8>, b: Seq<u8>, t: int)
    requires
        0 <= t <= a.len(),
        token_end(a, t) < a.len() || b.len() == 0 || !is_word_byte(b[0]),
    ensures
        token_end(a + b, t) == token_end(a, t),
    decreases a.len() - t,
{
    let c = a + b;
    if t < a.len() && is_word_byte(a[t]) {
        assert(c[t] == a[t]);
        lemma_token_end_append(a, b, t + 1);
    } else if t < a.len() {
        assert(c[t] == a[t]);
    } else if b.len() > 0 {
        assert(c[t] == b[0]);
    }
}

proof fn lemma_token_end_at_end(c: Seq<u8>, j: int)
    requires
        0 <= j <= c.len(),
        forall|k: int| j <= k < c.len() ==> is_word_byte(#[trigger] c[k]),
    ensures
        token_end(c, j) == c.len(),
    decreases c.len() - j,
{
    if j < c.len() {
        lemma_token_end_at_end(c, j + 1);
    }
}

/// Appending a non-word byte, or a whole token that is no dialect literal after a
/// non-word byte, keeps a text free of dialect literals.
proof fn lemma_append_keeps_no_literals(d: DialectName, a: Seq<u8>, b: Seq<u8>)
    requires
        has_no_dialect_literals(d, a),
        (b.len() == 1 && !is_word_byte(b[0])) || (b.len() > 0 && (forall|k: int|
            0 <= k < b.len() ==> is_word_byte(#[trigger] b[k])) && (a.len() == 0
            || !is_word_byte(a.last())) && literal_address(d, b) is None),
    ensures
        has_no_dialect_literals(d, a + b),
{
    let c = a + b;
    assert forall|t: int| #[trigger] token_starts_at(c, t) implies literal_address(
        d,
        c.subrange(t, token_end(c, t)),
    ) is None by {
        if t < a.len() {
            assert(c[t] == a[t]);
            if t > 0 {
                assert(c[t - 1] == a[t - 1]);
            }
            assert(token_starts_at(a, t));
            lemma_token_end(a, t);
            let e = token_end(a, t);
            if e == a.len() && b.len() > 0 && is_word_byte(b[0]) {
                assert(is_word_byte(a[a.len() - 1]));
            }
            lemma_token_end_append(a, b, t);
            assert(c.subrange(t, e) =~= a.subrange(t, e));
        } else if t == a.len() {
            assert(c[t] == b[0]);
            assert forall|k: int| t <= k < c.len() implies is_word_byte(#[trigger] c[k]) by {
                assert(c[k] == b[k - t]);
            }
            lemma_token_end_at_end(c, t);
            assert(c.subrange(t, c.len() as int) =~= b);
        } else {
            assert(c[t - 1] == b[t - 1 - a.len()]);
        }
    }
}

fn word_byte_check(b: u8) -> (r: bool)
    ensures
        r == is_word_byte(b),
{
    (48 <= b && b <= 57) || (65 <= b && b <= 90) || (97 <= b && b <= 122) || b == 95
}

fn token_end_exec(s: &[u8], i: usize) -> (r: usize)
    requires
        i < s@.len(),
        is_word_byte(s@[i as int]),
    ensures
        r == token_end(s@, i as int),
        i < r <= s@.len(),
{
    proof {
        lemma_token_end(s@, i as int + 1);
    }
    let mut j: usize = i;
    while j < s.len() && word_byte_check(s[j])
        invariant
            i <= j <= s@.len(),
            token_end(s@, j as int) == token_end(s@, i as int),
        decreases s@.len() - j,
    {
        j = j + 1;
    }
    j
}

fn push_slice(out: &mut Vec<u8>, t: &[u8])
    ensures
        final(out)@ == old(out)@ + t@,
{
    let ghost start = out@;
    let mut i: usize = 0;
    while i < t.len()
        invariant
            i <= t@.len(),
            out@ == start + t@.subrange(0, i as int),
        decreases t@.len() - i,
    {
        out.push(t[i]);
        i = i + 1;
        assert(out@ =~= start + t@.subrange(0, i as int));
    }
    assert(t@.subrange(0, i as int) =~= t@);
}

proof fn lemma_canonical_literal_is_word(a: Seq<u8>)
    ensures
        forall|k: int| 0 <= k < render_hex(a).len() ==> is_word_byte(#[trigger] render_hex(a)[k]),
{
    assert forall|k: int| 0 <= k < render_hex(a).len() implies is_word_byte(
        #[trigger] render_hex(a)[k],
    ) by {
        if k >= 2 {
            let j = k - 2;
            if j % 2 == 0 {
                crate::address::lemma_hex_char_value(a[j / 2] / 16);
            } else {
                crate::address::lemma_hex_char_value(a[j / 2] % 16);
            }
        }
    }
}

/// The offset records describe how `out` was built from the first `i` bytes of
/// `s`: positions outside substituted literals go back, in ascending order, to
/// the original byte they were copied from.
#[verifier::opaque]
spec fn positions_tracked(s: Seq<u8>, out: Seq<u8>, recs: Seq<OffsetRecord>, i: int) -> bool {
    &&& 0 <= i <= s.len()
    &&& records_ordered(recs)
    &&& forall|k: int|
        0 <= k < recs.len() ==> (#[trigger] recs[k]).original <= i && recs[k].rewritten
            <= out.len()
    &&& recs.len() == 0 ==> out.len() == i
    &&& recs.len() > 0 ==> out.len() - recs.last().rewritten == i - recs.last().original
    &&& forall|p: int|
        0 <= p < out.len() && !inside_substitution(recs, p) ==> 0 <= #[trigger] translate_position(
            recs,
            p,
        ) < i && out[p] == s[translate_position(recs, p)]
    &&& forall|p: int, later: int|
        0 <= p < later < out.len() && !inside_substitution(recs, p) && !inside_substitution(recs, later)
            ==> #[trigger] translate_position(recs, p) < #[trigger] translate_position(recs, later)
}

proof fn lemma_tracked_start(s: Seq<u8>)
    ensures
        positions_tracked(s, Seq::empty(), Seq::empty(), 0),
{
    reveal(positions_tracked);
}

proof fn lemma_tracked_copy(s: Seq<u8>, out: Seq<u8>, recs: Seq<OffsetRecord>, i: int, j: int)
    requires
        positions_tracked(s, out, recs, i),
        i <= j <= s.len(),
    ensures
        positions_tracked(s, out + s.subrange(i, j), recs, j),
{
    reveal(positions_tracked);
    let q = out.len() as int;
    let o = out + s.subrange(i, j);
    assert forall|p: int| q <= p < o.len() implies translate_position(recs, p) == p - q + i
        && o[p] == s[p - q + i] by {
        if recs.len() > 0 {
            assert(recs[recs.len() - 1].rewritten <= q);
        }
    }
    assert forall|p: int|
        0 <= p < o.len() && !inside_substitution(recs, p) implies 0
            <= #[trigger] translate_position(recs, p) < j && o[p] == s[translate_position(recs, p)] by {
        if p < q {
            assert(o[p] == out[p]);
        }
    }
    assert forall|p: int, later: int|
        0 <= p < later < o.len() && !inside_substitution(recs, p) && !inside_substitution(recs, later)
            implies #[trigger] translate_position(recs, p) < #[trigger] translate_position(
        recs,
        later,
    ) by {
        if p < q && later >= q {
            assert(translate_position(recs, p) < i);
        }
    }
}

proof fn lemma_tracked_substitute(
    s: Seq<u8>,
    out: Seq<u8>,
    recs: Seq<OffsetRecord>,
    i: int,
    e: int,
    lit: Seq<u8>,
)
    requires
        positions_tracked(s, out, recs, i),
        i < e <= s.len(),
        e <= usize::MAX,
        lit.len() == CANONICAL_LITERAL_LENGTH,
        out.len() + CANONICAL_LITERAL_LENGTH <= usize::MAX,
    ensures
        positions_tracked(
            s,
            out + lit,
            recs.push(
                OffsetRecord {
                    original: e as usize,
                    rewritten: (out.len() + CANONICAL_LITERAL_LENGTH) as usize,
                },
            ),
            e,
        ),
{
    reveal(positions_tracked);
    let q = out.len() as int;
    let m = recs.len() as int;
    let o = out + lit;
    let r = OffsetRecord { original: e as usize, rewritten: (q + CANONICAL_LITERAL_LENGTH) as usize };
    let t = recs.push(r);
    assert(t[m] == r);
    assert forall|j: int, k: int| 0 <= j < k < t.len() implies (#[trigger] t[j]).rewritten
        < (#[trigger] t[k]).rewritten && t[j].original < t[k].original by {
        assert(t[j] == recs[j]);
        if k < m {
            assert(t[k] == recs[k]);
        }
    }
    assert forall|k: int| 0 <= k < t.len() implies (#[trigger] t[k]).original <= e
        && t[k].rewritten <= o.len() by {
        if k < m {
            assert(t[k] == recs[k]);
        }
    }
    assert forall|p: int| 0 <= p < q implies translate_position(t, p) == translate_position(recs, p)
        && (inside_substitution(recs, p) ==> inside_substitution(t, p)) by {
        lemma_translate_same_prefix(t, recs, p, m);
        if inside_substitution(recs, p) {
            let k = choose|k: int|
                0 <= k < recs.len() && (#[trigger] recs[k]).rewritten - CANONICAL_LITERAL_LENGTH <= p
                    < recs[k].rewritten;
            assert(t[k] == recs[k]);
        }
    }
    assert forall|p: int| q <= p < o.len() implies inside_substitution(t, p) by {
        assert(t[m].rewritten - CANONICAL_LITERAL_LENGTH <= p < t[m].rewritten);
    }
    assert forall|p: int|
        0 <= p < o.len() && !inside_substitution(t, p) implies 0 <= #[trigger] translate_position(
        t,
        p,
    ) < e && o[p] == s[translate_position(t, p)] by {
        assert(o[p] == out[p]);
    }
    assert forall|p: int, later: int|
        0 <= p < later < o.len() && !inside_substitution(t, p) && !inside_substitution(t, later) implies #[trigger] translate_position(
        t,
        p,
    ) < #[trigger] translate_position(t, later) by {
        assert(later < q);
    }
}

proof fn lemma_tracked_end(s: Seq<u8>, out: Seq<u8>, recs: Seq<OffsetRecord>)
    requires
        positions_tracked(s, out, recs, s.len() as int),
    ensures
        records_ordered(recs),
        forall|p: int, later: int|
            0 <= p < later < out.len() && !inside_substitution(recs, p) && !inside_substitution(
                recs,
                later,
            ) ==> #[trigger] translate_position(recs, p) < #[trigger] translate_position(recs, later),
        forall|p: int|
            0 <= p < out.len() && !inside_substitution(recs, p) ==> 0
                <= #[trigger] translate_position(recs, p) < s.len() && out[p] == s[translate_position(
                recs,
                p,
            )],
{
    reveal(positions_tracked);
}

proof fn lemma_tracked_bounds(s: Seq<u8>, out: Seq<u8>, recs: Seq<OffsetRecord>, i: int)
    requires
        positions_tracked(s, out, recs, i),
    ensures
        recs.len() == 0 ==> out.len() == i,
{
    reveal(positions_tracked);
}

/// Replaces each token that is a literal of dialect `d` with the canonical hex
/// literal of its address, and records where each replacement ends.
pub fn rewrite(d: DialectName, s: &[u8]) -> (r: Rewrite)
    ensures
        r.text@ == rewritten_from(d, s@, 0),
        r.map.records@ == records_from(d, s@, 0, 0),
        r.map.wf(),
        has_no_dialect_literals(d, s@) ==> r.text@ == s@ && r.map.records@.len() == 0,
        has_no_dialect_literals(d, r.text@),
        forall|p: int, later: int|
            0 <= p < later < r.text@.len() && !inside_substitution(r.map.records@, p)
                && !inside_substitution(r.map.records@, later) ==> #[trigger] translate_position(
                r.map.records@,
                p,
            ) < #[trigger] translate_position(r.map.records@, later),
        forall|p: int|
            0 <= p < r.text@.len() && !inside_substitution(r.map.records@, p) ==> 0
                <= #[trigger] translate_position(r.map.records@, p) < s@.len() && r.text@[p]
                == s@[translate_position(r.map.records@, p)],
{
    let mut out: Vec<u8> = Vec::new();
    let mut recs: Vec<OffsetRecord> = Vec::new();
    let n = s.len();
    let mut i: usize = 0;
    proof {
        lemma_tracked_start(s@);
    }
    assert(has_no_dialect_literals(d, out@));
    assert(out@ + rewritten_from(d, s@, 0) =~= rewritten_from(d, s@, 0));
    assert(recs@ + records_from(d, s@, 0, 0) =~= records_from(d, s@, 0, 0));
    assert(out@ =~= s@.subrange(0, 0));
    while i < n
        invariant
            i <= n,
            n == s@.len(),
            out@ + rewritten_from(d, s@, i as int) == rewritten_from(d, s@, 0),
            recs@ + records_from(d, s@, i as int, out@.len() as int) == records_from(d, s@, 0, 0),
            positions_tracked(s@, out@, recs@, i as int),
            has_no_dialect_literals(d, s@) ==> out@ == s@.subrange(0, i as int) && recs@.len()
                == 0,
            0 < i < n && is_word_byte(s@[i - 1]) ==> !is_word_byte(s@[i as int]),
            has_no_dialect_literals(d, out@),
            i == 0 ==> out@.len() == 0,
            i > 0 ==> out@.len() > 0 && (is_word_byte(out@.last()) <==> is_word_byte(s@[i - 1])),
        decreases n - i,
    {
        let ghost q = out@.len() as int;
        let ghost old_out = out@;
        let ghost old_recs = recs@;
        if !word_byte_check(s[i]) {
            out.push(s[i]);
            proof {
                lemma_append_keeps_no_literals(d, old_out, seq![s@[i as int]]);
                assert(out@ =~= old_out + seq![s@[i as int]]);
                assert(s@.subrange(i as int, i + 1) =~= seq![s@[i as int]]);
                lemma_tracked_copy(s@, old_out, recs@, i as int, i + 1);
                assert(out@ + rewritten_from(d, s@, i + 1) =~= old_out + rewritten_from(
                    d,
                    s@,
                    i as int,
                ));
                if has_no_dialect_literals(d, s@) {
                    assert(out@ =~= s@.subrange(0, i + 1));
                }
            }
            i = i + 1;
        } else {
            let e = token_end_exec(s, i);
            proof {
                lemma_token_end(s@, i as int);
            }
            let tok = slice_subrange(s, i, e);
            match dialect_literal(d, tok) {
                Some(a) => {
                    let lit = a.to_hex_literal();
                    push_slice(&mut out, lit.as_slice());
                    recs.push(OffsetRecord { original: e, rewritten: out.len() });
                    proof {
                        lemma_tracked_substitute(s@, old_out, old_recs, i as int, e as int, lit@);
                        lemma_canonical_literal_is_word(a@);
                        crate::dialect::lemma_hex_literal_not_dialect_form(d, a@);
                        lemma_append_keeps_no_literals(d, old_out, lit@);
                        assert(out@.last() == lit@.last());
                        assert(out@ + rewritten_from(d, s@, e as int) =~= old_out
                            + rewritten_from(d, s@, i as int));
                        assert(recs@ + records_from(d, s@, e as int, out@.len() as int)
                            =~= old_recs + records_from(d, s@, i as int, q));
                        if has_no_dialect_literals(d, s@) {
                            assert(token_starts_at(s@, i as int));
                        }
                    }
                },
                None => {
                    push_slice(&mut out, tok);
                    proof {
                        assert(tok@ =~= s@.subrange(i as int, e as int));
                        assert forall|k: int| 0 <= k < tok@.len() implies is_word_byte(
                            #[trigger] tok@[k],
                        ) by {
                            assert(tok@[k] == s@[i + k]);
                        }
                        lemma_append_keeps_no_literals(d, old_out, tok@);
                        lemma_tracked_copy(s@, old_out, recs@, i as int, e as int);
                        assert(out@.last() == tok@.last());
                        assert(out@ + rewritten_from(d, s@, e as int) =~= old_out
                            + rewritten_from(d, s@, i as int));
                        if has_no_dialect_literals(d, s@) {
                            assert(token_starts_at(s@, i as int));
                            lemma_tracked_bounds(s@, old_out, recs@, i as int);
                            assert(out@ =~= s@.subrange(0, e as int));
                        }
                    }
                },
            }
            i = e;
        }
    }
    proof {
        lemma_tracked_end(s@, out@, recs@);
    }
    assert(out@ + rewritten_from(d, s@, n as int) =~= out@);
    assert(recs@ + records_from(d, s@, n as int, out@.len() as int) =~= recs@);
    Rewrite { text: out, map: OffsetMap { records: recs } }
}

} // verus!
