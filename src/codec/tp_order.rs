//! Reassembly does not depend on delivery order: delivering the segments of
//! a payload to the reassembler in any order completes exactly at the last
//! delivery, with the payload the segments were cut from.

use vstd::prelude::*;
use crate::codec::tp::{
    MAX_REASSEMBLY_BYTES, TpHeader, aligned_max, is_segmentation, is_slot, offsets_sorted,
    ready_at, stored_concat, tp_insert, tp_ready, tp_step, lemma_slot_unique,
};
use crate::codec::header::ReturnCode;

verus! {

/// The (offset, bytes, more) model of a produced segment.
pub open spec fn segment_model(s: (TpHeader, Vec<u8>)) -> (u32, Seq<u8>, bool) {
    (s.0.offset, s.1@, s.0.more_segments)
}

/// The models of the segments `lo..hi` for which `present` holds, in
/// index order.
pub open spec fn chosen(
    ms: Seq<(u32, Seq<u8>, bool)>,
    present: spec_fn(int) -> bool,
    lo: int,
    hi: int,
) -> Seq<(u32, Seq<u8>, bool)>
    decreases hi - lo,
{
    if hi <= lo {
        Seq::empty()
    } else if present(hi - 1) {
        chosen(ms, present, lo, hi - 1).push(ms[hi - 1])
    } else {
        chosen(ms, present, lo, hi - 1)
    }
}

/// The reassembler's segments for one key after delivering the first `k`
/// of `stream`, starting from none (as long as no delivery completed).
pub open spec fn fold_deliveries(stream: Seq<(u32, Seq<u8>, bool)>, k: int) -> Seq<(u32, Seq<u8>, bool)>
    decreases k,
{
    if k <= 0 {
        Seq::empty()
    } else {
        tp_step(fold_deliveries(stream, k - 1), stream[k - 1]).1
    }
}

/// What the reassembler reports for delivery `k` of `stream`.
pub open spec fn delivery_result(stream: Seq<(u32, Seq<u8>, bool)>, k: int) -> Result<Option<Seq<u8>>, ReturnCode> {
    tp_step(fold_deliveries(stream, k), stream[k]).0
}

/// Index `i` is among the first `k` entries of `perm`.
pub open spec fn in_prefix(perm: Seq<int>, k: int, i: int) -> bool {
    exists|x: int| 0 <= x < k && #[trigger] perm[x] == i
}

/// `perm` lists each of `0..n` exactly once.
pub open spec fn is_permutation(perm: Seq<int>, n: int) -> bool {
    &&& perm.len() == n
    &&& forall|x: int| 0 <= x < n ==> 0 <= #[trigger] perm[x] < n
    &&& forall|x: int, y: int| 0 <= x < y < n ==> #[trigger] perm[x] != #[trigger] perm[y]
    &&& forall|i: int| 0 <= i < n ==> #[trigger] in_prefix(perm, n, i)
}

/// Facts about a segmentation's models: offsets chain from 0 and strictly
/// increase, each offset is the length of the bytes before it, only the
/// last has More cleared, and all of them concatenate to the payload.
proof fn lemma_models(segs: Seq<(TpHeader, Vec<u8>)>, p: Seq<u8>, max: nat)
    requires
        max >= 16,
        is_segmentation(segs, p, max),
    ensures
        ({
            let ms = segs.map_values(|s: (TpHeader, Vec<u8>)| segment_model(s));
            let n = segs.len() as int;
            &&& forall|i: int, j: int| 0 <= i < j < n ==> (#[trigger] ms[i]).0 < (#[trigger] ms[j]).0
            &&& forall|i: int| 0 <= i <= n ==> #[trigger] stored_concat(ms, i).len() == if i < n { ms[i].0 as int } else { p.len() as int }
            &&& forall|i: int| 0 <= i < n - 1 ==> (#[trigger] ms[i]).2
            &&& !ms[n - 1].2
            &&& stored_concat(ms, n) == p
        }),
{
    let ms = segs.map_values(|s: (TpHeader, Vec<u8>)| segment_model(s));
    let n = segs.len() as int;
    let a = aligned_max(max);
    assert forall|i: int| 0 <= i <= n implies #[trigger] stored_concat(ms, i) == if i < n {
        p.subrange(0, ms[i].0 as int)
    } else {
        p
    } by {
        lemma_models_prefix(segs, p, max, i);
    }
    assert forall|i: int, j: int| 0 <= i < j < n implies (#[trigger] ms[i]).0 < (#[trigger] ms[j]).0 by {
        lemma_models_prefix(segs, p, max, i);
        lemma_models_prefix(segs, p, max, j);
        lemma_concat_grows(ms, i + 1, j);
        assert(segs[i].1@.len() == a);
        assert(stored_concat(ms, i + 1).len() == stored_concat(ms, i).len() + ms[i].1.len());
    }
    assert forall|i: int| 0 <= i < n - 1 implies (#[trigger] ms[i]).2 by {
        assert(segs[i].0.more_segments);
    }
}

proof fn lemma_models_prefix(segs: Seq<(TpHeader, Vec<u8>)>, p: Seq<u8>, max: nat, i: int)
    requires
        max >= 16,
        is_segmentation(segs, p, max),
        0 <= i <= segs.len(),
    ensures
        ({
            let ms = segs.map_values(|s: (TpHeader, Vec<u8>)| segment_model(s));
            stored_concat(ms, i) == if i < segs.len() { p.subrange(0, ms[i].0 as int) } else { p }
        }),
    decreases i,
{
    let ms = segs.map_values(|s: (TpHeader, Vec<u8>)| segment_model(s));
    let n = segs.len() as int;
    if i > 0 {
        lemma_models_prefix(segs, p, max, i - 1);
        let prev = segs[i - 1];
        assert(ms[i - 1] == segment_model(prev));
        if i < n {
            assert(ms[i].0 == segs[i].0.offset);
            assert(stored_concat(ms, i) =~= p.subrange(0, ms[i].0 as int));
        } else {
            assert(stored_concat(ms, i) =~= p);
        }
    } else {
        assert(stored_concat(ms, 0) =~= p.subrange(0, 0));
    }
}

proof fn lemma_concat_grows(ms: Seq<(u32, Seq<u8>, bool)>, i: int, j: int)
    requires
        0 <= i <= j,
    ensures
        stored_concat(ms, i).len() <= stored_concat(ms, j).len(),
    decreases j - i,
{
    if i < j {
        lemma_concat_grows(ms, i, j - 1);
    }
}

/// The facts about a segmentation's models that reassembly relies on.
pub open spec fn well_split(ms: Seq<(u32, Seq<u8>, bool)>, p: Seq<u8>) -> bool {
    let n = ms.len() as int;
    &&& n >= 1
    &&& forall|i: int, j: int| 0 <= i < j < n ==> (#[trigger] ms[i]).0 < (#[trigger] ms[j]).0
    &&& forall|i: int| 0 <= i <= n ==> #[trigger] stored_concat(ms, i).len() == if i < n { ms[i].0 as int } else { p.len() as int }
    &&& forall|i: int| 0 <= i < n - 1 ==> (#[trigger] ms[i]).2
    &&& !ms[n - 1].2
    &&& stored_concat(ms, n) == p
}

/// The segments chosen from `lo..hi` are at most `hi - lo`, and their
/// offsets lie from `lo`'s offset up to (not including) `hi`'s.
proof fn lemma_chosen_bounds(ms: Seq<(u32, Seq<u8>, bool)>, p: Seq<u8>, pr: spec_fn(int) -> bool, lo: int, hi: int)
    requires
        well_split(ms, p),
        0 <= lo <= hi <= ms.len(),
    ensures
        chosen(ms, pr, lo, hi).len() <= hi - lo,
        forall|x: int|
            0 <= x < chosen(ms, pr, lo, hi).len() ==> (lo < ms.len() ==> ms[lo].0 <= (#[trigger] chosen(ms, pr, lo, hi)[x]).0)
                && (hi < ms.len() ==> chosen(ms, pr, lo, hi)[x].0 < ms[hi].0),
    decreases hi - lo,
{
    if hi > lo {
        lemma_chosen_bounds(ms, p, pr, lo, hi - 1);
        let c0 = chosen(ms, pr, lo, hi - 1);
        let c = chosen(ms, pr, lo, hi);
        assert forall|x: int| 0 <= x < c.len() implies (lo < ms.len() ==> ms[lo].0 <= (#[trigger] c[x]).0)
            && (hi < ms.len() ==> c[x].0 < ms[hi].0) by {
            if hi < ms.len() {
                assert(ms[hi - 1].0 < ms[hi].0);
            }
            if lo < hi - 1 {
                assert(ms[lo].0 < ms[hi - 1].0);
            }
            if x < c0.len() {
                assert(c[x] == c0[x]);
            } else {
                assert(c[x] == ms[hi - 1]);
            }
        }
    }
}

proof fn lemma_chosen_split(ms: Seq<(u32, Seq<u8>, bool)>, pr: spec_fn(int) -> bool, lo: int, mid: int, hi: int)
    requires
        lo <= mid <= hi,
    ensures
        chosen(ms, pr, lo, hi) == chosen(ms, pr, lo, mid) + chosen(ms, pr, mid, hi),
    decreases hi - mid,
{
    if hi > mid {
        lemma_chosen_split(ms, pr, lo, mid, hi - 1);
        assert(chosen(ms, pr, lo, hi) =~= chosen(ms, pr, lo, mid) + chosen(ms, pr, mid, hi));
    } else {
        assert(chosen(ms, pr, lo, hi) =~= chosen(ms, pr, lo, mid) + chosen(ms, pr, mid, hi));
    }
}

proof fn lemma_chosen_agree(ms: Seq<(u32, Seq<u8>, bool)>, pr: spec_fn(int) -> bool, pr2: spec_fn(int) -> bool, lo: int, hi: int)
    requires
        forall|i: int| lo <= i < hi ==> #[trigger] pr(i) == pr2(i),
    ensures
        chosen(ms, pr, lo, hi) == chosen(ms, pr2, lo, hi),
    decreases hi - lo,
{
    if hi > lo {
        lemma_chosen_agree(ms, pr, pr2, lo, hi - 1);
    }
}

proof fn lemma_chosen_sorted(ms: Seq<(u32, Seq<u8>, bool)>, p: Seq<u8>, pr: spec_fn(int) -> bool, hi: int)
    requires
        well_split(ms, p),
        0 <= hi <= ms.len(),
    ensures
        offsets_sorted(chosen(ms, pr, 0, hi)),
    decreases hi,
{
    if hi > 0 {
        lemma_chosen_sorted(ms, p, pr, hi - 1);
        lemma_chosen_bounds(ms, p, pr, 0, hi - 1);
        let c0 = chosen(ms, pr, 0, hi - 1);
        let c = chosen(ms, pr, 0, hi);
        if pr(hi - 1) {
            assert forall|x: int, y: int| 0 <= x < y < c.len() implies c[x].0 < c[y].0 by {
                assert(c[x] == c0[x]);
                if y < c0.len() {
                    assert(c[y] == c0[y]);
                } else {
                    assert(c[y] == ms[hi - 1]);
                }
            }
        }
    }
}

/// Delivering a missing segment puts it in its place.
proof fn lemma_chosen_insert(ms: Seq<(u32, Seq<u8>, bool)>, p: Seq<u8>, pr: spec_fn(int) -> bool, j: int)
    requires
        well_split(ms, p),
        0 <= j < ms.len(),
        !pr(j),
    ensures
        tp_insert(chosen(ms, pr, 0, ms.len() as int), ms[j]) == chosen(ms, |i: int| pr(i) || i == j, 0, ms.len() as int),
{
    let n = ms.len() as int;
    let pr2 = |i: int| pr(i) || i == j;
    let a = chosen(ms, pr, 0, j);
    let b = chosen(ms, pr, j + 1, n);
    lemma_chosen_split(ms, pr, 0, j, n);
    lemma_chosen_split(ms, pr, j, j + 1, n);
    assert(chosen(ms, pr, j, j) =~= Seq::<(u32, Seq<u8>, bool)>::empty());
    assert(chosen(ms, pr, j, j + 1) =~= Seq::<(u32, Seq<u8>, bool)>::empty());
    let c = chosen(ms, pr, 0, n);
    assert(c =~= a + b);
    lemma_chosen_split(ms, pr2, 0, j, n);
    lemma_chosen_split(ms, pr2, j, j + 1, n);
    lemma_chosen_agree(ms, pr, pr2, 0, j);
    lemma_chosen_agree(ms, pr, pr2, j + 1, n);
    assert(chosen(ms, pr2, j, j) =~= Seq::<(u32, Seq<u8>, bool)>::empty());
    assert(pr2(j));
    assert(chosen(ms, pr2, j, j + 1) =~= seq![ms[j]]);
    let c2 = chosen(ms, pr2, 0, n);
    assert(c2 =~= a + seq![ms[j]] + b);
    lemma_chosen_bounds(ms, p, pr, 0, j);
    lemma_chosen_bounds(ms, p, pr, j + 1, n);
    let k = a.len() as int;
    let off = ms[j].0;
    assert forall|x: int| 0 <= x < k implies (#[trigger] c[x]).0 < off by {
        assert(c[x] == a[x]);
    }
    if k < c.len() {
        assert(c[k] == b[0]);
        assert(ms[j].0 < ms[j + 1].0);
        assert(c[k].0 > off);
    }
    assert(is_slot(c, off, k));
    lemma_chosen_sorted(ms, p, pr, n);
    let kk = choose|kk: int| is_slot(c, off, kk);
    lemma_slot_unique(c, off, k, kk);
    assert(tp_insert(c, ms[j]) == c.insert(k, ms[j]));
    assert(c.insert(k, ms[j]) =~= c2);
}

/// `stored_concat` looks only at the first `k` segments.
proof fn lemma_concat_prefix(s1: Seq<(u32, Seq<u8>, bool)>, s2: Seq<(u32, Seq<u8>, bool)>, k: int)
    requires
        0 <= k <= s1.len(),
        k <= s2.len(),
        forall|i: int| 0 <= i < k ==> s1[i] == s2[i],
    ensures
        stored_concat(s1, k) == stored_concat(s2, k),
    decreases k,
{
    if k > 0 {
        lemma_concat_prefix(s1, s2, k - 1);
    }
}

/// A chosen run with no gap is the first segments, in full.
proof fn lemma_gapless_is_prefix(ms: Seq<(u32, Seq<u8>, bool)>, p: Seq<u8>, pr: spec_fn(int) -> bool, m: int)
    requires
        well_split(ms, p),
        0 <= m <= ms.len(),
        forall|i: int| 0 <= i < chosen(ms, pr, 0, m).len() ==> (#[trigger] chosen(ms, pr, 0, m)[i]).0 == stored_concat(chosen(ms, pr, 0, m), i).len(),
    ensures
        chosen(ms, pr, 0, m) == ms.subrange(0, chosen(ms, pr, 0, m).len() as int),
        forall|i: int| 0 <= i < m ==> (#[trigger] pr(i) <==> i < chosen(ms, pr, 0, m).len()),
    decreases m,
{
    if m > 0 {
        let c = chosen(ms, pr, 0, m);
        let c0 = chosen(ms, pr, 0, m - 1);
        lemma_chosen_bounds(ms, p, pr, 0, m - 1);
        if pr(m - 1) {
            assert forall|i: int| 0 <= i < c0.len() implies (#[trigger] c0[i]).0 == stored_concat(c0, i).len() by {
                assert(c[i] == c0[i]);
                lemma_concat_prefix(c, c0, i);
            }
            lemma_gapless_is_prefix(ms, p, pr, m - 1);
            let t = c0.len() as int;
            assert(t <= m - 1);
            assert forall|i: int| 0 <= i < t implies c[i] == ms[i] by {
                assert(c[i] == c0[i]);
                assert(c0[i] == ms.subrange(0, t)[i]);
            }
            lemma_concat_prefix(c, ms, t);
            assert(c[t] == ms[m - 1]);
            assert(ms[m - 1].0 == stored_concat(ms, t).len());
            if t < m - 1 {
                assert(ms[t].0 < ms[m - 1].0);
            }
            assert(t == m - 1);
            assert(c =~= ms.subrange(0, m));
        } else {
            lemma_gapless_is_prefix(ms, p, pr, m - 1);
        }
    }
}

/// Every chosen segment but possibly the very last of all has More set.
proof fn lemma_chosen_more(ms: Seq<(u32, Seq<u8>, bool)>, p: Seq<u8>, pr: spec_fn(int) -> bool, m: int)
    requires
        well_split(ms, p),
        0 <= m <= ms.len(),
    ensures
        forall|x: int| 0 <= x < chosen(ms, pr, 0, m).len() ==> (#[trigger] chosen(ms, pr, 0, m)[x]).2 || x == chosen(ms, pr, 0, m).len() - 1,
        m < ms.len() ==> forall|x: int| 0 <= x < chosen(ms, pr, 0, m).len() ==> (#[trigger] chosen(ms, pr, 0, m)[x]).2,
    decreases m,
{
    if m > 0 {
        lemma_chosen_more(ms, p, pr, m - 1);
        let c = chosen(ms, pr, 0, m);
        let c0 = chosen(ms, pr, 0, m - 1);
        if pr(m - 1) {
            assert forall|x: int| 0 <= x < c.len() implies (#[trigger] c[x]).2 || x == c.len() - 1 by {
                if x < c0.len() {
                    assert(c[x] == c0[x]);
                }
            }
            if m < ms.len() {
                assert forall|x: int| 0 <= x < c.len() implies (#[trigger] c[x]).2 by {
                    if x < c0.len() {
                        assert(c[x] == c0[x]);
                    } else {
                        assert(c[x] == ms[m - 1]);
                    }
                }
            }
        }
    }
}

/// The chosen segments complete a message only when none is missing.
proof fn lemma_ready_means_complete(ms: Seq<(u32, Seq<u8>, bool)>, p: Seq<u8>, pr: spec_fn(int) -> bool)
    requires
        well_split(ms, p),
        tp_ready(chosen(ms, pr, 0, ms.len() as int)),
    ensures
        forall|i: int| 0 <= i < ms.len() ==> #[trigger] pr(i),
{
    let n = ms.len() as int;
    let c = chosen(ms, pr, 0, n);
    let jj = choose|jj: int| ready_at(c, jj);
    lemma_chosen_more(ms, p, pr, n);
    assert(jj == c.len() - 1);
    assert forall|i: int| 0 <= i < c.len() implies (#[trigger] c[i]).0 == stored_concat(c, i).len() by {
        assert(i <= jj);
    }
    lemma_gapless_is_prefix(ms, p, pr, n);
    lemma_chosen_bounds(ms, p, pr, 0, n);
    let t = c.len() as int;
    assert(c[t - 1] == ms[t - 1]);
    if t - 1 < n - 1 {
        assert(ms[t - 1].2);
    }
}

/// With every segment present the stored run is all of them, it is ready,
/// and it concatenates to the payload.
proof fn lemma_complete_is_ready(ms: Seq<(u32, Seq<u8>, bool)>, p: Seq<u8>, pr: spec_fn(int) -> bool)
    requires
        well_split(ms, p),
        forall|i: int| 0 <= i < ms.len() ==> #[trigger] pr(i),
    ensures
        chosen(ms, pr, 0, ms.len() as int) == ms,
        tp_ready(ms),
{
    let n = ms.len() as int;
    lemma_chosen_all(ms, pr, n);
    assert(ready_at(ms, n - 1));
}

proof fn lemma_chosen_all(ms: Seq<(u32, Seq<u8>, bool)>, pr: spec_fn(int) -> bool, m: int)
    requires
        0 <= m <= ms.len(),
        forall|i: int| 0 <= i < m ==> #[trigger] pr(i),
    ensures
        chosen(ms, pr, 0, m) == ms.subrange(0, m),
    decreases m,
{
    if m > 0 {
        lemma_chosen_all(ms, pr, m - 1);
        assert(chosen(ms, pr, 0, m) =~= ms.subrange(0, m));
    } else {
        assert(chosen(ms, pr, 0, m) =~= ms.subrange(0, m));
    }
}

/// The stored bytes never exceed the payload.
proof fn lemma_chosen_size(ms: Seq<(u32, Seq<u8>, bool)>, p: Seq<u8>, pr: spec_fn(int) -> bool, m: int)
    requires
        0 <= m <= ms.len(),
    ensures
        stored_concat(chosen(ms, pr, 0, m), chosen(ms, pr, 0, m).len() as int).len() <= stored_concat(ms, m).len(),
    decreases m,
{
    if m > 0 {
        lemma_chosen_size(ms, p, pr, m - 1);
        let c = chosen(ms, pr, 0, m);
        let c0 = chosen(ms, pr, 0, m - 1);
        if pr(m - 1) {
            lemma_concat_prefix(c, c0, c0.len() as int);
        }
    }
}

/// Delivering the segments of a payload to the reassembler in any order:
/// every delivery but the last reports an incomplete message, and the last
/// reports the payload the segments were cut from.
pub proof fn lemma_reassembly_order_independent(
    segs: Seq<(TpHeader, Vec<u8>)>,
    p: Seq<u8>,
    max: nat,
    perm: Seq<int>,
)
    requires
        max >= 16,
        p.len() <= MAX_REASSEMBLY_BYTES,
        is_segmentation(segs, p, max),
        is_permutation(perm, segs.len() as int),
    ensures
        ({
            let ms = segs.map_values(|s: (TpHeader, Vec<u8>)| segment_model(s));
            let n = segs.len() as int;
            let stream = Seq::new(n as nat, |k: int| ms[perm[k]]);
            &&& forall|k: int| 0 <= k < n - 1 ==> #[trigger] delivery_result(stream, k) == Ok::<Option<Seq<u8>>, ReturnCode>(None)
            &&& delivery_result(stream, n - 1) == Ok::<Option<Seq<u8>>, ReturnCode>(Some(p))
        }),
{
    let ms = segs.map_values(|s: (TpHeader, Vec<u8>)| segment_model(s));
    let n = segs.len() as int;
    let stream = Seq::new(n as nat, |k: int| ms[perm[k]]);
    lemma_models(segs, p, max);
    assert(well_split(ms, p));
    assert forall|k: int| 0 <= k <= n - 1 implies #[trigger] fold_deliveries(stream, k) == chosen(ms, |i: int| in_prefix(perm, k, i), 0, n)
        && (k < n - 1 ==> delivery_result(stream, k) == Ok::<Option<Seq<u8>>, ReturnCode>(None)) by {
        lemma_fold(segs, p, max, perm, k);
    }
    let k = n - 1;
    let pr = |i: int| in_prefix(perm, k, i);
    let j = perm[k];
    assert(!pr(j)) by {
        if pr(j) {
            let x = choose|x: int| 0 <= x < k && #[trigger] perm[x] == j;
            assert(perm[x] != perm[k]);
        }
    }
    lemma_chosen_insert(ms, p, pr, j);
    let pr2 = |i: int| pr(i) || i == j;
    assert forall|i: int| 0 <= i < n implies #[trigger] pr2(i) by {
        assert(in_prefix(perm, n, i));
        let x = choose|x: int| 0 <= x < n && #[trigger] perm[x] == i;
        if x < k {
            assert(pr(i));
        }
    }
    lemma_complete_is_ready(ms, p, pr2);
    assert(stream[k] == ms[j]);
}

proof fn lemma_fold(segs: Seq<(TpHeader, Vec<u8>)>, p: Seq<u8>, max: nat, perm: Seq<int>, k: int)
    requires
        max >= 16,
        p.len() <= MAX_REASSEMBLY_BYTES,
        is_segmentation(segs, p, max),
        is_permutation(perm, segs.len() as int),
        0 <= k <= segs.len() - 1,
    ensures
        ({
            let ms = segs.map_values(|s: (TpHeader, Vec<u8>)| segment_model(s));
            let n = segs.len() as int;
            let stream = Seq::new(n as nat, |x: int| ms[perm[x]]);
            &&& fold_deliveries(stream, k) == chosen(ms, |i: int| in_prefix(perm, k, i), 0, n)
            &&& k < n - 1 ==> delivery_result(stream, k) == Ok::<Option<Seq<u8>>, ReturnCode>(None)
        }),
    decreases k,
{
    let ms = segs.map_values(|s: (TpHeader, Vec<u8>)| segment_model(s));
    let n = segs.len() as int;
    let stream = Seq::new(n as nat, |x: int| ms[perm[x]]);
    lemma_models(segs, p, max);
    assert(well_split(ms, p));
    let pr = |i: int| in_prefix(perm, k, i);
    if k == 0 {
        lemma_chosen_agree(ms, pr, |i: int| false, 0, n);
        lemma_chosen_none(ms, 0, n);
    } else {
        lemma_fold(segs, p, max, perm, k - 1);
        let pr0 = |i: int| in_prefix(perm, k - 1, i);
        let j = perm[k - 1];
        assert(!pr0(j)) by {
            if pr0(j) {
                let x = choose|x: int| 0 <= x < k - 1 && #[trigger] perm[x] == j;
                assert(perm[x] != perm[k - 1]);
            }
        }
        lemma_chosen_insert(ms, p, pr0, j);
        let pr1 = |i: int| pr0(i) || i == j;
        assert forall|i: int| 0 <= i < n implies #[trigger] pr1(i) == pr(i) by {
            if pr(i) {
                let x = choose|x: int| 0 <= x < k && #[trigger] perm[x] == i;
                if x < k - 1 {
                    assert(pr0(i));
                }
            }
            if pr0(i) {
                let x = choose|x: int| 0 <= x < k - 1 && #[trigger] perm[x] == i;
                assert(in_prefix(perm, k, i));
            }
        }
        lemma_chosen_agree(ms, pr1, pr, 0, n);
        lemma_chosen_size(ms, p, pr, n);
        assert(stream[k - 1] == ms[j]);
    }
    if k < n - 1 {
        let c = chosen(ms, pr, 0, n);
        let last = perm[n - 1];
        assert(!pr(last)) by {
            if pr(last) {
                let x = choose|x: int| 0 <= x < k && #[trigger] perm[x] == last;
                assert(perm[x] != perm[n - 1]);
            }
        }
        let j = perm[k];
        assert(!pr(j)) by {
            if pr(j) {
                let x = choose|x: int| 0 <= x < k && #[trigger] perm[x] == j;
                assert(perm[x] != perm[k]);
            }
        }
        lemma_chosen_insert(ms, p, pr, j);
        let pr2 = |i: int| pr(i) || i == j;
        if tp_ready(chosen(ms, pr2, 0, n)) {
            lemma_ready_means_complete(ms, p, pr2);
            assert(pr2(last));
        }
        lemma_chosen_size(ms, p, pr2, n);
        assert(stream[k] == ms[j]);
    }
}

proof fn lemma_chosen_none(ms: Seq<(u32, Seq<u8>, bool)>, lo: int, hi: int)
    ensures
        chosen(ms, |i: int| false, lo, hi) == Seq::<(u32, Seq<u8>, bool)>::empty(),
    decreases hi - lo,
{
    if hi > lo {
        lemma_chosen_none(ms, lo, hi - 1);
    }
}

} // verus!
