//! The order in which the browser buttons are laid out: by lower-cased name, stable.

use vstd::prelude::*;
use crate::text::{chars_of, to_lowercase, unicode_lowercase};
use vstd::set_lib::{lemma_int_range, lemma_subset_equality, set_int_range};

verus! {

/// `a` comes no later than `b` in lexicographic order by code point, which is the order of
/// `String`'s comparison (UTF-8 keeps code point order).
pub open spec fn text_le(a: Seq<char>, b: Seq<char>) -> bool
    decreases a.len(),
{
    if a.len() == 0 {
        true
    } else if b.len() == 0 {
        false
    } else if a[0] != b[0] {
        a[0] < b[0]
    } else {
        text_le(a.drop_first(), b.drop_first())
    }
}

/// `text_le` is reflexive.
pub proof fn lemma_text_le_reflexive(a: Seq<char>)
    ensures
        text_le(a, a),
    decreases a.len(),
{
    if a.len() > 0 {
        lemma_text_le_reflexive(a.drop_first());
    }
}

/// `text_le` is total.
pub proof fn lemma_text_le_total(a: Seq<char>, b: Seq<char>)
    ensures
        text_le(a, b) || text_le(b, a),
    decreases a.len(),
{
    if a.len() > 0 && b.len() > 0 && a[0] == b[0] {
        lemma_text_le_total(a.drop_first(), b.drop_first());
    }
}

/// `text_le` is antisymmetric.
pub proof fn lemma_text_le_antisymmetric(a: Seq<char>, b: Seq<char>)
    requires
        text_le(a, b),
        text_le(b, a),
    ensures
        a == b,
    decreases a.len(),
{
    if a.len() == 0 {
        assert(b.len() == 0);
        assert(a =~= b);
    } else {
        assert(b.len() > 0);
        assert(a[0] == b[0]);
        lemma_text_le_antisymmetric(a.drop_first(), b.drop_first());
        assert(a =~= seq![a[0]] + a.drop_first());
        assert(b =~= seq![b[0]] + b.drop_first());
    }
}

/// `text_le` is transitive.
pub proof fn lemma_text_le_transitive(a: Seq<char>, b: Seq<char>, c: Seq<char>)
    requires
        text_le(a, b),
        text_le(b, c),
    ensures
        text_le(a, c),
    decreases a.len(),
{
    if a.len() > 0 && b.len() > 0 && c.len() > 0 && a[0] == b[0] && b[0] == c[0] {
        lemma_text_le_transitive(a.drop_first(), b.drop_first(), c.drop_first());
    }
}

/// `a` is how `b` begins.
pub open spec fn is_prefix_of(a: Seq<char>, b: Seq<char>) -> bool {
    a.len() <= b.len() && b.take(a.len() as int) == a
}

/// At the first position where `a` and `b` differ, `a` has the smaller character.
pub open spec fn first_difference_lower(a: Seq<char>, b: Seq<char>) -> bool {
    exists|i: int| 0 <= i < a.len() && i < b.len() && a.take(i) == b.take(i) && #[trigger] a[i] < b[i]
}

/// `text_le` is lexicographic order by code point: `a` comes no later than `b` exactly when
/// `a` is how `b` begins, or at the first position where they differ `a` has the smaller
/// character (whatever the lengths).
pub proof fn lemma_text_le_lexicographic(a: Seq<char>, b: Seq<char>)
    ensures
        text_le(a, b) <==> (is_prefix_of(a, b) || first_difference_lower(a, b)),
    decreases a.len(),
{
    if a.len() == 0 {
        assert(b.take(0) =~= a);
    } else if b.len() == 0 {
    } else if a[0] != b[0] {
        if is_prefix_of(a, b) {
            assert(b.take(a.len() as int)[0] == b[0]);
        }
        if first_difference_lower(a, b) {
            let i = choose|i: int|
                0 <= i < a.len() && i < b.len() && a.take(i) == b.take(i) && #[trigger] a[i] < b[i];
            if i > 0 {
                assert(a.take(i)[0] == b.take(i)[0]);
            }
        }
        if a[0] < b[0] {
            assert(a.take(0) =~= b.take(0));
            assert(a[0] < b[0]);
        }
    } else {
        let a1 = a.drop_first();
        let b1 = b.drop_first();
        lemma_text_le_lexicographic(a1, b1);
        if is_prefix_of(a, b) {
            assert(b1.take(a1.len() as int) =~= b.take(a.len() as int).drop_first());
        }
        if is_prefix_of(a1, b1) {
            assert(b.take(a.len() as int) =~= seq![b[0]] + b1.take(a1.len() as int));
            assert(a =~= seq![a[0]] + a1);
        }
        if first_difference_lower(a, b) {
            let i = choose|i: int|
                0 <= i < a.len() && i < b.len() && a.take(i) == b.take(i) && #[trigger] a[i] < b[i];
            assert(i > 0);
            assert(a1.take(i - 1) =~= a.take(i).drop_first());
            assert(b1.take(i - 1) =~= b.take(i).drop_first());
            assert(a1[i - 1] == a[i]);
            assert(b1[i - 1] == b[i]);
            assert(first_difference_lower(a1, b1));
        }
        if first_difference_lower(a1, b1) {
            let i = choose|i: int|
                0 <= i < a1.len() && i < b1.len() && a1.take(i) == b1.take(i) && #[trigger] a1[i] < b1[i];
            assert(a.take(i + 1) =~= seq![a[0]] + a1.take(i));
            assert(b.take(i + 1) =~= seq![b[0]] + b1.take(i));
            assert(a[i + 1] == a1[i]);
            assert(b[i + 1] == b1[i]);
            assert(first_difference_lower(a, b));
        }
    }
}

/// Whether `a` comes no later than `b` in the order `text_le`.
pub fn text_le_exec(a: &Vec<char>, b: &Vec<char>) -> (r: bool)
    ensures
        r == text_le(a@, b@),
{
    let mut i: usize = 0;
    assert(a@.skip(0) =~= a@);
    assert(b@.skip(0) =~= b@);
    while i < a.len() && i < b.len()
        invariant
            i <= a@.len(),
            i <= b@.len(),
            text_le(a@, b@) == text_le(a@.skip(i as int), b@.skip(i as int)),
        decreases a@.len() - i,
    {
        if a[i] != b[i] {
            return a[i] < b[i];
        }
        assert(a@.skip(i as int).drop_first() =~= a@.skip(i + 1));
        assert(b@.skip(i as int).drop_first() =~= b@.skip(i + 1));
        i = i + 1;
    }
    i == a.len()
}


/// A stored browser: its name and the command that opens a link in it.
pub type Entry = (Seq<char>, Seq<char>);

/// The key by which browsers are ordered: the lower-cased name.
pub open spec fn browser_key(e: Entry) -> Seq<char> {
    unicode_lowercase(e.0)
}

/// `idx` shows `out` to be `inp` reordered stably by `browser_key`: `out[k]` is
/// `inp[idx[k]]`, each position of `inp` is used once, the keys of `out` rise, and entries
/// with equal keys keep the order they had in `inp`.
pub open spec fn stable_witness(out: Seq<Entry>, inp: Seq<Entry>, idx: Seq<int>) -> bool {
    &&& idx.len() == out.len()
    &&& out.len() == inp.len()
    &&& forall|k: int| 0 <= k < idx.len() ==> 0 <= #[trigger] idx[k] < inp.len()
    &&& forall|k: int, l: int| 0 <= k < l < idx.len() ==> idx[k] != idx[l]
    &&& forall|k: int| 0 <= k < out.len() ==> #[trigger] out[k] == inp[idx[k]]
    &&& forall|k: int, l: int|
        0 <= k < l < out.len() ==> text_le(browser_key(out[k]), browser_key(out[l]))
    &&& forall|k: int, l: int|
        0 <= k < l < out.len() && browser_key(out[k]) == browser_key(out[l]) ==> idx[k] < idx[l]
}

/// `out` is `inp` sorted stably by lower-cased name, as `sort_by` on the lower-cased names
/// orders it.
pub open spec fn stably_sorted(out: Seq<Entry>, inp: Seq<Entry>) -> bool {
    exists|idx: Seq<int>| stable_witness(out, inp, idx)
}

/// A copy of a stored browser.
fn copy_entry(e: &(String, String)) -> (r: (String, String))
    ensures
        r.deep_view() == e.deep_view(),
{
    (e.0.clone(), e.1.clone())
}

/// The browsers sorted stably by lower-cased name.
pub fn sort_browsers(entries: &Vec<(String, String)>) -> (out: Vec<(String, String)>)
    ensures
        stably_sorted(out.deep_view(), entries.deep_view()),
{
    let n = entries.len();
    let ghost inp = entries.deep_view();
    let mut out: Vec<(String, String)> = Vec::new();
    let mut keys: Vec<Vec<char>> = Vec::new();
    let ghost mut idx: Seq<int> = seq![];
    for i in 0..n
        invariant
            n == entries@.len(),
            inp == entries.deep_view(),
            out@.len() == i,
            keys@.len() == i,
            forall|k: int| 0 <= k < i ==> #[trigger] keys@[k]@ == browser_key(out.deep_view()[k]),
            stable_witness(out.deep_view(), inp.take(i as int), idx),
    {
        let e = copy_entry(&entries[i]);
        let lower = to_lowercase(e.0.as_str());
        let kc = chars_of(lower.as_str());
        let ghost ev = e.deep_view();
        assert(kc@ == browser_key(ev));
        let ghost old_out = out.deep_view();
        let ghost old_keys = keys@;
        let mut j = out.len();
        while j > 0 && !text_le_exec(&keys[j - 1], &kc)
            invariant
                j <= out@.len(),
                out@.len() == i,
                keys@.len() == i,
                keys@ == old_keys,
                forall|l: int| j <= l < i ==> !text_le(#[trigger] old_keys[l]@, kc@),
            decreases j,
        {
            j = j - 1;
        }
        proof {
            assert forall|l: int| 0 <= l < j implies text_le(#[trigger] old_keys[l]@, kc@) by {
                if l < j - 1 {
                    lemma_text_le_transitive(old_keys[l]@, old_keys[j - 1]@, kc@);
                }
            }
            assert forall|l: int| j <= l < i implies text_le(kc@, #[trigger] old_keys[l]@)
                && old_keys[l]@ != kc@ by {
                lemma_text_le_total(kc@, old_keys[l]@);
                if old_keys[l]@ == kc@ {
                    lemma_text_le_reflexive(kc@);
                }
            }
        }
        out.insert(j, e);
        keys.insert(j, kc);
        proof {
            let old_idx = idx;
            idx = idx.insert(j as int, i as int);
            let dv = out.deep_view();
            assert(dv =~= old_out.insert(j as int, ev));
            let inp2 = inp.take(i + 1);
            assert(inp2[i as int] == ev);
            assert forall|k: int| 0 <= k < i + 1 implies #[trigger] keys@[k]@ == browser_key(dv[k]) by {
                if k < j {
                    assert(keys@[k] == old_keys[k]);
                } else if k > j {
                    assert(keys@[k] == old_keys[k - 1]);
                }
            }
            assert forall|k: int| 0 <= k < i + 1 implies #[trigger] dv[k] == inp2[idx[k]] by {
                if k < j {
                    assert(old_out[k] == inp.take(i as int)[old_idx[k]]);
                } else if k > j {
                    assert(old_out[k - 1] == inp.take(i as int)[old_idx[k - 1]]);
                }
            }
            assert forall|k: int, l: int| 0 <= k < l < i + 1 implies text_le(
                browser_key(dv[k]),
                browser_key(dv[l]),
            ) by {
                assert(keys@[k]@ == browser_key(dv[k]));
                assert(keys@[l]@ == browser_key(dv[l]));
                if l < j {
                } else if l == j {
                    assert(keys@[k] == old_keys[k]);
                } else if k < j {
                    assert(keys@[k] == old_keys[k]);
                    assert(keys@[l] == old_keys[l - 1]);
                    assert(browser_key(old_out[k]) == old_keys[k]@);
                    assert(browser_key(old_out[l - 1]) == old_keys[l - 1]@);
                } else if k == j {
                    assert(keys@[l] == old_keys[l - 1]);
                } else {
                    assert(browser_key(old_out[k - 1]) == old_keys[k - 1]@);
                    assert(browser_key(old_out[l - 1]) == old_keys[l - 1]@);
                }
            }
            assert forall|k: int, l: int|
                0 <= k < l < i + 1 && browser_key(dv[k]) == browser_key(dv[l]) implies idx[k]
                < idx[l] by {
                assert(keys@[k]@ == browser_key(dv[k]));
                assert(keys@[l]@ == browser_key(dv[l]));
                if l == j {
                    assert(old_idx[k] < i);
                } else if k == j {
                    assert(keys@[l] == old_keys[l - 1]);
                } else if k < j && l > j {
                    assert(idx[k] == old_idx[k]);
                    assert(idx[l] == old_idx[l - 1]);
                    assert(browser_key(old_out[k]) == browser_key(dv[k]));
                    assert(browser_key(old_out[l - 1]) == browser_key(dv[l]));
                } else if k > j {
                    assert(browser_key(old_out[k - 1]) == browser_key(dv[k]));
                    assert(browser_key(old_out[l - 1]) == browser_key(dv[l]));
                }
            }
            assert forall|k: int, l: int| 0 <= k < l < i + 1 implies idx[k] != idx[l] by {
                if k != j && l != j {
                } else if k == j {
                    assert(old_idx[l - 1] < i);
                } else {
                    assert(old_idx[k] < i);
                }
            }
            assert(stable_witness(dv, inp2, idx));
        }
    }
    proof {
        assert(inp.take(n as int) =~= inp);
        assert(stable_witness(out.deep_view(), inp, idx));
    }
    out
}


/// The stored browsers that have a name, in their stored order.
pub open spec fn named_entries(s: Seq<Entry>) -> Seq<Entry>
    decreases s.len(),
{
    if s.len() == 0 {
        seq![]
    } else {
        let front = named_entries(s.drop_last());
        if s.last().0.len() > 0 {
            front.push(s.last())
        } else {
            front
        }
    }
}

/// The browsers to show, in the order their buttons are laid out: those with a name,
/// sorted stably by lower-cased name.
pub fn order_browsers(stored: &Vec<(String, String)>) -> (out: Vec<(String, String)>)
    ensures
        stably_sorted(out.deep_view(), named_entries(stored.deep_view())),
{
    let ghost sv = stored.deep_view();
    let mut kept: Vec<(String, String)> = Vec::new();
    for i in 0..stored.len()
        invariant
            sv == stored.deep_view(),
            kept.deep_view() == named_entries(sv.take(i as int)),
    {
        assert(sv.take(i + 1).drop_last() =~= sv.take(i as int));
        if stored[i].0.unicode_len() > 0 {
            let e = copy_entry(&stored[i]);
            kept.push(e);
            assert(kept.deep_view() =~= named_entries(sv.take(i + 1)));
        }
    }
    assert(sv.take(stored@.len() as int) =~= sv);
    sort_browsers(&kept)
}


/// Positions that `idx` uses once each, all below `n`, are all the positions below `n`.
proof fn lemma_positions_all_used(idx: Seq<int>, n: int)
    requires
        idx.len() == n,
        forall|k: int| 0 <= k < n ==> 0 <= #[trigger] idx[k] < n,
        forall|k: int, l: int| 0 <= k < l < n ==> idx[k] != idx[l],
    ensures
        forall|v: int| 0 <= v < n ==> #[trigger] idx.contains(v),
{
    broadcast use vstd::seq_lib::group_seq_properties;
    broadcast use vstd::set::group_set_axioms;

    assert(idx.no_duplicates()) by {
        assert forall|i: int, j: int| 0 <= i < idx.len() && 0 <= j < idx.len() && i != j implies idx[i]
            != idx[j] by {
            if j < i {
                assert(idx[j] != idx[i]);
            }
        }
    }
    idx.unique_seq_to_set();
    lemma_int_range(0, n);
    assert(idx.to_set().subset_of(set_int_range(0, n))) by {
        assert forall|v: int| idx.to_set().contains(v) implies set_int_range(0, n).contains(v) by {
            assert(idx.contains(v));
        }
    }
    lemma_subset_equality(idx.to_set(), set_int_range(0, n));
    assert forall|v: int| 0 <= v < n implies #[trigger] idx.contains(v) by {
        assert(set_int_range(0, n).contains(v));
        assert(idx.to_set().contains(v));
    }
}

/// Two stable orderings of the same browsers agree at `k` where they agree before `k`.
proof fn lemma_witnesses_agree_at(
    out1: Seq<Entry>,
    out2: Seq<Entry>,
    inp: Seq<Entry>,
    idx1: Seq<int>,
    idx2: Seq<int>,
    k: int,
)
    requires
        stable_witness(out1, inp, idx1),
        stable_witness(out2, inp, idx2),
        0 <= k < inp.len(),
        forall|j: int| 0 <= j < k ==> idx1[j] == idx2[j],
    ensures
        idx1[k] == idx2[k],
{
    let n = inp.len() as int;
    let a = idx1[k];
    let b = idx2[k];
    if a != b {
        lemma_positions_all_used(idx1, n);
        lemma_positions_all_used(idx2, n);
        assert(idx2.contains(a));
        assert(idx1.contains(b));
        let p2 = choose|p: int| 0 <= p < n && #[trigger] idx2[p] == a;
        let p1 = choose|p: int| 0 <= p < n && #[trigger] idx1[p] == b;
        if p2 < k {
            assert(idx1[p2] == idx2[p2]);
        }
        if p1 < k {
            assert(idx1[p1] == idx2[p1]);
        }
        assert(p2 > k);
        assert(p1 > k);
        assert(out1[k] == inp[a]);
        assert(out1[p1] == inp[b]);
        assert(out2[k] == inp[b]);
        assert(out2[p2] == inp[a]);
        assert(text_le(browser_key(out1[k]), browser_key(out1[p1])));
        assert(text_le(browser_key(out2[k]), browser_key(out2[p2])));
        lemma_text_le_antisymmetric(browser_key(inp[a]), browser_key(inp[b]));
        assert(idx1[k] < idx1[p1]);
        assert(idx2[k] < idx2[p2]);
    }
}

/// Two stable orderings of the same browsers agree before `k`.
proof fn lemma_witnesses_agree_before(
    out1: Seq<Entry>,
    out2: Seq<Entry>,
    inp: Seq<Entry>,
    idx1: Seq<int>,
    idx2: Seq<int>,
    k: int,
)
    requires
        stable_witness(out1, inp, idx1),
        stable_witness(out2, inp, idx2),
        0 <= k <= inp.len(),
    ensures
        forall|j: int| 0 <= j < k ==> idx1[j] == idx2[j],
    decreases k,
{
    if k > 0 {
        lemma_witnesses_agree_before(out1, out2, inp, idx1, idx2, k - 1);
        lemma_witnesses_agree_at(out1, out2, inp, idx1, idx2, k - 1);
    }
}

/// There is only one stable ordering of a list of browsers by lower-cased name: the order of
/// the buttons is determined by the stored browsers.
pub proof fn lemma_stable_order_unique(out1: Seq<Entry>, out2: Seq<Entry>, inp: Seq<Entry>)
    requires
        stably_sorted(out1, inp),
        stably_sorted(out2, inp),
    ensures
        out1 == out2,
{
    let idx1 = choose|idx: Seq<int>| stable_witness(out1, inp, idx);
    let idx2 = choose|idx: Seq<int>| stable_witness(out2, inp, idx);
    lemma_witnesses_agree_before(out1, out2, inp, idx1, idx2, inp.len() as int);
    assert forall|k: int| 0 <= k < out1.len() implies out1[k] == out2[k] by {
        assert(out1[k] == inp[idx1[k]]);
        assert(out2[k] == inp[idx2[k]]);
    }
    assert(out1 =~= out2);
}

/// Ordering browsers that are already in order gives them back unchanged.
pub proof fn lemma_stable_order_idempotent(out: Seq<Entry>, inp: Seq<Entry>, again: Seq<Entry>)
    requires
        stably_sorted(out, inp),
        stably_sorted(again, out),
    ensures
        again == out,
{
    let id = Seq::new(out.len(), |k: int| k);
    assert(stable_witness(out, out, id));
    lemma_stable_order_unique(again, out, out);
}

} // verus!
