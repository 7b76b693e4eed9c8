//! Deterministic ordering of map entries (RFC 8949 §4.2.1): entries are
//! ordered by the encoding of their keys, shorter encodings first, equal
//! lengths in bytewise order; entries whose keys encode alike keep their order.
use vstd::prelude::*;
use crate::value::{CborValue, CborModel, model_of, entry_models_of, lemma_entry_models_of, lemma_all_entries_wf, model_wf};
use crate::codec::{cbor_encoding, encode_value};

verus! {

/// Lexicographic order of byte strings (a proper prefix comes first).
pub open spec fn lex_lt(a: Seq<u8>, b: Seq<u8>) -> bool
    decreases a.len(),
{
    if a.len() == 0 {
        b.len() > 0
    } else if b.len() == 0 {
        false
    } else if a[0] != b[0] {
        a[0] < b[0]
    } else {
        lex_lt(a.drop_first(), b.drop_first())
    }
}

/// The order of encoded keys: shorter first, then bytewise.
pub open spec fn key_lt(a: Seq<u8>, b: Seq<u8>) -> bool {
    a.len() < b.len() || (a.len() == b.len() && lex_lt(a, b))
}

pub proof fn lemma_lex_irreflexive(a: Seq<u8>)
    ensures
        !lex_lt(a, a),
    decreases a.len(),
{
    if a.len() > 0 {
        lemma_lex_irreflexive(a.drop_first());
    }
}

pub proof fn lemma_lex_total(a: Seq<u8>, b: Seq<u8>)
    ensures
        a != b ==> lex_lt(a, b) || lex_lt(b, a),
        !(lex_lt(a, b) && lex_lt(b, a)),
    decreases a.len(),
{
    if a.len() > 0 && b.len() > 0 && a[0] == b[0] {
        lemma_lex_total(a.drop_first(), b.drop_first());
        if a != b {
            assert(a =~= seq![a[0]] + a.drop_first());
            assert(b =~= seq![b[0]] + b.drop_first());
        }
    } else if a.len() == 0 && b.len() == 0 {
        assert(a =~= b);
    }
}

pub proof fn lemma_lex_transitive(a: Seq<u8>, b: Seq<u8>, c: Seq<u8>)
    requires
        lex_lt(a, b),
        lex_lt(b, c),
    ensures
        lex_lt(a, c),
    decreases a.len(),
{
    if a.len() > 0 && b.len() > 0 && c.len() > 0 && a[0] == b[0] && b[0] == c[0] {
        lemma_lex_transitive(a.drop_first(), b.drop_first(), c.drop_first());
    }
}

/// The key order is a strict total order.
pub proof fn lemma_key_order(a: Seq<u8>, b: Seq<u8>, c: Seq<u8>)
    ensures
        !key_lt(a, a),
        !(key_lt(a, b) && key_lt(b, a)),
        a != b ==> key_lt(a, b) || key_lt(b, a),
        key_lt(a, b) && key_lt(b, c) ==> key_lt(a, c),
{
    lemma_lex_irreflexive(a);
    lemma_lex_total(a, b);
    if key_lt(a, b) && key_lt(b, c) && a.len() == c.len() {
        lemma_lex_transitive(a, b, c);
    }
}

/// Decides `key_lt` on two byte strings.
pub fn key_less(a: &Vec<u8>, b: &Vec<u8>) -> (r: bool)
    ensures
        r == key_lt(a@, b@),
{
    if a.len() != b.len() {
        return a.len() < b.len();
    }
    let mut i: usize = 0;
    assert(a@.skip(0) =~= a@);
    assert(b@.skip(0) =~= b@);
    while i < a.len()
        invariant
            a.len() == b.len(),
            i <= a.len(),
            lex_lt(a@, b@) == lex_lt(a@.skip(i as int), b@.skip(i as int)),
        decreases a.len() - i,
    {
        let ghost sa = a@.skip(i as int);
        let ghost sb = b@.skip(i as int);
        if a[i] != b[i] {
            assert(sa[0] == a@[i as int] && sb[0] == b@[i as int]);
            return a[i] < b[i];
        }
        assert(sa.drop_first() =~= a@.skip(i + 1));
        assert(sb.drop_first() =~= b@.skip(i + 1));
        i = i + 1;
    }
    assert(a@.skip(i as int) =~= Seq::<u8>::empty());
    assert(b@.skip(i as int) =~= Seq::<u8>::empty());
    false
}

/// The encoded key of an entry.
pub open spec fn entry_key(e: (CborModel, CborModel)) -> Seq<u8> {
    cbor_encoding(e.0)
}

/// Entries are in deterministic order: no key encodes before an earlier one.
pub open spec fn entries_in_canonical_order(s: Seq<(CborModel, CborModel)>) -> bool {
    forall|i: int, j: int| 0 <= i < j < s.len() ==> !key_lt(entry_key(s[j]), entry_key(s[i]))
}

/// Some position of `perm` holds `i`.
pub open spec fn hits(perm: Seq<int>, i: int) -> bool {
    exists|k: int| 0 <= k < perm.len() && perm[k] == i
}

/// `perm` is a rearrangement of the positions `0..n`.
pub open spec fn is_permutation(perm: Seq<int>, n: int) -> bool {
    &&& perm.len() == n
    &&& forall|k: int| 0 <= k < n ==> 0 <= #[trigger] perm[k] < n
    &&& forall|k1: int, k2: int| 0 <= k1 < k2 < n ==> perm[k1] != perm[k2]
    &&& forall|i: int| 0 <= i < n ==> #[trigger] hits(perm, i)
}

/// `output` is `input` rearranged by `perm` into deterministic order, entries
/// whose keys encode alike keeping their order.
pub open spec fn canonical_arrangement(
    input: Seq<(CborModel, CborModel)>,
    output: Seq<(CborModel, CborModel)>,
    perm: Seq<int>,
) -> bool {
    &&& is_permutation(perm, input.len() as int)
    &&& output.len() == input.len()
    &&& forall|k: int| 0 <= k < output.len() ==> #[trigger] output[k] == input[perm[k]]
    &&& entries_in_canonical_order(output)
    &&& forall|k1: int, k2: int|
        0 <= k1 < k2 < output.len() && entry_key(output[k1]) == entry_key(output[k2]) ==> perm[k1]
            < perm[k2]
}

/// The deterministic arrangement of a sequence of entries (unique, see
/// `lemma_canonical_arrangement_unique`).
pub open spec fn canonical_entries(input: Seq<(CborModel, CborModel)>) -> Seq<(CborModel, CborModel)> {
    choose|output: Seq<(CborModel, CborModel)>| #[trigger] arranges(input, output)
}

/// `output` is some deterministic arrangement of `input`.
pub open spec fn arranges(input: Seq<(CborModel, CborModel)>, output: Seq<(CborModel, CborModel)>) -> bool {
    exists|perm: Seq<int>| #[trigger] canonical_arrangement(input, output, perm)
}

/// Positions `i` and `j` of `input`, ordered by encoded key and then by position.
pub open spec fn pos_lt(input: Seq<(CborModel, CborModel)>, i: int, j: int) -> bool {
    key_lt(entry_key(input[i]), entry_key(input[j])) || (entry_key(input[i]) == entry_key(input[j]) && i < j)
}

proof fn lemma_arrangement_increasing(
    input: Seq<(CborModel, CborModel)>,
    output: Seq<(CborModel, CborModel)>,
    perm: Seq<int>,
    k1: int,
    k2: int,
)
    requires
        canonical_arrangement(input, output, perm),
        0 <= k1 < k2 < output.len(),
    ensures
        pos_lt(input, perm[k1], perm[k2]),
{
    let a = entry_key(output[k1]);
    let b = entry_key(output[k2]);
    assert(output[k1] == input[perm[k1]]);
    assert(output[k2] == input[perm[k2]]);
    lemma_key_order(a, b, a);
}

proof fn lemma_pos_lt_asym(input: Seq<(CborModel, CborModel)>, i: int, j: int)
    ensures
        !(pos_lt(input, i, j) && pos_lt(input, j, i)),
{
    let a = entry_key(input[i]);
    let b = entry_key(input[j]);
    lemma_key_order(a, b, a);
}

proof fn lemma_perm_agree_prefix(
    input: Seq<(CborModel, CborModel)>,
    out1: Seq<(CborModel, CborModel)>,
    perm1: Seq<int>,
    out2: Seq<(CborModel, CborModel)>,
    perm2: Seq<int>,
    k: int,
)
    requires
        canonical_arrangement(input, out1, perm1),
        canonical_arrangement(input, out2, perm2),
        0 <= k <= input.len(),
    ensures
        forall|j: int| 0 <= j < k ==> perm1[j] == perm2[j],
    decreases k,
{
    if k > 0 {
        lemma_perm_agree_prefix(input, out1, perm1, out2, perm2, k - 1);
        let n = input.len() as int;
        let x = k - 1;
        let a = perm1[x];
        let b = perm2[x];
        if a != b {
            assert(0 <= a < n && 0 <= b < n);
            assert(hits(perm2, a));
            assert(hits(perm1, b));
            let m2 = choose|m: int| 0 <= m < n && perm2[m] == a;
            let m1 = choose|m: int| 0 <= m < n && perm1[m] == b;
            if m2 < x {
                assert(perm1[m2] == perm2[m2]);
            }
            if m1 < x {
                assert(perm1[m1] == perm2[m1]);
            }
            assert(m2 > x);
            assert(m1 > x);
            lemma_arrangement_increasing(input, out1, perm1, x, m1);
            lemma_arrangement_increasing(input, out2, perm2, x, m2);
            lemma_pos_lt_asym(input, a, b);
        }
    }
}

/// The deterministic arrangement of entries is unique.
pub proof fn lemma_canonical_arrangement_unique(
    input: Seq<(CborModel, CborModel)>,
    out1: Seq<(CborModel, CborModel)>,
    perm1: Seq<int>,
    out2: Seq<(CborModel, CborModel)>,
    perm2: Seq<int>,
)
    requires
        canonical_arrangement(input, out1, perm1),
        canonical_arrangement(input, out2, perm2),
    ensures
        out1 == out2,
        perm1 == perm2,
{
    lemma_perm_agree_prefix(input, out1, perm1, out2, perm2, input.len() as int);
    assert(perm1 =~= perm2);
    assert forall|k: int| 0 <= k < out1.len() implies out1[k] == out2[k] by {
        assert(out1[k] == input[perm1[k]]);
        assert(out2[k] == input[perm2[k]]);
    }
    assert(out1 =~= out2);
}

/// Any deterministic arrangement is the one `canonical_entries` names.
pub proof fn lemma_canonical_entries(
    input: Seq<(CborModel, CborModel)>,
    output: Seq<(CborModel, CborModel)>,
    perm: Seq<int>,
)
    requires
        canonical_arrangement(input, output, perm),
    ensures
        canonical_entries(input) == output,
{
    let c = canonical_entries(input);
    assert(arranges(input, output));
    let p2 = choose|p: Seq<int>| canonical_arrangement(input, c, p);
    lemma_canonical_arrangement_unique(input, output, perm, c, p2);
}

} // verus!

verus! {

/// Entries already in deterministic order are their own deterministic arrangement.
pub proof fn lemma_sorted_is_canonical(s: Seq<(CborModel, CborModel)>)
    requires
        entries_in_canonical_order(s),
    ensures
        canonical_entries(s) == s,
{
    let perm = Seq::new(s.len(), |k: int| k);
    assert forall|i: int| 0 <= i < s.len() implies #[trigger] hits(perm, i) by {
        assert(perm[i] == i);
    }
    assert forall|k1: int, k2: int|
        0 <= k1 < k2 < s.len() && entry_key(s[k1]) == entry_key(s[k2]) implies perm[k1] < perm[k2] by {}
    assert(canonical_arrangement(s, s, perm));
    lemma_canonical_entries(s, s, perm);
}

/// Inserting position `j`, smaller than every position present, at the first
/// place whose key does not encode before `j`'s keeps the positions increasing.
proof fn lemma_insert_position(
    input: Seq<(CborModel, CborModel)>,
    perm: Seq<int>,
    j: int,
    p: int,
)
    requires
        0 <= p <= perm.len(),
        0 <= j < input.len(),
        forall|k: int| 0 <= k < perm.len() ==> j < #[trigger] perm[k] < input.len(),
        forall|k1: int, k2: int| 0 <= k1 < k2 < perm.len() ==> pos_lt(input, perm[k1], perm[k2]),
        forall|k: int| 0 <= k < p ==> key_lt(#[trigger] entry_key(input[perm[k]]), entry_key(input[j])),
        p < perm.len() ==> !key_lt(entry_key(input[perm[p]]), entry_key(input[j])),
    ensures
        forall|k1: int, k2: int|
            0 <= k1 < k2 < perm.len() + 1 ==> pos_lt(input, perm.insert(p, j)[k1], perm.insert(p, j)[k2]),
{
    let q = perm.insert(p, j);
    let kj = entry_key(input[j]);
    assert forall|k1: int, k2: int| 0 <= k1 < k2 < perm.len() + 1 implies pos_lt(input, q[k1], q[k2]) by {
        if k1 == p {
            // q[k2] == perm[k2 - 1], k2 - 1 >= p
            let pp = perm[p];
            let pk = perm[k2 - 1];
            lemma_key_order(kj, entry_key(input[pp]), entry_key(input[pk]));
            lemma_key_order(entry_key(input[pp]), entry_key(input[pk]), kj);
            lemma_key_order(kj, entry_key(input[pk]), kj);
            if k2 - 1 > p {
                assert(pos_lt(input, pp, pk));
            }
        } else if k2 == p {
            assert(q[k1] == perm[k1]);
            assert(key_lt(entry_key(input[perm[k1]]), kj));
        } else {
            let a = if k1 < p { k1 } else { k1 - 1 };
            let b = if k2 < p { k2 } else { k2 - 1 };
            assert(q[k1] == perm[a]);
            assert(q[k2] == perm[b]);
        }
    }
}

/// The map of `entries` in deterministic order (RFC 8949 §4.2.1): entries
/// sorted by the encoding of their keys, shorter encodings first, equal lengths
/// bytewise; entries whose keys encode alike keep their order.
pub fn canonical_map(entries: Vec<(CborValue, CborValue)>) -> (r: CborValue)
    requires
        forall|i: int| 0 <= i < entries.len() ==> (#[trigger] entries@[i]).0.wf(),
    ensures
        r@ == CborModel::Mapping(canonical_entries(entry_models_of(entries@))),
        arranges(entry_models_of(entries@), canonical_entries(entry_models_of(entries@))),
        r.wf() <==> forall|i: int|
            0 <= i < entries.len() ==> (#[trigger] entries@[i]).0.wf() && entries@[i].1.wf(),
{
    let ghost orig = entries@;
    let ghost input = entry_models_of(entries@);
    proof {
        lemma_entry_models_of(orig);
    }
    let n = entries.len();
    let mut rest = entries;
    let mut sorted: Vec<(Vec<u8>, CborValue, CborValue)> = Vec::new();
    let ghost mut perm: Seq<int> = Seq::empty();
    while rest.len() > 0
        invariant
            n == orig.len(),
            input == entry_models_of(orig),
            input.len() == n,
            forall|i: int| 0 <= i < n ==> #[trigger] input[i] == (model_of(orig[i].0), model_of(orig[i].1)),
            forall|i: int| 0 <= i < n ==> (#[trigger] orig[i]).0.wf(),
            rest.len() <= n,
            rest@ == orig.take(rest.len() as int),
            sorted.len() == n - rest.len(),
            perm.len() == sorted.len(),
            forall|k: int| 0 <= k < perm.len() ==> rest.len() <= #[trigger] perm[k] < n,
            forall|k1: int, k2: int| 0 <= k1 < k2 < perm.len() ==> perm[k1] != perm[k2],
            forall|i: int| rest.len() <= i < n ==> #[trigger] hits(perm, i),
            forall|k: int|
                0 <= k < sorted.len() ==> model_of((#[trigger] sorted@[k]).1) == input[perm[k]].0
                    && model_of(sorted@[k].2) == input[perm[k]].1 && sorted@[k].0@ == entry_key(
                    input[perm[k]],
                ),
            forall|k1: int, k2: int| 0 <= k1 < k2 < perm.len() ==> pos_lt(input, perm[k1], perm[k2]),
        decreases rest.len(),
    {
        let ghost m_old = rest.len() as int;
        let (k, v) = rest.pop().unwrap();
        let ghost j = rest.len() as int;
        assert(orig[j] == (k, v));
        assert(rest@ =~= orig.take(j));
        let key = encode_value(&k);
        let mut p: usize = 0;
        while p < sorted.len() && key_less(&sorted[p].0, &key)
            invariant
                p <= sorted.len(),
                forall|q: int| 0 <= q < p ==> key_lt(#[trigger] sorted@[q].0@, key@),
            decreases sorted.len() - p,
        {
            p = p + 1;
        }
        proof {
            assert forall|q: int| 0 <= q < p implies key_lt(#[trigger] entry_key(input[perm[q]]), entry_key(input[j])) by {
                assert(sorted@[q].0@ == entry_key(input[perm[q]]));
            }
            if p < sorted.len() {
                assert(sorted@[p as int].0@ == entry_key(input[perm[p as int]]));
            }
            lemma_insert_position(input, perm, j, p as int);
        }
        let ghost old_sorted = sorted@;
        let ghost old_perm = perm;
        sorted.insert(p, (key, k, v));
        proof {
            perm = perm.insert(p as int, j);
            assert forall|i: int| j <= i < n implies #[trigger] hits(perm, i) by {
                if i == j {
                    assert(perm[p as int] == j);
                } else {
                    assert(hits(old_perm, i));
                    let w = choose|w: int| 0 <= w < old_perm.len() && old_perm[w] == i;
                    if w < p {
                        assert(perm[w] == i);
                    } else {
                        assert(perm[w + 1] == i);
                    }
                }
            }
            assert forall|k: int|
                0 <= k < sorted.len() implies model_of((#[trigger] sorted@[k]).1) == input[perm[k]].0
                && model_of(sorted@[k].2) == input[perm[k]].1 && sorted@[k].0@ == entry_key(input[perm[k]]) by {
                if k < p {
                    assert(sorted@[k] == old_sorted[k]);
                } else if k > p {
                    assert(sorted@[k] == old_sorted[k - 1]);
                }
            }
        }
    }
    // Move the entries out in order.
    let mut out: Vec<(CborValue, CborValue)> = Vec::new();
    let ghost all = sorted@;
    while sorted.len() > 0
        invariant
            out.len() + sorted.len() == n,
            all.len() == n,
            sorted@ == all.skip(out.len() as int),
            forall|k: int|
                0 <= k < out.len() ==> model_of(#[trigger] out@[k].0) == model_of(all[k].1)
                    && model_of(out@[k].1) == model_of(all[k].2),
        decreases sorted.len(),
    {
        let ghost before = sorted@;
        let (_key, k, v) = sorted.remove(0);
        out.push((k, v));
        assert(sorted@ =~= all.skip(out.len() as int));
    }
    let ghost output = entry_models_of(out@);
    proof {
        lemma_entry_models_of(out@);
        assert forall|k: int| 0 <= k < output.len() implies #[trigger] output[k] == input[perm[k]] by {
            assert(output[k] == (model_of(out@[k].0), model_of(out@[k].1)));
        }
        assert forall|i: int, j: int| 0 <= i < j < output.len() implies !key_lt(
            entry_key(output[j]),
            entry_key(output[i]),
        ) by {
            assert(output[i] == input[perm[i]]);
            assert(output[j] == input[perm[j]]);
            assert(pos_lt(input, perm[i], perm[j]));
            lemma_key_order(entry_key(output[i]), entry_key(output[j]), entry_key(output[i]));
        }
        assert forall|k1: int, k2: int|
            0 <= k1 < k2 < output.len() && entry_key(output[k1]) == entry_key(output[k2]) implies perm[k1]
            < perm[k2] by {
            assert(output[k1] == input[perm[k1]]);
            assert(output[k2] == input[perm[k2]]);
            assert(pos_lt(input, perm[k1], perm[k2]));
            lemma_key_order(entry_key(output[k1]), entry_key(output[k2]), entry_key(output[k1]));
        }
        assert(canonical_arrangement(input, output, perm));
        lemma_canonical_entries(input, output, perm);
        lemma_all_entries_wf(output);
        assert((forall|i: int| 0 <= i < n ==> (#[trigger] orig[i]).0.wf() && orig[i].1.wf()) <==> (forall|k: int|
            0 <= k < n ==> model_wf(#[trigger] output[k].0) && model_wf(output[k].1))) by {
            assert forall|k: int| 0 <= k < n implies #[trigger] output[k] == input[perm[k]] by {}
            if forall|i: int| 0 <= i < n ==> (#[trigger] orig[i]).0.wf() && orig[i].1.wf() {
                assert forall|k: int| 0 <= k < n implies model_wf(#[trigger] output[k].0) && model_wf(output[k].1) by {
                    let i = perm[k];
                    assert(orig[i].0.wf() && orig[i].1.wf());
                }
            }
            if forall|k: int| 0 <= k < n ==> model_wf(#[trigger] output[k].0) && model_wf(output[k].1) {
                assert forall|i: int| 0 <= i < n implies (#[trigger] orig[i]).0.wf() && orig[i].1.wf() by {
                    assert(hits(perm, i));
                    let k = choose|k: int| 0 <= k < perm.len() && perm[k] == i;
                    assert(model_wf(output[k].0) && model_wf(output[k].1));
                }
            }
        }
    }
    CborValue::Mapping(out)
}


// ── Every list of entries has its deterministic arrangement ──

/// The positions from `m` on, in increasing key order.
spec fn partial_arrangement(input: Seq<(CborModel, CborModel)>, perm: Seq<int>, m: int) -> bool {
    &&& perm.len() == input.len() - m
    &&& forall|k: int| 0 <= k < perm.len() ==> m <= #[trigger] perm[k] < input.len()
    &&& forall|k1: int, k2: int| 0 <= k1 < k2 < perm.len() ==> perm[k1] != perm[k2]
    &&& forall|i: int| m <= i < input.len() ==> #[trigger] hits(perm, i)
    &&& forall|k1: int, k2: int| 0 <= k1 < k2 < perm.len() ==> pos_lt(input, perm[k1], perm[k2])
}

/// The first place, from `k` on, whose key does not encode before `j`'s.
spec fn first_not_below(input: Seq<(CborModel, CborModel)>, perm: Seq<int>, j: int, k: int) -> int
    decreases perm.len() - k,
{
    if k >= perm.len() || !key_lt(entry_key(input[perm[k]]), entry_key(input[j])) {
        k
    } else {
        first_not_below(input, perm, j, k + 1)
    }
}

proof fn lemma_first_not_below(input: Seq<(CborModel, CborModel)>, perm: Seq<int>, j: int, k: int)
    requires
        0 <= k <= perm.len(),
    ensures
        k <= first_not_below(input, perm, j, k) <= perm.len(),
        forall|q: int| k <= q < first_not_below(input, perm, j, k) ==> key_lt(#[trigger] entry_key(input[perm[q]]), entry_key(input[j])),
        first_not_below(input, perm, j, k) < perm.len() ==> !key_lt(
            entry_key(input[perm[first_not_below(input, perm, j, k)]]),
            entry_key(input[j]),
        ),
    decreases perm.len() - k,
{
    if k < perm.len() && key_lt(entry_key(input[perm[k]]), entry_key(input[j])) {
        lemma_first_not_below(input, perm, j, k + 1);
    }
}

proof fn lemma_partial_exists(input: Seq<(CborModel, CborModel)>, m: int) -> (perm: Seq<int>)
    requires
        0 <= m <= input.len(),
    ensures
        partial_arrangement(input, perm, m),
    decreases input.len() - m,
{
    if m == input.len() {
        let perm = Seq::<int>::empty();
        assert forall|i: int| m <= i < input.len() implies #[trigger] hits(perm, i) by {}
        perm
    } else {
        let perm = lemma_partial_exists(input, m + 1);
        let j = m;
        lemma_first_not_below(input, perm, j, 0);
        let p = first_not_below(input, perm, j, 0);
        lemma_insert_position(input, perm, j, p);
        let q = perm.insert(p, j);
        assert forall|k: int| 0 <= k < q.len() implies m <= #[trigger] q[k] < input.len() by {
            if k < p {
                assert(q[k] == perm[k]);
            } else if k > p {
                assert(q[k] == perm[k - 1]);
            }
        }
        assert forall|k1: int, k2: int| 0 <= k1 < k2 < q.len() implies q[k1] != q[k2] by {
            assert(pos_lt(input, q[k1], q[k2]));
            lemma_pos_lt_asym(input, q[k1], q[k2]);
        }
        assert forall|i: int| m <= i < input.len() implies #[trigger] hits(q, i) by {
            if i == j {
                assert(q[p] == j);
            } else {
                assert(hits(perm, i));
                let w = choose|w: int| 0 <= w < perm.len() && perm[w] == i;
                if w < p {
                    assert(q[w] == i);
                } else {
                    assert(q[w + 1] == i);
                }
            }
        }
        q
    }
}

/// Every list of entries has a deterministic arrangement, the one
/// `canonical_entries` names.
pub proof fn lemma_arrangement_exists(input: Seq<(CborModel, CborModel)>)
    ensures
        arranges(input, canonical_entries(input)),
        entries_in_canonical_order(canonical_entries(input)),
        canonical_entries(input).len() == input.len(),
{
    let perm = lemma_partial_exists(input, 0);
    let n = input.len();
    let output = Seq::new(n, |k: int| input[perm[k]]);
    assert forall|i: int, j: int| 0 <= i < j < output.len() implies !key_lt(
        entry_key(output[j]),
        entry_key(output[i]),
    ) by {
        assert(pos_lt(input, perm[i], perm[j]));
        lemma_key_order(entry_key(output[i]), entry_key(output[j]), entry_key(output[i]));
    }
    assert forall|k1: int, k2: int|
        0 <= k1 < k2 < output.len() && entry_key(output[k1]) == entry_key(output[k2]) implies perm[k1] < perm[k2] by {
        assert(pos_lt(input, perm[k1], perm[k2]));
        lemma_key_order(entry_key(output[k1]), entry_key(output[k2]), entry_key(output[k1]));
    }
    assert(canonical_arrangement(input, output, perm));
    lemma_canonical_entries(input, output, perm);
}


/// Each entry of the deterministic arrangement is one of the given entries.
pub proof fn lemma_canonical_entries_members(input: Seq<(CborModel, CborModel)>, k: int)
    requires
        0 <= k < input.len(),
    ensures
        canonical_entries(input).len() == input.len(),
        exists|j: int| 0 <= j < input.len() && canonical_entries(input)[k] == #[trigger] input[j],
{
    lemma_arrangement_exists(input);
    let output = canonical_entries(input);
    let perm = choose|perm: Seq<int>| canonical_arrangement(input, output, perm);
    assert(output[k] == input[perm[k]]);
}

/// A map of entries whose keys and values read back within `d - 1` reads
/// back within `d`, whatever order its entries are put in.
pub proof fn lemma_map_reads_back(input: Seq<(CborModel, CborModel)>, d: nat)
    requires
        d > 0,
        forall|j: int| 0 <= j < input.len() ==> crate::codec::reads_back_within(#[trigger] input[j].0, (d - 1) as nat)
            && crate::codec::reads_back_within(input[j].1, (d - 1) as nat),
    ensures
        crate::codec::reads_back_within(CborModel::Mapping(canonical_entries(input)), d),
{
    lemma_arrangement_exists(input);
    let output = canonical_entries(input);
    assert forall|k: int| 0 <= k < output.len() implies crate::codec::reads_back_within(#[trigger] output[k].0, (d - 1) as nat)
        && crate::codec::reads_back_within(output[k].1, (d - 1) as nat) by {
        lemma_canonical_entries_members(input, k);
        let j = choose|j: int| 0 <= j < input.len() && output[k] == #[trigger] input[j];
        assert(crate::codec::reads_back_within(input[j].0, (d - 1) as nat));
    }
}

} // verus!
