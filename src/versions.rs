use vstd::prelude::*;
use vstd::utf8::{decode_utf8, encode_utf8, encode_utf8_decode_utf8};

verus! {

broadcast use vstd::seq_lib::group_to_multiset_ensures;

/// Lexicographic order on byte strings, a prefix first.
pub open spec fn bytes_le(a: Seq<u8>, b: Seq<u8>) -> bool
    decreases a.len(),
{
    if a.len() == 0 {
        true
    } else if b.len() == 0 {
        false
    } else if a[0] != b[0] {
        a[0] < b[0]
    } else {
        bytes_le(a.drop_first(), b.drop_first())
    }
}

/// The order of `String`: that of the UTF-8 bytes.
pub open spec fn str_le(a: String, b: String) -> bool {
    bytes_le(encode_utf8(a@), encode_utf8(b@))
}

/// The texts of a sequence of strings.
pub open spec fn texts(s: Seq<String>) -> Seq<Seq<char>> {
    s.map_values(|x: String| x@)
}

pub open spec fn is_sorted(s: Seq<String>) -> bool {
    forall|i: int, j: int| 0 <= i < j < s.len() ==> str_le(#[trigger] s[i], #[trigger] s[j])
}

proof fn lemma_bytes_le_total(a: Seq<u8>, b: Seq<u8>)
    ensures
        bytes_le(a, b) || bytes_le(b, a),
    decreases a.len(),
{
    if a.len() > 0 && b.len() > 0 && a[0] == b[0] {
        lemma_bytes_le_total(a.drop_first(), b.drop_first());
    }
}

proof fn lemma_bytes_le_trans(a: Seq<u8>, b: Seq<u8>, c: Seq<u8>)
    requires
        bytes_le(a, b),
        bytes_le(b, c),
    ensures
        bytes_le(a, c),
    decreases a.len(),
{
    if a.len() > 0 && b.len() > 0 && c.len() > 0 && a[0] == b[0] && b[0] == c[0] {
        lemma_bytes_le_trans(a.drop_first(), b.drop_first(), c.drop_first());
    }
}

proof fn lemma_bytes_le_antisymmetric(a: Seq<u8>, b: Seq<u8>)
    requires
        bytes_le(a, b),
        bytes_le(b, a),
    ensures
        a == b,
    decreases a.len(),
{
    if a.len() > 0 && b.len() > 0 {
        lemma_bytes_le_antisymmetric(a.drop_first(), b.drop_first());
        assert(a =~= seq![a[0]] + a.drop_first());
        assert(b =~= seq![b[0]] + b.drop_first());
    } else {
        assert(a.len() == 0 && b.len() == 0);
        assert(a =~= b);
    }
}

proof fn lemma_bytes_le_reflexive(a: Seq<u8>)
    ensures
        bytes_le(a, a),
    decreases a.len(),
{
    if a.len() > 0 {
        lemma_bytes_le_reflexive(a.drop_first());
    }
}

/// Strings that are each at most the other have the same text.
pub proof fn lemma_str_le_antisymmetric(x: String, y: String)
    requires
        str_le(x, y),
        str_le(y, x),
    ensures
        x@ == y@,
{
    lemma_bytes_le_antisymmetric(encode_utf8(x@), encode_utf8(y@));
    encode_utf8_decode_utf8(x@);
    encode_utf8_decode_utf8(y@);
}

/// A list sorted in byte order is fixed by the multiset of its texts: two
/// sorted lists with the same texts, counted with repeats, are equal text for
/// text.
pub proof fn lemma_sorted_unique(a: Seq<String>, b: Seq<String>)
    requires
        is_sorted(a),
        is_sorted(b),
        texts(a).to_multiset() == texts(b).to_multiset(),
    ensures
        texts(a) == texts(b),
    decreases a.len(),
{
    let ta = texts(a);
    let tb = texts(b);
    assert(ta.len() == ta.to_multiset().len() && tb.len() == tb.to_multiset().len());
    if a.len() > 0 {
        assert(ta.to_multiset().count(ta[0]) > 0);
        assert(tb.contains(ta[0]));
        let k = choose|k: int| 0 <= k < tb.len() && tb[k] == ta[0];
        assert(tb.to_multiset().count(tb[0]) > 0);
        assert(ta.contains(tb[0]));
        let j = choose|j: int| 0 <= j < ta.len() && ta[j] == tb[0];
        if k > 0 {
            assert(str_le(b[0], b[k]));
        } else {
            lemma_bytes_le_reflexive(encode_utf8(b[0]@));
        }
        if j > 0 {
            assert(str_le(a[0], a[j]));
        } else {
            lemma_bytes_le_reflexive(encode_utf8(a[0]@));
        }
        assert(str_le(b[0], a[0]));
        assert(str_le(a[0], b[0]));
        // b[0] <= b[k], whose text is that of a[0]; a[0] <= a[j], whose text is that of b[0].
        assert(encode_utf8(b[k]@) == encode_utf8(a[0]@));
        assert(encode_utf8(a[j]@) == encode_utf8(b[0]@));
        lemma_str_le_antisymmetric(a[0], b[0]);
        let ra = a.drop_first();
        let rb = b.drop_first();
        assert(texts(ra) =~= ta.remove(0));
        assert(texts(rb) =~= tb.remove(0));
        assert(texts(ra).to_multiset() == texts(rb).to_multiset());
        assert forall|p: int, q: int| 0 <= p < q < ra.len() implies str_le(#[trigger] ra[p], #[trigger] ra[q]) by {
            assert(str_le(a[p + 1], a[q + 1]));
        }
        assert forall|p: int, q: int| 0 <= p < q < rb.len() implies str_le(#[trigger] rb[p], #[trigger] rb[q]) by {
            assert(str_le(b[p + 1], b[q + 1]));
        }
        lemma_sorted_unique(ra, rb);
        assert(ta =~= tb) by {
            assert forall|p: int| 0 <= p < ta.len() implies ta[p] == tb[p] by {
                if p > 0 {
                    assert(texts(ra)[p - 1] == texts(rb)[p - 1]);
                }
            }
        }
    } else {
        assert(ta =~= tb);
    }
}

/// Compares two strings in the order of their bytes.
pub fn version_le(a: &String, b: &String) -> (r: bool)
    ensures
        r == str_le(*a, *b),
{
    let x = a.as_str().as_bytes();
    let y = b.as_str().as_bytes();
    let ghost xs = encode_utf8(a@);
    let ghost ys = encode_utf8(b@);
    let mut i: usize = 0;
    assert(xs.skip(0) =~= xs);
    assert(ys.skip(0) =~= ys);
    while i < x.len() && i < y.len()
        invariant
            x@ == xs,
            y@ == ys,
            xs == encode_utf8(a@),
            ys == encode_utf8(b@),
            i <= x.len(),
            i <= y.len(),
            bytes_le(xs, ys) == bytes_le(xs.skip(i as int), ys.skip(i as int)),
        decreases x.len() - i,
    {
        assert(xs.skip(i as int).len() > 0 && ys.skip(i as int).len() > 0);
        assert(xs.skip(i as int)[0] == x[i as int]);
        assert(ys.skip(i as int)[0] == y[i as int]);
        if x[i] != y[i] {
            assert(bytes_le(xs.skip(i as int), ys.skip(i as int)) == (x[i as int] < y[i as int]));
            return x[i] < y[i];
        }
        assert(xs.skip(i as int).drop_first() =~= xs.skip(i + 1));
        assert(ys.skip(i as int).drop_first() =~= ys.skip(i + 1));
        i = i + 1;
    }
    assert(xs.skip(i as int).len() == xs.len() - i);
    assert(ys.skip(i as int).len() == ys.len() - i);
    i == x.len()
}

/// Sorts strings in ascending byte order.
pub fn sort_versions(v: Vec<String>) -> (r: Vec<String>)
    ensures
        is_sorted(r@),
        r@.to_multiset() == v@.to_multiset(),
        texts(r@).to_multiset() == texts(v@).to_multiset(),
{
    let mut r: Vec<String> = Vec::new();
    let mut i: usize = 0;
    while i < v.len()
        invariant
            i <= v.len(),
            is_sorted(r@),
            r@.to_multiset() == v@.take(i as int).to_multiset(),
            texts(r@).to_multiset() == texts(v@.take(i as int)).to_multiset(),
        decreases v.len() - i,
    {
        let x = v[i].clone();
        let mut p: usize = 0;
        while p < r.len()
            invariant
                p <= r.len(),
                forall|q: int| 0 <= q < p ==> str_le(#[trigger] r@[q], x),
            ensures
                p <= r.len(),
                forall|q: int| 0 <= q < p ==> str_le(#[trigger] r@[q], x),
                p < r.len() ==> !str_le(r@[p as int], x),
            decreases r.len() - p,
        {
            if !version_le(&r[p], &x) {
                break;
            }
            p = p + 1;
        }
        assert(p < r.len() ==> !str_le(r@[p as int], x));
        let ghost prev = r@;
        proof {
            if p < r.len() {
                lemma_bytes_le_total(encode_utf8(r@[p as int]@), encode_utf8(x@));
            }
        }
        r.insert(p, x);
        assert(r@ == prev.insert(p as int, x));
        assert forall|a: int, b: int| 0 <= a < b < r.len() implies str_le(
            #[trigger] r@[a],
            #[trigger] r@[b],
        ) by {
            if b == p {
            } else if a == p && b == p + 1 {
                assert(r@[b] == prev[p as int]);
            } else if a == p {
                assert(r@[b] == prev[b - 1]);
                assert(str_le(prev[p as int], prev[b - 1]));
                lemma_bytes_le_trans(encode_utf8(x@), encode_utf8(prev[p as int]@), encode_utf8(prev[b - 1]@));
            } else if a < p && b > p {
                assert(r@[b] == prev[b - 1]);
            } else if a > p {
                assert(r@[a] == prev[a - 1]);
                assert(r@[b] == prev[b - 1]);
            }
        }
        assert(texts(r@) =~= texts(prev).insert(p as int, x@));
        assert(v@.take(i + 1) =~= v@.take(i as int).push(v@[i as int]));
        assert(texts(v@.take(i + 1)) =~= texts(v@.take(i as int)).push(v@[i as int]@));
        i = i + 1;
    }
    assert(v@.take(v.len() as int) =~= v@);
    assert(texts(v@.take(v.len() as int)) =~= texts(v@));
    r
}

} // verus!
