//! The order of strings: byte by byte over their UTF-8 encodings, the order of `str` itself.

use vstd::prelude::*;

verus! {

/// `i` is the first position at which `a` and `b` part, and `a` is the smaller one there: either
/// `a` ends at `i` and `b` goes on, or the byte of `a` at `i` is the smaller one.
pub open spec fn parts_below(a: Seq<u8>, b: Seq<u8>, i: int) -> bool {
    &&& 0 <= i <= a.len()
    &&& i < b.len()
    &&& forall|j: int| 0 <= j < i ==> a[j] == b[j]
    &&& i == a.len() || a[i] < b[i]
}

/// Lexicographic order of byte strings.
pub open spec fn bytes_less(a: Seq<u8>, b: Seq<u8>) -> bool {
    exists|i: int| parts_below(a, b, i)
}

/// Order of strings: lexicographic over the bytes of their UTF-8 encodings.
pub open spec fn text_less(a: Seq<char>, b: Seq<char>) -> bool {
    bytes_less(vstd::utf8::encode_utf8(a), vstd::utf8::encode_utf8(b))
}

/// Every element comes strictly before each later one: sorted, and nothing occurs twice.
pub open spec fn strictly_sorted(s: Seq<Seq<char>>) -> bool {
    forall|i: int, j: int| 0 <= i < j < s.len() ==> text_less(#[trigger] s[i], #[trigger] s[j])
}

/// Two strings with the same UTF-8 encoding are equal.
pub proof fn lemma_utf8_injective(a: Seq<char>, b: Seq<char>)
    requires
        vstd::utf8::encode_utf8(a) == vstd::utf8::encode_utf8(b),
    ensures
        a == b,
{
    vstd::utf8::encode_utf8_decode_utf8(a);
    vstd::utf8::encode_utf8_decode_utf8(b);
}

/// No string comes before itself.
pub proof fn lemma_text_irreflexive(a: Seq<char>)
    ensures
        !text_less(a, a),
{
}

/// The order of strings is transitive.
pub proof fn lemma_text_transitive(a: Seq<char>, b: Seq<char>, c: Seq<char>)
    requires
        text_less(a, b),
        text_less(b, c),
    ensures
        text_less(a, c),
{
    let (x, y, z) = (
        vstd::utf8::encode_utf8(a),
        vstd::utf8::encode_utf8(b),
        vstd::utf8::encode_utf8(c),
    );
    let i = choose|i: int| parts_below(x, y, i);
    let k = choose|k: int| parts_below(y, z, k);
    if i <= k {
        assert(parts_below(x, z, i));
    } else {
        assert(parts_below(x, z, k));
    }
}

/// Of two strings neither of which comes before the other, both are the same.
pub proof fn lemma_text_total(a: Seq<char>, b: Seq<char>)
    ensures
        text_less(a, b) || a == b || text_less(b, a),
{
    let (x, y) = (vstd::utf8::encode_utf8(a), vstd::utf8::encode_utf8(b));
    lemma_common_prefix(x, y, 0);
    if x == y {
        lemma_utf8_injective(a, b);
    }
}

/// Byte strings that agree below `i` are equal, or one of them is the smaller one.
proof fn lemma_common_prefix(a: Seq<u8>, b: Seq<u8>, i: int)
    requires
        0 <= i <= a.len(),
        i <= b.len(),
        forall|j: int| 0 <= j < i ==> a[j] == b[j],
    ensures
        bytes_less(a, b) || a == b || bytes_less(b, a),
    decreases a.len() - i,
{
    if i == a.len() && i == b.len() {
        assert(a =~= b);
    } else if i == a.len() || (i < b.len() && a[i] < b[i]) {
        assert(parts_below(a, b, i));
    } else if i == b.len() || b[i] < a[i] {
        assert(parts_below(b, a, i));
    } else {
        lemma_common_prefix(a, b, i + 1);
    }
}

/// A strictly sorted sequence is determined by the set of its elements.
pub proof fn lemma_sorted_unique(s: Seq<Seq<char>>, t: Seq<Seq<char>>)
    requires
        strictly_sorted(s),
        strictly_sorted(t),
        forall|x: Seq<char>| s.contains(x) <==> t.contains(x),
    ensures
        s == t,
    decreases s.len(),
{
    if s.len() == 0 {
        if t.len() != 0 {
            assert(t.contains(t[0]));
            assert(s.contains(t[0]));
        }
        assert(s =~= t);
    } else {
        assert(s.contains(s[0]));
        let k = choose|k: int| 0 <= k < t.len() && t[k] == s[0];
        assert(t.contains(t[0]));
        let m = choose|m: int| 0 <= m < s.len() && s[m] == t[0];
        if s[0] != t[0] {
            assert(text_less(t[0], t[k]));
            assert(text_less(s[0], s[m]));
            lemma_text_transitive(s[0], t[0], s[0]);
            lemma_text_irreflexive(s[0]);
        }
        let (u, v) = (s.drop_first(), t.drop_first());
        assert forall|i: int, j: int| 0 <= i < j < u.len() implies text_less(
            #[trigger] u[i],
            #[trigger] u[j],
        ) by {
            assert(u[i] == s[i + 1] && u[j] == s[j + 1]);
        }
        assert forall|i: int, j: int| 0 <= i < j < v.len() implies text_less(
            #[trigger] v[i],
            #[trigger] v[j],
        ) by {
            assert(v[i] == t[i + 1] && v[j] == t[j + 1]);
        }
        assert forall|x: Seq<char>| u.contains(x) <==> v.contains(x) by {
            lemma_text_irreflexive(x);
            if u.contains(x) {
                let i = choose|i: int| 0 <= i < u.len() && u[i] == x;
                assert(s[i + 1] == x);
                assert(text_less(s[0], s[i + 1]));
                assert(s.contains(x));
                let j = choose|j: int| 0 <= j < t.len() && t[j] == x;
                assert(v[j - 1] == x);
            }
            if v.contains(x) {
                let i = choose|i: int| 0 <= i < v.len() && v[i] == x;
                assert(t[i + 1] == x);
                assert(text_less(t[0], t[i + 1]));
                assert(t.contains(x));
                let j = choose|j: int| 0 <= j < s.len() && s[j] == x;
                assert(u[j - 1] == x);
            }
        }
        lemma_sorted_unique(u, v);
        assert(s =~= seq![s[0]] + u);
        assert(t =~= seq![t[0]] + v);
    }
}

/// A strictly sorted sequence stays strictly sorted when an element is put between those before
/// it and those after it.
pub proof fn lemma_sorted_insert(s: Seq<Seq<char>>, p: int, x: Seq<char>)
    requires
        strictly_sorted(s),
        0 <= p <= s.len(),
        forall|j: int| 0 <= j < p ==> text_less(#[trigger] s[j], x),
        forall|j: int| p <= j < s.len() ==> text_less(x, #[trigger] s[j]),
    ensures
        strictly_sorted(s.insert(p, x)),
        forall|y: Seq<char>| #[trigger] s.insert(p, x).contains(y) <==> y == x || s.contains(y),
{
    let t = s.insert(p, x);
    assert forall|y: Seq<char>| #[trigger] t.contains(y) <==> y == x || s.contains(y) by {
        if y == x {
            assert(t[p] == y);
        } else if s.contains(y) {
            let k = choose|k: int| 0 <= k < s.len() && s[k] == y;
            assert(t[if k < p { k } else { k + 1 }] == y);
        }
        if t.contains(y) && y != x {
            let k = choose|k: int| 0 <= k < t.len() && t[k] == y;
            assert(s[if k < p { k } else { k - 1 }] == y);
        }
    }
    assert forall|i: int, j: int| 0 <= i < j < t.len() implies text_less(
        #[trigger] t[i],
        #[trigger] t[j],
    ) by {
        let a = if i < p { i } else { i - 1 };
        let b = if j < p { j } else { j - 1 };
        assert(i != p ==> t[i] == s[a]);
        assert(j != p ==> t[j] == s[b]);
    }
}

/// In a strictly sorted sequence nothing occurs twice.
pub proof fn lemma_sorted_no_duplicates(s: Seq<Seq<char>>)
    requires
        strictly_sorted(s),
    ensures
        s.no_duplicates(),
{
    assert forall|i: int, j: int| 0 <= i < s.len() && 0 <= j < s.len() && i != j implies s[i]
        != s[j] by {
        lemma_text_irreflexive(s[i]);
        if i < j {
            assert(text_less(s[i], s[j]));
        } else {
            assert(text_less(s[j], s[i]));
        }
    }
}

/// Whether `a` comes before `b`.
pub fn less(a: &str, b: &str) -> (r: bool)
    ensures
        r == text_less(a@, b@),
{
    let x = a.as_bytes();
    let y = b.as_bytes();
    let mut i: usize = 0;
    while i < x.len() && i < y.len() && x[i] == y[i]
        invariant
            i <= x@.len(),
            i <= y@.len(),
            forall|j: int| 0 <= j < i ==> x@[j] == y@[j],
        decreases x@.len() - i,
    {
        i += 1;
    }
    let r = i < y.len() && (i == x.len() || x[i] < y[i]);
    proof {
        if r {
            assert(parts_below(x@, y@, i as int));
        } else if bytes_less(x@, y@) {
            let k = choose|k: int| parts_below(x@, y@, k);
            assert(k == i);
        }
    }
    r
}

} // verus!
