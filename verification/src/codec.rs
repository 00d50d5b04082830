//! The byte format that keys and digests share: every run of text or items stands behind its
//! length, eight bytes, most significant first. Decoding is fail-closed: malformed bytes are a
//! typed error, never a default.

use crate::error::{Error, ErrorModel};
use crate::types::Constraint;
use vstd::prelude::*;

verus! {

// ---------------------------------------------------------------------------------------------
// What is written
// ---------------------------------------------------------------------------------------------

/// The last `width` base-256 digits of `n`, most significant first.
pub open spec fn big_endian(n: nat, width: nat) -> Seq<u8>
    decreases width,
{
    if width == 0 {
        seq![]
    } else {
        big_endian(n / 256, (width - 1) as nat).push((n % 256) as u8)
    }
}

/// The number whose base-256 digits are `s`, most significant first.
pub open spec fn big_endian_value(s: Seq<u8>) -> nat
    decreases s.len(),
{
    if s.len() == 0 {
        0
    } else {
        256 * big_endian_value(s.drop_last()) + s.last() as nat
    }
}

/// A length or a count as it is written: eight bytes, most significant first.
pub open spec fn count_bytes(n: nat) -> Seq<u8> {
    big_endian(n, 8)
}

/// A string as it is written: the length of its UTF-8 encoding, then that encoding.
pub open spec fn text_bytes(s: Seq<char>) -> Seq<u8> {
    count_bytes(vstd::utf8::encode_utf8(s).len()) + vstd::utf8::encode_utf8(s)
}

/// A boolean as it is written: one byte, 0 or 1.
pub open spec fn flag_bytes(b: bool) -> Seq<u8> {
    seq![if b { 1u8 } else { 0u8 }]
}

/// The strings of `list` as they are written, one after the other.
pub open spec fn texts_bytes(list: Seq<Seq<char>>) -> Seq<u8>
    decreases list.len(),
{
    if list.len() == 0 {
        seq![]
    } else {
        texts_bytes(list.drop_last()) + text_bytes(list.last())
    }
}

/// A list of strings as it is written: its length, then the strings.
pub open spec fn text_list_bytes(list: Seq<Seq<char>>) -> Seq<u8> {
    count_bytes(list.len()) + texts_bytes(list)
}

// ---------------------------------------------------------------------------------------------
// What is read back
// ---------------------------------------------------------------------------------------------

/// The outcome of reading one item: the item or the reason why there is none, and the position
/// at which reading stopped.
pub struct Read<T> {
    pub result: Result<T, Seq<char>>,
    pub end: int,
}

/// The next `n` bytes of `b` from `i` on.
pub open spec fn read_bytes(b: Seq<u8>, i: int, n: int) -> Read<Seq<u8>> {
    if i + n <= b.len() {
        Read { result: Ok(b.subrange(i, i + n)), end: i + n }
    } else {
        Read { result: Err("truncated"@), end: i }
    }
}

/// The length or count that stands in `b` at `i`.
pub open spec fn read_count(b: Seq<u8>, i: int) -> Read<nat> {
    let raw = read_bytes(b, i, 8);
    match raw.result {
        Ok(s) => Read { result: Ok(big_endian_value(s)), end: raw.end },
        Err(e) => Read { result: Err(e), end: raw.end },
    }
}

/// The string that stands in `b` at `i`.
pub open spec fn read_text(b: Seq<u8>, i: int) -> Read<Seq<char>> {
    let len = read_count(b, i);
    match len.result {
        Ok(n) => {
            let raw = read_bytes(b, len.end, n as int);
            match raw.result {
                Ok(s) => if vstd::utf8::valid_utf8(s) {
                    Read { result: Ok(vstd::utf8::decode_utf8(s)), end: raw.end }
                } else {
                    Read { result: Err("non-utf8"@), end: raw.end }
                },
                Err(e) => Read { result: Err(e), end: raw.end },
            }
        },
        Err(e) => Read { result: Err(e), end: len.end },
    }
}

/// The byte that stands in `b` at `i`.
pub open spec fn read_byte(b: Seq<u8>, i: int) -> Read<u8> {
    let raw = read_bytes(b, i, 1);
    match raw.result {
        Ok(s) => Read { result: Ok(s[0]), end: raw.end },
        Err(e) => Read { result: Err(e), end: raw.end },
    }
}

/// The boolean that stands in `b` at `i`.
pub open spec fn read_flag(b: Seq<u8>, i: int) -> Read<bool> {
    let tag = read_byte(b, i);
    match tag.result {
        Ok(t) => Read {
            result: if t == 0 {
                Ok(false)
            } else if t == 1 {
                Ok(true)
            } else {
                Err("bad bool tag "@ + crate::text::decimal(t as nat))
            },
            end: tag.end,
        },
        Err(e) => Read { result: Err(e), end: tag.end },
    }
}

/// The first `n` of the strings that stand in `b` from `i` on.
pub open spec fn read_texts(b: Seq<u8>, i: int, n: nat) -> Read<Seq<Seq<char>>>
    decreases n,
{
    if n == 0 {
        Read { result: Ok(seq![]), end: i }
    } else {
        let before = read_texts(b, i, (n - 1) as nat);
        match before.result {
            Ok(list) => {
                let next = read_text(b, before.end);
                match next.result {
                    Ok(s) => Read { result: Ok(list.push(s)), end: next.end },
                    Err(e) => Read { result: Err(e), end: next.end },
                }
            },
            Err(e) => before,
        }
    }
}

/// The list of strings that stands in `b` at `i`.
pub open spec fn read_text_list(b: Seq<u8>, i: int) -> Read<Seq<Seq<char>>> {
    let len = read_count(b, i);
    match len.result {
        Ok(n) => read_texts(b, len.end, n),
        Err(e) => Read { result: Err(e), end: len.end },
    }
}

/// Nothing is left of `b` from `i` on.
pub open spec fn read_end(b: Seq<u8>, i: int) -> Result<(), Seq<char>> {
    if i == b.len() {
        Ok(())
    } else {
        Err("trailing bytes"@)
    }
}

/// `part` stands in `b` at `i`.
pub open spec fn stands_at(b: Seq<u8>, i: int, part: Seq<u8>) -> bool {
    0 <= i && i + part.len() <= b.len() && b.subrange(i, i + part.len()) == part
}

// ---------------------------------------------------------------------------------------------
// Reading gives back what was written, and accepts nothing else
// ---------------------------------------------------------------------------------------------

/// 256 to the power of `width`.
pub open spec fn radix_power(width: nat) -> nat
    decreases width,
{
    if width == 0 {
        1
    } else {
        256 * radix_power((width - 1) as nat)
    }
}

/// Writing `width` digits gives `width` bytes, which read back as `n` where `n` fits in them.
pub proof fn lemma_big_endian(n: nat, width: nat)
    ensures
        big_endian(n, width).len() == width,
        n < radix_power(width) ==> big_endian_value(big_endian(n, width)) == n,
    decreases width,
{
    if width > 0 {
        lemma_big_endian(n / 256, (width - 1) as nat);
        let s = big_endian(n, width);
        assert(s.drop_last() =~= big_endian(n / 256, (width - 1) as nat));
        assert(s.last() == (n % 256) as u8);
    }
}

/// Every byte string is the way its value is written in that many digits.
pub proof fn lemma_big_endian_value(s: Seq<u8>)
    ensures
        big_endian(big_endian_value(s), s.len()) == s,
        big_endian_value(s) < radix_power(s.len()),
    decreases s.len(),
{
    if s.len() > 0 {
        lemma_big_endian_value(s.drop_last());
        let high = big_endian_value(s.drop_last());
        assert(big_endian_value(s) / 256 == high);
        assert(big_endian_value(s) % 256 == s.last() as nat);
        assert(big_endian(big_endian_value(s), s.len()) =~= s);
    } else {
        assert(big_endian(0, 0) =~= s);
    }
}

/// The number of values that eight bytes can take.
pub proof fn lemma_count_range()
    ensures
        radix_power(8) == 0x1_0000_0000_0000_0000,
{
    reveal_with_fuel(radix_power, 9);
}

/// Two parts in a row stand at `i` exactly if the first stands there and the second behind it.
pub proof fn lemma_stands_concat(b: Seq<u8>, i: int, p: Seq<u8>, q: Seq<u8>)
    ensures
        stands_at(b, i, p + q) <==> stands_at(b, i, p) && stands_at(b, i + p.len(), q),
{
    let r = p + q;
    if stands_at(b, i, r) {
        let s = b.subrange(i, i + r.len());
        assert(s.subrange(0, p.len() as int) =~= p);
        assert(s.subrange(p.len() as int, r.len() as int) =~= q);
        assert(b.subrange(i, i + p.len()) =~= s.subrange(0, p.len() as int));
        assert(b.subrange(i + p.len(), i + r.len()) =~= s.subrange(p.len() as int, r.len() as int));
    }
    if stands_at(b, i, p) && stands_at(b, i + p.len(), q) {
        assert(b.subrange(i, i + r.len()) =~= b.subrange(i, i + p.len()) + b.subrange(
            i + p.len(),
            i + r.len(),
        ));
    }
}

/// A part that ends where the bytes end, and starts where they start, is all of them.
pub proof fn lemma_stands_whole(b: Seq<u8>, part: Seq<u8>)
    ensures
        stands_at(b, 0, part) && part.len() == b.len() <==> b == part,
{
    if part.len() == b.len() {
        assert(b.subrange(0, b.len() as int) =~= b);
    }
}

/// A count that stands at `i` is read there; what is read as a count stands there.
pub proof fn lemma_read_count(b: Seq<u8>, i: int)
    requires
        0 <= i <= b.len(),
    ensures
        forall|n: nat|
            n <= u64::MAX && #[trigger] stands_at(b, i, count_bytes(n)) ==> read_count(b, i).result
                == Ok::<nat, Seq<char>>(n) && read_count(b, i).end == i + 8,
        read_count(b, i).result matches Ok(n) ==> n <= u64::MAX && read_count(b, i).end == i + 8
            && stands_at(b, i, count_bytes(n)),
        i <= read_count(b, i).end <= b.len(),
{
    lemma_count_range();
    assert forall|n: nat|
        n <= u64::MAX && #[trigger] stands_at(b, i, count_bytes(n)) implies read_count(b, i).result
        == Ok::<nat, Seq<char>>(n) && read_count(b, i).end == i + 8 by {
        lemma_big_endian(n, 8);
    }
    if i + 8 <= b.len() {
        lemma_big_endian_value(b.subrange(i, i + 8));
    }
}

/// A string that stands at `i` is read there; what is read as a string stands there.
pub proof fn lemma_read_text(b: Seq<u8>, i: int)
    requires
        0 <= i <= b.len(),
    ensures
        forall|s: Seq<char>|
            vstd::utf8::encode_utf8(s).len() <= u64::MAX && #[trigger] stands_at(
                b,
                i,
                text_bytes(s),
            ) ==> read_text(b, i).result == Ok::<Seq<char>, Seq<char>>(s) && read_text(b, i).end
                == i + text_bytes(s).len(),
        read_text(b, i).result matches Ok(s) ==> vstd::utf8::encode_utf8(s).len() <= u64::MAX
            && read_text(b, i).end == i + text_bytes(s).len() && stands_at(b, i, text_bytes(s)),
        i <= read_text(b, i).end <= b.len(),
{
    lemma_read_count(b, i);
    assert forall|s: Seq<char>|
        vstd::utf8::encode_utf8(s).len() <= u64::MAX && #[trigger] stands_at(
            b,
            i,
            text_bytes(s),
        ) implies read_text(b, i).result == Ok::<Seq<char>, Seq<char>>(s) && read_text(b, i).end
        == i + text_bytes(s).len() by {
        let raw = vstd::utf8::encode_utf8(s);
        lemma_stands_concat(b, i, count_bytes(raw.len()), raw);
        lemma_big_endian(raw.len(), 8);
        vstd::utf8::encode_utf8_valid_utf8(s);
        vstd::utf8::encode_utf8_decode_utf8(s);
    }
    if let Ok(s) = read_text(b, i).result {
        let n = read_count(b, i).result->Ok_0;
        let raw = b.subrange(i + 8, i + 8 + n);
        vstd::utf8::decode_utf8_encode_utf8(raw);
        lemma_big_endian(n, 8);
        lemma_stands_concat(b, i, count_bytes(n), raw);
    }
}

/// A boolean that stands at `i` is read there; what is read as a boolean stands there.
pub proof fn lemma_read_flag(b: Seq<u8>, i: int)
    requires
        0 <= i <= b.len(),
    ensures
        forall|f: bool| #[trigger]
            stands_at(b, i, flag_bytes(f)) ==> read_flag(b, i).result == Ok::<bool, Seq<char>>(f)
                && read_flag(b, i).end == i + 1,
        read_flag(b, i).result matches Ok(f) ==> read_flag(b, i).end == i + 1 && stands_at(
            b,
            i,
            flag_bytes(f),
        ),
        i <= read_flag(b, i).end <= b.len(),
{
    assert forall|f: bool| #[trigger] stands_at(b, i, flag_bytes(f)) implies read_flag(b, i).result
        == Ok::<bool, Seq<char>>(f) && read_flag(b, i).end == i + 1 by {
        assert(b.subrange(i, i + 1)[0] == flag_bytes(f)[0]);
    }
    if let Ok(f) = read_flag(b, i).result {
        assert(b.subrange(i, i + 1) =~= flag_bytes(f));
    }
}

/// Each string of `list` is short enough for its length to be written.
pub open spec fn texts_fit(list: Seq<Seq<char>>) -> bool {
    forall|k: int|
        0 <= k < list.len() ==> vstd::utf8::encode_utf8(#[trigger] list[k]).len() <= u64::MAX
}

/// Strings that stand at `i` one after the other are read there.
pub proof fn lemma_read_texts_written(b: Seq<u8>, i: int, list: Seq<Seq<char>>)
    requires
        0 <= i <= b.len(),
        texts_fit(list),
        stands_at(b, i, texts_bytes(list)),
    ensures
        read_texts(b, i, list.len()).result == Ok::<Seq<Seq<char>>, Seq<char>>(list),
        read_texts(b, i, list.len()).end == i + texts_bytes(list).len(),
    decreases list.len(),
{
    if list.len() == 0 {
        assert(list =~= seq![]);
    } else {
        let front = list.drop_last();
        lemma_stands_concat(b, i, texts_bytes(front), text_bytes(list.last()));
        lemma_read_texts_written(b, i, front);
        lemma_read_text(b, i + texts_bytes(front).len());
        assert(front.push(list.last()) =~= list);
        assert(vstd::utf8::encode_utf8(list[list.len() - 1]).len() <= u64::MAX);
    }
}

/// What is read as a run of strings stands there.
pub proof fn lemma_read_texts_accepted(b: Seq<u8>, i: int, n: nat)
    requires
        0 <= i <= b.len(),
    ensures
        i <= read_texts(b, i, n).end <= b.len(),
        read_texts(b, i, n).result matches Ok(list) ==> list.len() == n && texts_fit(list)
            && read_texts(b, i, n).end == i + texts_bytes(list).len() && stands_at(
            b,
            i,
            texts_bytes(list),
        ),
    decreases n,
{
    if n == 0 {
        assert(b.subrange(i, i) =~= seq![]);
    } else {
        lemma_read_texts_accepted(b, i, (n - 1) as nat);
        let before = read_texts(b, i, (n - 1) as nat);
        lemma_read_text(b, before.end);
        if let Ok(front) = before.result {
            if let Ok(s) = read_text(b, before.end).result {
                let list = front.push(s);
                assert(list.drop_last() =~= front);
                lemma_stands_concat(b, i, texts_bytes(front), text_bytes(s));
            }
        }
    }
}

/// Once a run of strings cannot be read, no longer run from there can be read.
pub proof fn lemma_read_texts_stuck(b: Seq<u8>, i: int, n: nat, m: nat)
    requires
        n <= m,
        read_texts(b, i, n).result is Err,
    ensures
        read_texts(b, i, m) == read_texts(b, i, n),
    decreases m,
{
    if n < m {
        lemma_read_texts_stuck(b, i, n, (m - 1) as nat);
    }
}

/// A list of strings that stands at `i` is read there; what is read as one stands there.
pub proof fn lemma_read_text_list(b: Seq<u8>, i: int)
    requires
        0 <= i <= b.len(),
    ensures
        forall|list: Seq<Seq<char>>|
            list.len() <= u64::MAX && texts_fit(list) && #[trigger] stands_at(
                b,
                i,
                text_list_bytes(list),
            ) ==> read_text_list(b, i).result == Ok::<Seq<Seq<char>>, Seq<char>>(list)
                && read_text_list(b, i).end == i + text_list_bytes(list).len(),
        read_text_list(b, i).result matches Ok(list) ==> list.len() <= u64::MAX && texts_fit(list)
            && read_text_list(b, i).end == i + text_list_bytes(list).len() && stands_at(
            b,
            i,
            text_list_bytes(list),
        ),
        i <= read_text_list(b, i).end <= b.len(),
{
    lemma_read_count(b, i);
    assert forall|list: Seq<Seq<char>>|
        list.len() <= u64::MAX && texts_fit(list) && #[trigger] stands_at(
            b,
            i,
            text_list_bytes(list),
        ) implies read_text_list(b, i).result == Ok::<Seq<Seq<char>>, Seq<char>>(list)
        && read_text_list(b, i).end == i + text_list_bytes(list).len() by {
        lemma_big_endian(list.len(), 8);
        lemma_stands_concat(b, i, count_bytes(list.len()), texts_bytes(list));
        lemma_read_texts_written(b, i + 8, list);
    }
    if let Ok(n) = read_count(b, i).result {
        lemma_big_endian(n, 8);
        lemma_read_texts_accepted(b, i + 8, n);
        if let Ok(list) = read_texts(b, i + 8, n).result {
            lemma_stands_concat(b, i, count_bytes(n), texts_bytes(list));
        }
    }
}

// ---------------------------------------------------------------------------------------------
// Writing
// ---------------------------------------------------------------------------------------------

/// Appends the length or count `n`.
pub fn enc_count(b: &mut Vec<u8>, n: u64)
    ensures
        final(b)@ == old(b)@ + count_bytes(n as nat),
{
    let n1: u64 = n / 256;
    let n2: u64 = n1 / 256;
    let n3: u64 = n2 / 256;
    let n4: u64 = n3 / 256;
    let n5: u64 = n4 / 256;
    let n6: u64 = n5 / 256;
    let n7: u64 = n6 / 256;
    b.push((n7 % 256) as u8);
    b.push((n6 % 256) as u8);
    b.push((n5 % 256) as u8);
    b.push((n4 % 256) as u8);
    b.push((n3 % 256) as u8);
    b.push((n2 % 256) as u8);
    b.push((n1 % 256) as u8);
    b.push((n % 256) as u8);
    proof {
        let s0: Seq<u8> = seq![];
        assert(big_endian((n7 / 256) as nat, 0) == s0);
        let s1 = big_endian(n7 as nat, 1);
        assert(s1 == s0.push((n7 % 256) as u8));
        let s2 = big_endian(n6 as nat, 2);
        assert(s2 == s1.push((n6 % 256) as u8));
        let s3 = big_endian(n5 as nat, 3);
        assert(s3 == s2.push((n5 % 256) as u8));
        let s4 = big_endian(n4 as nat, 4);
        assert(s4 == s3.push((n4 % 256) as u8));
        let s5 = big_endian(n3 as nat, 5);
        assert(s5 == s4.push((n3 % 256) as u8));
        let s6 = big_endian(n2 as nat, 6);
        assert(s6 == s5.push((n2 % 256) as u8));
        let s7 = big_endian(n1 as nat, 7);
        assert(s7 == s6.push((n1 % 256) as u8));
        assert(count_bytes(n as nat) == s7.push((n % 256) as u8));
        assert(b@ =~= old(b)@ + count_bytes(n as nat));
    }
}

/// Appends bytes as they are.
pub fn enc_raw(b: &mut Vec<u8>, raw: &[u8])
    ensures
        final(b)@ == old(b)@ + raw@,
{
    b.extend_from_slice(raw);
    assert(b@ =~= old(b)@ + raw@);
}

/// Appends the string `s` behind the length of its UTF-8 encoding.
pub fn enc_str(b: &mut Vec<u8>, s: &str)
    ensures
        final(b)@ == old(b)@ + text_bytes(s@),
        vstd::utf8::encode_utf8(s@).len() <= u64::MAX,
{
    let raw = s.as_bytes();
    enc_count(b, raw.len() as u64);
    enc_raw(b, raw);
    assert(b@ =~= old(b)@ + text_bytes(s@));
}

/// Appends the labels of `list` behind their number.
pub fn enc_constraints(b: &mut Vec<u8>, list: &[Constraint])
    ensures
        final(b)@ == old(b)@ + text_list_bytes(crate::types::labels(list@)),
        list@.len() <= u64::MAX,
        texts_fit(crate::types::labels(list@)),
{
    let ghost texts = crate::types::labels(list@);
    enc_count(b, list.len() as u64);
    let ghost start = b@;
    let mut k: usize = 0;
    proof {
        assert(texts.take(0) =~= seq![]);
        assert(start + texts_bytes(texts.take(0)) =~= start);
    }
    while k < list.len()
        invariant
            k <= list@.len(),
            texts == crate::types::labels(list@),
            b@ == start + texts_bytes(texts.take(k as int)),
            forall|j: int|
                0 <= j < k ==> vstd::utf8::encode_utf8(#[trigger] texts[j]).len() <= u64::MAX,
        decreases list@.len() - k,
    {
        enc_str(b, list[k].0.as_str());
        proof {
            let next = texts.take(k + 1);
            assert(next.drop_last() =~= texts.take(k as int));
            assert(next.last() == texts[k as int]);
            assert(start + texts_bytes(texts.take(k as int)) + text_bytes(texts[k as int]) =~= start
                + texts_bytes(next));
        }
        k += 1;
    }
    proof {
        assert(texts.take(k as int) =~= texts);
        assert(b@ =~= old(b)@ + text_list_bytes(texts));
    }
}

/// Appends the boolean `f`.
pub fn enc_bool(b: &mut Vec<u8>, f: bool)
    ensures
        final(b)@ == old(b)@ + flag_bytes(f),
{
    b.push(if f { 1 } else { 0 });
    assert(b@ =~= old(b)@ + flag_bytes(f));
}

// ---------------------------------------------------------------------------------------------
// Reading
// ---------------------------------------------------------------------------------------------

/// The string whose UTF-8 encoding is `bytes`.
///
/// Calls `String::from_utf8`. Claimed of it: bytes that are valid UTF-8 come back as the string
/// that they encode, and all other bytes are refused.
#[verifier::external_body]
fn string_from_utf8(bytes: Vec<u8>) -> (r: Option<String>)
    ensures
        r is Some <==> vstd::utf8::valid_utf8(bytes@),
        r matches Some(s) ==> s@ == vstd::utf8::decode_utf8(bytes@),
{
    match String::from_utf8(bytes) {
        Ok(s) => Some(s),
        Err(_) => None,
    }
}

/// How a reading function of [`Cur`] answers: with the item that stands at the cursor, or with a
/// typed error that names what was being read and why it failed. Only the position moves.
pub open spec fn answers<T>(
    before: Cur,
    after: Cur,
    read: Read<T>,
    failure: Option<ErrorModel>,
) -> bool {
    &&& after.b == before.b
    &&& after.what == before.what
    &&& after.i == read.end
    &&& match read.result {
        Ok(_) => failure is None,
        Err(detail) => failure == Some(ErrorModel::Invalid { what: before.what@, detail }),
    }
}

/// The error of an answer, if it is one.
pub open spec fn failure<T>(r: Result<T, Error>) -> Option<ErrorModel> {
    match r {
        Ok(_) => None,
        Err(e) => Some(e@),
    }
}

/// A cursor over the bytes that are being decoded.
pub struct Cur<'a> {
    /// The bytes.
    pub b: &'a [u8],
    /// The position of the next byte that has not been read.
    pub i: usize,
    /// What is being decoded, for error messages.
    pub what: &'static str,
}

impl<'a> Cur<'a> {
    /// A cursor at the start of `b`.
    pub fn new(b: &'a [u8], what: &'static str) -> (c: Self)
        ensures
            c.b == b,
            c.i == 0,
            c.what == what,
    {
        Self { b, i: 0, what }
    }

    /// The error that says that what is being decoded is malformed.
    pub fn err(&self, detail: &str) -> (e: Error)
        ensures
            e@ == (ErrorModel::Invalid { what: self.what@, detail: detail@ }),
    {
        Error::invalid(self.what, detail)
    }

    /// Reads `n` bytes.
    pub fn take(&mut self, n: usize) -> (r: Result<&'a [u8], Error>)
        ensures
            answers(
                *old(self),
                *final(self),
                read_bytes(old(self).b@, old(self).i as int, n as int),
                failure(r),
            ),
            r matches Ok(s) ==> read_bytes(old(self).b@, old(self).i as int, n as int).result == Ok::<
                Seq<u8>,
                Seq<char>,
            >(s@),
    {
        if n <= self.b.len() && self.i <= self.b.len() - n {
            let end: usize = self.i + n;
            let s = vstd::slice::slice_subrange(self.b, self.i, end);
            self.i = end;
            Ok(s)
        } else {
            Err(self.err("truncated"))
        }
    }

    /// Reads a length or count.
    pub fn u64(&mut self) -> (r: Result<u64, Error>)
        ensures
            answers(
                *old(self),
                *final(self),
                read_count(old(self).b@, old(self).i as int),
                failure(r),
            ),
            r matches Ok(n) ==> read_count(old(self).b@, old(self).i as int).result == Ok::<
                nat,
                Seq<char>,
            >(n as nat),
    {
        let raw = match self.take(8) {
            Ok(raw) => raw,
            Err(e) => return Err(e),
        };
        let mut n: u64 = 0;
        let mut k: usize = 0;
        proof {
            reveal_with_fuel(radix_power, 9);
            assert(raw@.take(0) =~= seq![]);
        }
        while k < 8
            invariant
                k <= 8,
                raw@.len() == 8,
                n == big_endian_value(raw@.take(k as int)),
            decreases 8 - k,
        {
            proof {
                reveal_with_fuel(radix_power, 9);
                lemma_big_endian_value(raw@.take(k as int));
                lemma_big_endian_value(raw@.take(k + 1));
                assert(raw@.take(k + 1).drop_last() =~= raw@.take(k as int));
            }
            n = n * 256 + raw[k] as u64;
            k += 1;
        }
        assert(raw@.take(8) =~= raw@);
        Ok(n)
    }

    /// Reads a string.
    pub fn str(&mut self) -> (r: Result<String, Error>)
        ensures
            answers(
                *old(self),
                *final(self),
                read_text(old(self).b@, old(self).i as int),
                failure(r),
            ),
            r matches Ok(s) ==> read_text(old(self).b@, old(self).i as int).result == Ok::<
                Seq<char>,
                Seq<char>,
            >(s@),
    {
        let n = match self.u64() {
            Ok(n) => n,
            Err(e) => return Err(e),
        };
        if n > self.b.len() as u64 {
            return Err(self.err("truncated"));
        }
        let raw = match self.take(n as usize) {
            Ok(raw) => raw,
            Err(e) => return Err(e),
        };
        match string_from_utf8(vstd::slice::slice_to_vec(raw)) {
            Some(s) => Ok(s),
            None => Err(self.err("non-utf8")),
        }
    }

    /// Reads one byte.
    pub fn byte(&mut self) -> (r: Result<u8, Error>)
        ensures
            answers(
                *old(self),
                *final(self),
                read_byte(old(self).b@, old(self).i as int),
                failure(r),
            ),
            r matches Ok(t) ==> read_byte(old(self).b@, old(self).i as int).result == Ok::<
                u8,
                Seq<char>,
            >(t),
    {
        match self.take(1) {
            Ok(raw) => Ok(raw[0]),
            Err(e) => Err(e),
        }
    }

    /// Reads a boolean.
    pub fn bool(&mut self) -> (r: Result<bool, Error>)
        ensures
            answers(
                *old(self),
                *final(self),
                read_flag(old(self).b@, old(self).i as int),
                failure(r),
            ),
            r matches Ok(f) ==> read_flag(old(self).b@, old(self).i as int).result == Ok::<
                bool,
                Seq<char>,
            >(f),
    {
        match self.byte() {
            Ok(0) => Ok(false),
            Ok(1) => Ok(true),
            Ok(t) => {
                let detail = crate::text::with_number("bad bool tag ", t);
                Err(self.err(detail.as_str()))
            },
            Err(e) => Err(e),
        }
    }

    /// Reads a list of constraints.
    pub fn constraints(&mut self) -> (r: Result<Vec<Constraint>, Error>)
        ensures
            answers(
                *old(self),
                *final(self),
                read_text_list(old(self).b@, old(self).i as int),
                failure(r),
            ),
            r matches Ok(list) ==> read_text_list(old(self).b@, old(self).i as int).result == Ok::<
                Seq<Seq<char>>,
                Seq<char>,
            >(crate::types::labels(list@)),
    {
        let n = match self.u64() {
            Ok(n) => n,
            Err(e) => return Err(e),
        };
        let ghost start = self.i as int;
        let mut list: Vec<Constraint> = Vec::new();
        let mut k: u64 = 0;
        assert(crate::types::labels(list@) =~= seq![]);
        while k < n
            invariant
                k <= n,
                self.b == old(self).b,
                self.what == old(self).what,
                read_count(old(self).b@, old(self).i as int).result == Ok::<nat, Seq<char>>(n as nat),
                read_count(old(self).b@, old(self).i as int).end == start,
                read_texts(self.b@, start, k as nat).result == Ok::<Seq<Seq<char>>, Seq<char>>(
                    crate::types::labels(list@),
                ),
                read_texts(self.b@, start, k as nat).end == self.i,
            decreases n - k,
        {
            let ghost read = crate::types::labels(list@);
            match self.str() {
                Ok(s) => {
                    list.push(Constraint(s));
                    assert(crate::types::labels(list@) =~= read.push(s@));
                },
                Err(e) => {
                    proof {
                        lemma_read_texts_stuck(self.b@, start, (k + 1) as nat, n as nat);
                    }
                    return Err(e);
                },
            }
            k += 1;
        }
        Ok(list)
    }

    /// Checks that every byte has been read.
    pub fn done(&self) -> (r: Result<(), Error>)
        ensures
            match read_end(self.b@, self.i as int) {
                Ok(_) => r is Ok,
                Err(detail) => failure(r) == Some(
                    ErrorModel::Invalid { what: self.what@, detail },
                ),
            },
    {
        if self.i != self.b.len() {
            return Err(self.err("trailing bytes"));
        }
        Ok(())
    }
}

} // verus!
