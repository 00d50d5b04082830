//! What decoding answers: byte forms of keys give back the key, and each kind of damage has its
//! own error.

use crate::codec::Read;
use crate::error::Error;
use crate::keys::{
    decode_ctx_key, decode_registered_exec_platforms_key, decode_registered_toolchains_key,
    ContextKeyModel, RegisteredExecutionPlatformsKey, RegisteredToolchainsKey, ToolchainContextKey,
};
use crate::types::ReqModel;
use vstd::prelude::*;

verus! {

// ---------------------------------------------------------------------------------------------
// Byte forms that fit into memory
// ---------------------------------------------------------------------------------------------

/// Strings whose byte form fits have lengths that fit.
proof fn lemma_texts_fit(list: Seq<Seq<char>>)
    ensures
        list.len() <= crate::codec::texts_bytes(list).len(),
        crate::codec::texts_bytes(list).len() <= u64::MAX ==> crate::codec::texts_fit(list),
    decreases list.len(),
{
    if list.len() > 0 {
        let front = list.drop_last();
        lemma_texts_fit(front);
        let raw = vstd::utf8::encode_utf8(list.last());
        crate::codec::lemma_big_endian(raw.len(), 8);
        assert forall|i: int|
            0 <= i < list.len() && crate::codec::texts_bytes(list).len()
                <= u64::MAX implies vstd::utf8::encode_utf8(#[trigger] list[i]).len()
            <= u64::MAX by {
            if i < front.len() {
                assert(front[i] == list[i]);
            }
        }
    }
}

/// Requests whose byte form fits have lengths that fit.
proof fn lemma_reqs_fit(list: Seq<ReqModel>)
    ensures
        list.len() <= crate::keys::reqs_bytes(list).len(),
        crate::keys::reqs_bytes(list).len() <= u64::MAX ==> crate::codec::texts_fit(
            crate::keys::requested_types(list),
        ),
    decreases list.len(),
{
    let ids = crate::keys::requested_types(list);
    if list.len() > 0 {
        let front = list.drop_last();
        lemma_reqs_fit(front);
        let raw = vstd::utf8::encode_utf8(list.last().ty);
        crate::codec::lemma_big_endian(raw.len(), 8);
        assert forall|i: int|
            0 <= i < ids.len() && crate::keys::reqs_bytes(list).len()
                <= u64::MAX implies vstd::utf8::encode_utf8(#[trigger] ids[i]).len()
            <= u64::MAX by {
            if i < front.len() {
                assert(crate::keys::requested_types(front)[i] == ids[i]);
            }
        }
    }
}

/// A key whose byte form fits has lengths that fit.
pub proof fn lemma_key_fits(k: ContextKeyModel)
    requires
        crate::keys::context_key_bytes(k).len() <= u64::MAX,
    ensures
        crate::keys::key_fits(k),
{
    lemma_texts_fit(k.labels);
    lemma_reqs_fit(k.types);
    crate::codec::lemma_big_endian(vstd::utf8::encode_utf8(k.configuration).len(), 8);
    crate::codec::lemma_big_endian(k.types.len(), 8);
    crate::codec::lemma_big_endian(k.labels.len(), 8);
    if let Some(name) = k.forced {
        crate::codec::lemma_big_endian(vstd::utf8::encode_utf8(name).len(), 8);
    }
}

// ---------------------------------------------------------------------------------------------
// Context keys
// ---------------------------------------------------------------------------------------------

/// The byte form of a key, any key, is decoded as that key.
pub proof fn law_decode_accepts(
    bytes: &[u8],
    k: ContextKeyModel,
    r: Result<ToolchainContextKey, Error>,
)
    requires
        call_ensures(decode_ctx_key, (bytes,), r),
        bytes@ == crate::keys::context_key_bytes(k),
        bytes@.len() <= u64::MAX,
    ensures
        r matches Ok(d) && d@ == k,
{
    lemma_key_fits(k);
    crate::laws::law_context_key_round_trip(k);
}

/// What is decoded is the byte form of the key that comes out.
pub proof fn law_decode_accepts_nothing_else(
    bytes: &[u8],
    r: Result<ToolchainContextKey, Error>,
)
    requires
        call_ensures(decode_ctx_key, (bytes,), r),
    ensures
        r matches Ok(d) ==> bytes@ == crate::keys::context_key_bytes(d@),
{
}

/// What is refused is refused as a malformed context key, with the reason that reading gives.
pub proof fn law_decode_refuses(bytes: &[u8], r: Result<ToolchainContextKey, Error>)
    requires
        call_ensures(decode_ctx_key, (bytes,), r),
    ensures
        match crate::keys::read_context_key(bytes@) {
            Ok(k) => r matches Ok(d) && d@ == k,
            Err(reason) => r matches Err(Error::Invalid { what, detail }) && what@
                == "TOOLCHAIN_CONTEXT key"@ && detail@ == reason,
        },
{
}

/// Reading `x`, from fewer bytes, answers as reading `y` does, or finds the bytes cut off.
spec fn cut_or_same<T>(x: Read<T>, y: Read<T>) -> bool {
    x == y || x.result == Err::<T, Seq<char>>("truncated"@)
}

/// Reading fewer bytes: runs of bytes.
proof fn lemma_cut_bytes(c: Seq<u8>, n: int, i: int, m: int)
    requires
        0 <= i <= n <= c.len(),
        0 <= m,
    ensures
        cut_or_same(
            crate::codec::read_bytes(c.take(n), i, m),
            crate::codec::read_bytes(c, i, m),
        ),
{
    if i + m <= n {
        assert(c.take(n).subrange(i, i + m) =~= c.subrange(i, i + m));
    }
}

/// Reading fewer bytes: strings.
proof fn lemma_cut_text(c: Seq<u8>, n: int, i: int)
    requires
        0 <= i <= n <= c.len(),
    ensures
        cut_or_same(crate::codec::read_text(c.take(n), i), crate::codec::read_text(c, i)),
{
    lemma_cut_bytes(c, n, i, 8);
    let len = crate::codec::read_count(c.take(n), i);
    if let Ok(m) = len.result {
        lemma_cut_bytes(c, n, i + 8, m as int);
    }
}

/// Reading fewer bytes: booleans.
proof fn lemma_cut_flag(c: Seq<u8>, n: int, i: int)
    requires
        0 <= i <= n <= c.len(),
    ensures
        cut_or_same(crate::codec::read_flag(c.take(n), i), crate::codec::read_flag(c, i)),
{
    lemma_cut_bytes(c, n, i, 1);
}

/// Reading fewer bytes: strings in a row.
proof fn lemma_cut_texts(c: Seq<u8>, n: int, i: int, m: nat)
    requires
        0 <= i <= n <= c.len(),
    ensures
        cut_or_same(crate::codec::read_texts(c.take(n), i, m), crate::codec::read_texts(c, i, m)),
    decreases m,
{
    if m > 0 {
        lemma_cut_texts(c, n, i, (m - 1) as nat);
        crate::codec::lemma_read_texts_accepted(c.take(n), i, (m - 1) as nat);
        let before = crate::codec::read_texts(c.take(n), i, (m - 1) as nat);
        lemma_cut_text(c, n, before.end);
    }
}

/// Reading fewer bytes: lists of strings.
proof fn lemma_cut_text_list(c: Seq<u8>, n: int, i: int)
    requires
        0 <= i <= n <= c.len(),
    ensures
        cut_or_same(
            crate::codec::read_text_list(c.take(n), i),
            crate::codec::read_text_list(c, i),
        ),
{
    lemma_cut_bytes(c, n, i, 8);
    let len = crate::codec::read_count(c.take(n), i);
    if let Ok(m) = len.result {
        lemma_cut_texts(c, n, i + 8, m);
    }
}

/// Reading fewer bytes: requests.
proof fn lemma_cut_req(c: Seq<u8>, n: int, i: int)
    requires
        0 <= i <= n <= c.len(),
    ensures
        cut_or_same(crate::keys::read_req(c.take(n), i), crate::keys::read_req(c, i)),
{
    lemma_cut_text(c, n, i);
    crate::codec::lemma_read_text(c.take(n), i);
    lemma_cut_flag(c, n, crate::codec::read_text(c.take(n), i).end);
}

/// Reading fewer bytes: requests in a row.
proof fn lemma_cut_reqs(c: Seq<u8>, n: int, i: int, m: nat)
    requires
        0 <= i <= n <= c.len(),
    ensures
        cut_or_same(crate::keys::read_reqs(c.take(n), i, m), crate::keys::read_reqs(c, i, m)),
    decreases m,
{
    if m > 0 {
        lemma_cut_reqs(c, n, i, (m - 1) as nat);
        crate::keys::lemma_read_reqs_accepted(c.take(n), i, (m - 1) as nat);
        let before = crate::keys::read_reqs(c.take(n), i, (m - 1) as nat);
        lemma_cut_req(c, n, before.end);
    }
}

/// Reading fewer bytes: lists of requests.
proof fn lemma_cut_req_list(c: Seq<u8>, n: int, i: int)
    requires
        0 <= i <= n <= c.len(),
    ensures
        cut_or_same(crate::keys::read_req_list(c.take(n), i), crate::keys::read_req_list(c, i)),
{
    lemma_cut_bytes(c, n, i, 8);
    let len = crate::codec::read_count(c.take(n), i);
    if let Ok(m) = len.result {
        lemma_cut_reqs(c, n, i + 8, m);
    }
}

/// Reading fewer bytes: optional strings.
proof fn lemma_cut_option(c: Seq<u8>, n: int, i: int)
    requires
        0 <= i <= n <= c.len(),
    ensures
        cut_or_same(crate::keys::read_option(c.take(n), i), crate::keys::read_option(c, i)),
{
    lemma_cut_bytes(c, n, i, 1);
    if i + 1 <= n {
        lemma_cut_text(c, n, i + 1);
    }
}

/// The byte form of a key that is cut off, anywhere, is refused as truncated.
pub proof fn law_decode_cut(k: ContextKeyModel, n: int)
    requires
        crate::keys::context_key_bytes(k).len() <= u64::MAX,
        0 <= n < crate::keys::context_key_bytes(k).len(),
    ensures
        crate::keys::read_context_key(crate::keys::context_key_bytes(k).take(n)) == Err::<
            ContextKeyModel,
            Seq<char>,
        >("truncated"@),
{
    lemma_key_fits(k);
    lemma_decode_cut(crate::keys::context_key_bytes(k), k, n);
}

/// Reading stops within the bytes.
proof fn lemma_ends(b: Seq<u8>, i: int)
    requires
        0 <= i <= b.len(),
    ensures
        i <= crate::codec::read_text(b, i).end <= b.len(),
        i <= crate::keys::read_req_list(b, i).end <= b.len(),
        i <= crate::codec::read_text_list(b, i).end <= b.len(),
        i <= crate::keys::read_option(b, i).end <= b.len(),
        i <= crate::codec::read_flag(b, i).end <= b.len(),
{
    crate::codec::lemma_read_text(b, i);
    crate::keys::lemma_read_req_list(b, i);
    crate::codec::lemma_read_text_list(b, i);
    crate::keys::lemma_read_option(b, i);
    crate::codec::lemma_read_flag(b, i);
}

/// What is cut off from bytes that are read up to their end is refused as truncated.
proof fn lemma_decode_cut(c: Seq<u8>, k: ContextKeyModel, n: int)
    requires
        crate::keys::key_fits(k),
        c == crate::keys::context_key_bytes(k),
        0 <= n < c.len(),
    ensures
        crate::keys::read_context_key(c.take(n)) == Err::<ContextKeyModel, Seq<char>>(
            "truncated"@,
        ),
{
    crate::codec::lemma_stands_whole(c, c);
    crate::keys::lemma_context_key_reads(c, k);
    let configuration = crate::codec::read_text(c, 0);
    let types = crate::keys::read_req_list(c, configuration.end);
    let labels = crate::codec::read_text_list(c, types.end);
    let forced = crate::keys::read_option(c, labels.end);
    let debug = crate::codec::read_flag(c, forced.end);
    lemma_cut_somewhere(c, n, configuration, types, labels, forced, debug);
}

/// Where five dimensions are read one after the other up to the end, reading fewer bytes finds
/// them cut off.
#[verifier::rlimit(40)]
proof fn lemma_cut_somewhere(
    c: Seq<u8>,
    n: int,
    configuration: Read<Seq<char>>,
    types: Read<Seq<ReqModel>>,
    labels: Read<Seq<Seq<char>>>,
    forced: Read<Option<Seq<char>>>,
    debug: Read<bool>,
)
    requires
        0 <= n < c.len(),
        configuration == crate::codec::read_text(c, 0),
        types == crate::keys::read_req_list(c, configuration.end),
        labels == crate::codec::read_text_list(c, types.end),
        forced == crate::keys::read_option(c, labels.end),
        debug == crate::codec::read_flag(c, forced.end),
        configuration.result is Ok,
        types.result is Ok,
        labels.result is Ok,
        forced.result is Ok,
        debug.result is Ok,
        debug.end == c.len(),
    ensures
        crate::keys::read_context_key(c.take(n)) == Err::<ContextKeyModel, Seq<char>>(
            "truncated"@,
        ),
{
    let b = c.take(n);
    lemma_ends(b, 0);
    lemma_cut_text(c, n, 0);
    if crate::codec::read_text(b, 0) == configuration {
        lemma_ends(b, configuration.end);
        lemma_cut_req_list(c, n, configuration.end);
        if crate::keys::read_req_list(b, configuration.end) == types {
            lemma_ends(b, types.end);
            lemma_cut_text_list(c, n, types.end);
            if crate::codec::read_text_list(b, types.end) == labels {
                lemma_ends(b, labels.end);
                lemma_cut_option(c, n, labels.end);
                if crate::keys::read_option(b, labels.end) == forced {
                    lemma_ends(b, forced.end);
                    lemma_cut_flag(c, n, forced.end);
                }
            }
        }
    }
}

/// The byte form of a key with more bytes behind it is refused for what is left.
pub proof fn law_decode_goes_on(k: ContextKeyModel, more: Seq<u8>)
    requires
        crate::keys::context_key_bytes(k).len() <= u64::MAX,
        more.len() > 0,
    ensures
        crate::keys::read_context_key(crate::keys::context_key_bytes(k) + more) == Err::<
            ContextKeyModel,
            Seq<char>,
        >("trailing bytes"@),
{
    lemma_key_fits(k);
    lemma_decode_goes_on(crate::keys::context_key_bytes(k), k, more);
}

/// What goes on behind bytes that are read up to their end is refused for what is left.
proof fn lemma_decode_goes_on(b: Seq<u8>, k: ContextKeyModel, more: Seq<u8>)
    requires
        crate::keys::key_fits(k),
        b == crate::keys::context_key_bytes(k),
        more.len() > 0,
    ensures
        crate::keys::read_context_key(b + more) == Err::<ContextKeyModel, Seq<char>>(
            "trailing bytes"@,
        ),
{
    let c = b + more;
    assert(c.subrange(0, b.len() as int) =~= b);
    crate::keys::lemma_context_key_reads(c, k);
}

// ---------------------------------------------------------------------------------------------
// Damaged context keys
// ---------------------------------------------------------------------------------------------

/// Bytes that are no UTF-8, behind their length, are refused as such.
proof fn lemma_read_no_text(b: Seq<u8>, i: int, raw: Seq<u8>)
    requires
        raw.len() <= u64::MAX,
        !vstd::utf8::valid_utf8(raw),
        crate::codec::stands_at(b, i, crate::codec::count_bytes(raw.len()) + raw),
    ensures
        crate::codec::read_text(b, i).result == Err::<Seq<char>, Seq<char>>("non-utf8"@),
{
    crate::codec::lemma_big_endian(raw.len(), 8);
    crate::codec::lemma_stands_concat(b, i, crate::codec::count_bytes(raw.len()), raw);
    crate::codec::lemma_read_count(b, i);
}

/// A byte above 1 is refused as a flag, and named.
proof fn lemma_read_no_flag(b: Seq<u8>, i: int, t: u8)
    requires
        t >= 2,
        crate::codec::stands_at(b, i, seq![t]),
    ensures
        crate::codec::read_flag(b, i).result == Err::<bool, Seq<char>>(
            "bad bool tag "@ + crate::text::decimal(t as nat),
        ),
{
    assert(b.subrange(i, i + 1)[0] == t);
}

/// Of two parts in a row the first stands at the start, the second behind it.
proof fn lemma_two_parts(p: Seq<u8>, q: Seq<u8>, rest: Seq<u8>)
    ensures
        crate::codec::stands_at(p + q + rest, 0, p),
        crate::codec::stands_at(p + q + rest, p.len() as int, q),
{
    let b = p + q + rest;
    assert(b.subrange(0, p.len() as int) =~= p);
    assert(b.subrange(p.len() as int, (p.len() + q.len()) as int) =~= q);
}

/// A configuration that is no UTF-8 is refused.
pub proof fn law_decode_configuration_no_text(raw: Seq<u8>, rest: Seq<u8>)
    requires
        raw.len() <= u64::MAX,
        !vstd::utf8::valid_utf8(raw),
    ensures
        crate::keys::read_context_key(
            crate::codec::count_bytes(raw.len()) + raw + rest,
        ) == Err::<ContextKeyModel, Seq<char>>("non-utf8"@),
        crate::keys::read_configuration_key(
            crate::codec::count_bytes(raw.len()) + raw + rest,
        ) == Err::<Seq<char>, Seq<char>>("non-utf8"@),
{
    let b = crate::codec::count_bytes(raw.len()) + raw + rest;
    let none: Seq<u8> = seq![];
    lemma_two_parts(none, crate::codec::count_bytes(raw.len()) + raw, rest);
    assert(none + (crate::codec::count_bytes(raw.len()) + raw) + rest =~= b);
    lemma_read_no_text(b, 0, raw);
}

/// A request that cannot be read, behind a configuration, a count and some that can, is the reason
/// why the key is refused.
proof fn lemma_request_refused(
    b: Seq<u8>,
    configuration: Seq<char>,
    n: nat,
    front: Seq<ReqModel>,
    reason: Seq<char>,
)
    requires
        front.len() < n <= u64::MAX,
        vstd::utf8::encode_utf8(configuration).len() <= u64::MAX,
        crate::codec::texts_fit(crate::keys::requested_types(front)),
        ({
            let head = crate::codec::text_bytes(configuration) + (crate::codec::count_bytes(n)
                + crate::keys::reqs_bytes(front));
            &&& crate::codec::stands_at(b, 0, head)
            &&& crate::keys::read_req(b, head.len() as int).result == Err::<ReqModel, Seq<char>>(
                reason,
            )
        }),
    ensures
        crate::keys::read_context_key(b) == Err::<ContextKeyModel, Seq<char>>(reason),
{
    let p1 = crate::codec::text_bytes(configuration);
    let p2 = crate::codec::count_bytes(n);
    let p3 = crate::keys::reqs_bytes(front);
    crate::codec::lemma_stands_concat(b, 0, p1, p2 + p3);
    crate::codec::lemma_stands_concat(b, p1.len() as int, p2, p3);
    crate::codec::lemma_read_text(b, 0);
    crate::codec::lemma_big_endian(n, 8);
    crate::codec::lemma_read_count(b, p1.len() as int);
    let start = (p1.len() + 8) as int;
    crate::keys::lemma_read_reqs_written(b, start, front);
    let m = (front.len() + 1) as nat;
    assert(crate::keys::read_reqs(b, start, m).result == Err::<Seq<ReqModel>, Seq<char>>(reason));
    crate::keys::lemma_read_reqs_stuck(b, start, m, n);
}

/// A requested type that is no UTF-8 is refused, in whatever place it stands.
pub proof fn law_decode_type_no_text(
    configuration: Seq<char>,
    n: nat,
    front: Seq<ReqModel>,
    raw: Seq<u8>,
    rest: Seq<u8>,
    b: Seq<u8>,
)
    requires
        b == crate::codec::text_bytes(configuration) + (crate::codec::count_bytes(n)
            + crate::keys::reqs_bytes(front)) + (crate::codec::count_bytes(raw.len()) + raw) + rest,
        b.len() <= u64::MAX,
        front.len() < n <= u64::MAX,
        !vstd::utf8::valid_utf8(raw),
    ensures
        crate::keys::read_context_key(b) == Err::<ContextKeyModel, Seq<char>>("non-utf8"@),
{
    let head = crate::codec::text_bytes(configuration) + (crate::codec::count_bytes(n)
        + crate::keys::reqs_bytes(front));
    lemma_reqs_fit(front);
    lemma_two_parts(head, crate::codec::count_bytes(raw.len()) + raw, rest);
    lemma_read_no_text(b, head.len() as int, raw);
    lemma_request_refused(b, configuration, n, front, "non-utf8"@);
}

/// A mandatory flag above 1 is refused and named, in whatever place it stands.
pub proof fn law_decode_bad_mandatory_flag(
    configuration: Seq<char>,
    n: nat,
    front: Seq<ReqModel>,
    ty: Seq<char>,
    t: u8,
    rest: Seq<u8>,
    b: Seq<u8>,
)
    requires
        b == crate::codec::text_bytes(configuration) + (crate::codec::count_bytes(n)
            + crate::keys::reqs_bytes(front)) + (crate::codec::text_bytes(ty) + seq![t]) + rest,
        b.len() <= u64::MAX,
        front.len() < n <= u64::MAX,
        t >= 2,
    ensures
        crate::keys::read_context_key(b) == Err::<ContextKeyModel, Seq<char>>(
            "bad bool tag "@ + crate::text::decimal(t as nat),
        ),
{
    let head = crate::codec::text_bytes(configuration) + (crate::codec::count_bytes(n)
        + crate::keys::reqs_bytes(front));
    lemma_reqs_fit(front);
    lemma_two_parts(head, crate::codec::text_bytes(ty) + seq![t], rest);
    let i = head.len() as int;
    crate::codec::lemma_stands_concat(b, i, crate::codec::text_bytes(ty), seq![t]);
    crate::codec::lemma_read_text(b, i);
    lemma_read_no_flag(b, i + crate::codec::text_bytes(ty).len(), t);
    lemma_request_refused(
        b,
        configuration,
        n,
        front,
        "bad bool tag "@ + crate::text::decimal(t as nat),
    );
}

/// A label that is no UTF-8 is refused, in whatever place it stands.
pub proof fn law_decode_label_no_text(
    configuration: Seq<char>,
    types: Seq<ReqModel>,
    n: nat,
    front: Seq<Seq<char>>,
    raw: Seq<u8>,
    rest: Seq<u8>,
    b: Seq<u8>,
)
    requires
        b == crate::codec::text_bytes(configuration) + (crate::keys::req_list_bytes(types) + (
        crate::codec::count_bytes(n) + crate::codec::texts_bytes(front))) + (
        crate::codec::count_bytes(raw.len()) + raw) + rest,
        b.len() <= u64::MAX,
        front.len() < n <= u64::MAX,
        !vstd::utf8::valid_utf8(raw),
    ensures
        crate::keys::read_context_key(b) == Err::<ContextKeyModel, Seq<char>>("non-utf8"@),
{
    let p1 = crate::codec::text_bytes(configuration);
    let p2 = crate::keys::req_list_bytes(types);
    let p3 = crate::codec::count_bytes(n);
    let p4 = crate::codec::texts_bytes(front);
    let head = p1 + (p2 + (p3 + p4));
    lemma_reqs_fit(types);
    lemma_texts_fit(front);
    lemma_two_parts(head, crate::codec::count_bytes(raw.len()) + raw, rest);
    crate::codec::lemma_stands_concat(b, 0, p1, p2 + (p3 + p4));
    crate::codec::lemma_stands_concat(b, p1.len() as int, p2, p3 + p4);
    crate::codec::lemma_stands_concat(b, (p1.len() + p2.len()) as int, p3, p4);
    crate::codec::lemma_read_text(b, 0);
    crate::keys::lemma_read_req_list(b, p1.len() as int);
    crate::codec::lemma_big_endian(n, 8);
    crate::codec::lemma_read_count(b, (p1.len() + p2.len()) as int);
    let start = (p1.len() + p2.len() + 8) as int;
    crate::codec::lemma_read_texts_written(b, start, front);
    lemma_read_no_text(b, head.len() as int, raw);
    let m = (front.len() + 1) as nat;
    assert(crate::codec::read_texts(b, start, m).result == Err::<Seq<Seq<char>>, Seq<char>>(
        "non-utf8"@,
    ));
    crate::codec::lemma_read_texts_stuck(b, start, m, n);
}

/// The configuration, the requests and the labels, where they stand one after the other, are read.
proof fn lemma_head_reads(
    b: Seq<u8>,
    configuration: Seq<char>,
    types: Seq<ReqModel>,
    labels: Seq<Seq<char>>,
)
    requires
        b.len() <= u64::MAX,
        crate::codec::stands_at(
            b,
            0,
            crate::codec::text_bytes(configuration) + (crate::keys::req_list_bytes(types)
                + crate::codec::text_list_bytes(labels)),
        ),
    ensures
        ({
            let c = crate::codec::read_text(b, 0);
            let r = crate::keys::read_req_list(b, c.end);
            let l = crate::codec::read_text_list(b, r.end);
            &&& c.result is Ok
            &&& r.result is Ok
            &&& l.result is Ok
            &&& l.end == (crate::codec::text_bytes(configuration) + (crate::keys::req_list_bytes(
                types,
            ) + crate::codec::text_list_bytes(labels))).len()
        }),
{
    let p1 = crate::codec::text_bytes(configuration);
    let p2 = crate::keys::req_list_bytes(types);
    let p3 = crate::codec::text_list_bytes(labels);
    lemma_reqs_fit(types);
    lemma_texts_fit(labels);
    crate::codec::lemma_stands_concat(b, 0, p1, p2 + p3);
    crate::codec::lemma_stands_concat(b, p1.len() as int, p2, p3);
    crate::codec::lemma_read_text(b, 0);
    crate::keys::lemma_read_req_list(b, p1.len() as int);
    crate::codec::lemma_read_text_list(b, (p1.len() + p2.len()) as int);
}

/// An option tag above 1 is refused and named.
pub proof fn law_decode_bad_option_tag(
    configuration: Seq<char>,
    types: Seq<ReqModel>,
    labels: Seq<Seq<char>>,
    t: u8,
    rest: Seq<u8>,
    b: Seq<u8>,
)
    requires
        b == crate::codec::text_bytes(configuration) + (crate::keys::req_list_bytes(types)
            + crate::codec::text_list_bytes(labels)) + seq![t] + rest,
        b.len() <= u64::MAX,
        t >= 2,
    ensures
        crate::keys::read_context_key(b) == Err::<ContextKeyModel, Seq<char>>(
            "bad option tag "@ + crate::text::decimal(t as nat),
        ),
{
    let head = crate::codec::text_bytes(configuration) + (crate::keys::req_list_bytes(types)
        + crate::codec::text_list_bytes(labels));
    lemma_two_parts(head, seq![t], rest);
    lemma_head_reads(b, configuration, types, labels);
    let i = head.len() as int;
    assert(b.subrange(i, i + 1)[0] == t);
}

/// A forced platform that is no UTF-8 is refused.
pub proof fn law_decode_forced_no_text(
    configuration: Seq<char>,
    types: Seq<ReqModel>,
    labels: Seq<Seq<char>>,
    raw: Seq<u8>,
    rest: Seq<u8>,
    b: Seq<u8>,
)
    requires
        b == crate::codec::text_bytes(configuration) + (crate::keys::req_list_bytes(types)
            + crate::codec::text_list_bytes(labels)) + (seq![1u8] + (crate::codec::count_bytes(
            raw.len(),
        ) + raw)) + rest,
        b.len() <= u64::MAX,
        !vstd::utf8::valid_utf8(raw),
    ensures
        crate::keys::read_context_key(b) == Err::<ContextKeyModel, Seq<char>>("non-utf8"@),
{
    let head = crate::codec::text_bytes(configuration) + (crate::keys::req_list_bytes(types)
        + crate::codec::text_list_bytes(labels));
    let bad = crate::codec::count_bytes(raw.len()) + raw;
    lemma_two_parts(head, seq![1u8] + bad, rest);
    lemma_head_reads(b, configuration, types, labels);
    let i = head.len() as int;
    crate::codec::lemma_stands_concat(b, i, seq![1u8], bad);
    assert(b.subrange(i, i + 1)[0] == 1u8);
    lemma_read_no_text(b, i + 1, raw);
}

/// A debug flag above 1 is refused and named: the byte form of a key with another last byte.
pub proof fn law_decode_bad_debug_flag(k: ContextKeyModel, t: u8, rest: Seq<u8>, b: Seq<u8>)
    requires
        b == crate::keys::context_key_bytes(k).drop_last() + seq![t] + rest,
        b.len() <= u64::MAX,
        t >= 2,
    ensures
        crate::keys::read_context_key(b) == Err::<ContextKeyModel, Seq<char>>(
            "bad bool tag "@ + crate::text::decimal(t as nat),
        ),
{
    let head = crate::codec::text_bytes(k.configuration) + (crate::keys::req_list_bytes(k.types)
        + crate::codec::text_list_bytes(k.labels));
    let tag = crate::keys::option_bytes(k.forced);
    assert(crate::keys::context_key_bytes(k).drop_last() =~= head + tag);
    lemma_debug_flag_refused(k, head, tag, t, rest, b);
}

/// A flag above 1 behind the first four dimensions of a key is refused.
proof fn lemma_debug_flag_refused(
    k: ContextKeyModel,
    head: Seq<u8>,
    tag: Seq<u8>,
    t: u8,
    rest: Seq<u8>,
    b: Seq<u8>,
)
    requires
        head == crate::codec::text_bytes(k.configuration) + (crate::keys::req_list_bytes(k.types)
            + crate::codec::text_list_bytes(k.labels)),
        tag == crate::keys::option_bytes(k.forced),
        b == head + tag + seq![t] + rest,
        b.len() <= u64::MAX,
        t >= 2,
    ensures
        crate::keys::read_context_key(b) == Err::<ContextKeyModel, Seq<char>>(
            "bad bool tag "@ + crate::text::decimal(t as nat),
        ),
{
    lemma_two_parts(head + tag, seq![t], rest);
    crate::codec::lemma_stands_concat(b, 0, head, tag);
    lemma_head_reads(b, k.configuration, k.types, k.labels);
    let i = head.len() as int;
    crate::keys::lemma_read_option(b, i);
    lemma_read_no_flag(b, i + tag.len(), t);
}

// ---------------------------------------------------------------------------------------------
// Keys of registered sets
// ---------------------------------------------------------------------------------------------

/// The byte form of a configuration is decoded as the key of that configuration, for both kinds of
/// sets, and nothing else is decoded. What is refused is refused under the name of the kind.
pub proof fn law_decode_registered(
    bytes: &[u8],
    configuration: Seq<char>,
    r: Result<RegisteredToolchainsKey, Error>,
    s: Result<RegisteredExecutionPlatformsKey, Error>,
)
    requires
        call_ensures(decode_registered_toolchains_key, (bytes,), r),
        call_ensures(decode_registered_exec_platforms_key, (bytes,), s),
        bytes@.len() <= u64::MAX,
    ensures
        bytes@ == crate::codec::text_bytes(configuration) <==> (r matches Ok(k)
            && k.configuration.0@ == configuration),
        bytes@ == crate::codec::text_bytes(configuration) <==> (s matches Ok(k)
            && k.configuration.0@ == configuration),
        r matches Err(e) ==> (e matches Error::Invalid { what, detail } && what@
            == "REGISTERED_TOOLCHAINS key"@ && crate::keys::read_configuration_key(bytes@) == Err::<
            Seq<char>,
            Seq<char>,
        >(detail@)),
        s matches Err(e) ==> (e matches Error::Invalid { what, detail } && what@
            == "REGISTERED_EXECUTION_PLATFORMS key"@ && crate::keys::read_configuration_key(bytes@)
            == Err::<Seq<char>, Seq<char>>(detail@)),
{
    crate::keys::lemma_configuration_key_bytes(bytes@, configuration);
    crate::codec::lemma_big_endian(vstd::utf8::encode_utf8(configuration).len(), 8);
}

/// The byte form of a configuration that is cut off is refused as truncated; with more bytes
/// behind it, for what is left.
pub proof fn law_decode_registered_damaged(configuration: Seq<char>, n: int, more: Seq<u8>)
    requires
        crate::codec::text_bytes(configuration).len() <= u64::MAX,
    ensures
        0 <= n < crate::codec::text_bytes(configuration).len()
            ==> crate::keys::read_configuration_key(
            crate::codec::text_bytes(configuration).take(n),
        ) == Err::<Seq<char>, Seq<char>>("truncated"@),
        more.len() > 0 ==> crate::keys::read_configuration_key(
            crate::codec::text_bytes(configuration) + more,
        ) == Err::<Seq<char>, Seq<char>>("trailing bytes"@),
{
    let b = crate::codec::text_bytes(configuration);
    crate::codec::lemma_big_endian(vstd::utf8::encode_utf8(configuration).len(), 8);
    crate::codec::lemma_stands_whole(b, b);
    crate::codec::lemma_read_text(b, 0);
    if 0 <= n < b.len() {
        lemma_cut_text(b, n, 0);
        lemma_ends(b.take(n), 0);
    }
    if more.len() > 0 {
        let c = b + more;
        assert(c.subrange(0, b.len() as int) =~= b);
        crate::codec::lemma_read_text(c, 0);
        assert(crate::codec::stands_at(c, 0, crate::codec::text_bytes(configuration)));
    }
}

/// The decimal digits of a byte.
pub proof fn law_decimal(t: u8)
    ensures
        crate::text::decimal(t as nat) == if t < 10 {
            seq![(48 + t) as char]
        } else if t < 100 {
            seq![(48 + t / 10) as char, (48 + t % 10) as char]
        } else {
            seq![(48 + t / 100) as char, (48 + t / 10 % 10) as char, (48 + t % 10) as char]
        },
{
    reveal_with_fuel(crate::text::decimal, 4);
    let d = crate::text::decimal(t as nat);
    if t < 10 {
    } else if t < 100 {
        assert(d =~= seq![(48 + t / 10) as char, (48 + t % 10) as char]);
    } else {
        assert(d =~= seq![
            (48 + t / 100) as char,
            (48 + t / 10 % 10) as char,
            (48 + t % 10) as char,
        ]);
    }
}

} // verus!
