//! What calls that change something leave behind, and what later calls find there.

use crate::codec::{enc_bool, enc_constraints, enc_count, enc_raw, enc_str, Cur};
use crate::context::{PlatformDefinitions, ToolchainContextFn};
use crate::error::Error;
use crate::nodes::{encode_registered_toolchain, ToolchainRegistry};
use crate::text::with_number;
use crate::typemap::TypeMap;
use crate::types::{
    ConfigId, Constraint, Platform, RegisteredExecPlatform, RegisteredToolchain, ToolchainType,
};
use vstd::prelude::*;

verus! {

// ---------------------------------------------------------------------------------------------
// The store
// ---------------------------------------------------------------------------------------------

/// Toolchains that are registered for a configuration are read back for it: as many, in order,
/// each with its type, its constraints and a clone of its provider.
pub proof fn law_toolchains_read_back<I: Clone>(
    store: &mut ToolchainRegistry<I>,
    configuration: &ConfigId,
    list: Vec<RegisteredToolchain<I>>,
    same: &ConfigId,
    r: Vec<RegisteredToolchain<I>>,
)
    requires
        call_ensures(ToolchainRegistry::<I>::set_toolchains, (store, configuration, list), ()),
        call_ensures(ToolchainRegistry::<I>::toolchains_for, (&*final(store), same), r),
        same.0@ == configuration.0@,
    ensures
        r@.len() == list@.len(),
        forall|i: int|
            0 <= i < list@.len() ==> (#[trigger] r@[i])@.ty == list@[i]@.ty && r@[i]@.target
                == list@[i]@.target && r@[i]@.runs_on == list@[i]@.runs_on && cloned(
                list@[i].info,
                r@[i].info,
            ),
{
    let a = crate::types::toolchains(list@);
    let b = crate::types::toolchains(r@);
    assert(a.len() == list@.len() && b.len() == r@.len());
    assert(forall|i: int| 0 <= i < r@.len() ==> (#[trigger] r@[i])@ == b[i]);
    assert(forall|i: int| 0 <= i < list@.len() ==> (#[trigger] list@[i])@ == a[i]);
}

/// Registering toolchains for a configuration changes nothing for another one, and no execution
/// platform.
pub proof fn law_toolchains_leave_the_rest<I: Clone>(
    store: &mut ToolchainRegistry<I>,
    configuration: &ConfigId,
    list: Vec<RegisteredToolchain<I>>,
    other: &ConfigId,
    any: &ConfigId,
    r: Vec<RegisteredToolchain<I>>,
    s: Vec<RegisteredToolchain<I>>,
    p: Vec<RegisteredExecPlatform>,
    q: Vec<RegisteredExecPlatform>,
)
    requires
        call_ensures(ToolchainRegistry::<I>::set_toolchains, (store, configuration, list), ()),
        other.0@ != configuration.0@,
        call_ensures(ToolchainRegistry::<I>::toolchains_for, (&*old(store), other), r),
        call_ensures(ToolchainRegistry::<I>::toolchains_for, (&*final(store), other), s),
        call_ensures(ToolchainRegistry::<I>::exec_platforms_for, (&*old(store), any), p),
        call_ensures(ToolchainRegistry::<I>::exec_platforms_for, (&*final(store), any), q),
    ensures
        r@.len() == s@.len(),
        forall|i: int|
            0 <= i < r@.len() ==> (#[trigger] r@[i])@.ty == s@[i]@.ty && r@[i]@.target
                == s@[i]@.target && r@[i]@.runs_on == s@[i]@.runs_on,
        crate::types::exec_platforms(p@) == crate::types::exec_platforms(q@),
{
    let a = crate::types::toolchains(r@);
    let b = crate::types::toolchains(s@);
    assert(a.len() == r@.len() && b.len() == s@.len());
    assert(forall|i: int| 0 <= i < r@.len() ==> (#[trigger] r@[i])@ == a[i]);
    assert(forall|i: int| 0 <= i < s@.len() ==> (#[trigger] s@[i])@ == b[i]);
    assert forall|i: int| 0 <= i < r@.len() implies (#[trigger] r@[i])@.ty == s@[i]@.ty
        && r@[i]@.target == s@[i]@.target && r@[i]@.runs_on == s@[i]@.runs_on by {
        assert(r@[i]@ == a[i] && s@[i]@ == b[i]);
    }
}

/// Execution platforms that are registered for a configuration are read back for it, all of them,
/// in order.
pub proof fn law_platforms_read_back<I>(
    store: &mut ToolchainRegistry<I>,
    configuration: &ConfigId,
    list: Vec<RegisteredExecPlatform>,
    same: &ConfigId,
    r: Vec<RegisteredExecPlatform>,
)
    requires
        call_ensures(ToolchainRegistry::<I>::set_exec_platforms, (store, configuration, list), ()),
        call_ensures(ToolchainRegistry::<I>::exec_platforms_for, (&*final(store), same), r),
        same.0@ == configuration.0@,
    ensures
        r@.len() == list@.len(),
        forall|i: int|
            0 <= i < list@.len() ==> (#[trigger] r@[i])@.name == list@[i]@.name
                && r@[i]@.constraints == list@[i]@.constraints,
{
    let a = crate::types::exec_platforms(list@);
    let b = crate::types::exec_platforms(r@);
    assert(a.len() == list@.len() && b.len() == r@.len());
    assert(forall|i: int| 0 <= i < r@.len() ==> (#[trigger] r@[i])@ == b[i]);
    assert(forall|i: int| 0 <= i < list@.len() ==> (#[trigger] list@[i])@ == a[i]);
}

/// Registering execution platforms for a configuration changes nothing for another one, and no
/// toolchain.
pub proof fn law_platforms_leave_the_rest<I: Clone>(
    store: &mut ToolchainRegistry<I>,
    configuration: &ConfigId,
    list: Vec<RegisteredExecPlatform>,
    other: &ConfigId,
    any: &ConfigId,
    p: Vec<RegisteredExecPlatform>,
    q: Vec<RegisteredExecPlatform>,
    r: Vec<RegisteredToolchain<I>>,
    s: Vec<RegisteredToolchain<I>>,
)
    requires
        call_ensures(ToolchainRegistry::<I>::set_exec_platforms, (store, configuration, list), ()),
        other.0@ != configuration.0@,
        call_ensures(ToolchainRegistry::<I>::exec_platforms_for, (&*old(store), other), p),
        call_ensures(ToolchainRegistry::<I>::exec_platforms_for, (&*final(store), other), q),
        call_ensures(ToolchainRegistry::<I>::toolchains_for, (&*old(store), any), r),
        call_ensures(ToolchainRegistry::<I>::toolchains_for, (&*final(store), any), s),
    ensures
        crate::types::exec_platforms(p@) == crate::types::exec_platforms(q@),
        r@.len() == s@.len(),
        forall|i: int|
            0 <= i < r@.len() ==> (#[trigger] r@[i])@.ty == s@[i]@.ty && r@[i]@.target
                == s@[i]@.target && r@[i]@.runs_on == s@[i]@.runs_on,
{
    let a = crate::types::toolchains(r@);
    let b = crate::types::toolchains(s@);
    assert(a.len() == r@.len() && b.len() == s@.len());
    assert forall|i: int| 0 <= i < r@.len() implies (#[trigger] r@[i])@.ty == s@[i]@.ty
        && r@[i]@.target == s@[i]@.target && r@[i]@.runs_on == s@[i]@.runs_on by {
        assert(r@[i]@ == a[i] && s@[i]@ == b[i]);
    }
}

/// A new store holds nothing, for no configuration.
pub proof fn law_new_store_is_empty<I: Clone>(
    store: ToolchainRegistry<I>,
    configuration: &ConfigId,
    r: Vec<RegisteredToolchain<I>>,
    p: Vec<RegisteredExecPlatform>,
)
    requires
        call_ensures(ToolchainRegistry::<I>::new, (), store),
        call_ensures(ToolchainRegistry::<I>::toolchains_for, (&store, configuration), r),
        call_ensures(ToolchainRegistry::<I>::exec_platforms_for, (&store, configuration), p),
    ensures
        r@.len() == 0,
        p@.len() == 0,
{
    assert(crate::types::toolchains(r@).len() == r@.len());
    assert(crate::types::exec_platforms(p@).len() == p@.len());
}

// ---------------------------------------------------------------------------------------------
// Platform definitions and maps of types
// ---------------------------------------------------------------------------------------------

/// A platform that is defined is found under its name, with all its constraints; what is found
/// under another name stays the same. Nothing is found where nothing was defined.
pub proof fn law_definitions(
    d: &mut PlatformDefinitions,
    name: String,
    platform: Platform,
    key: &str,
    before: Option<&Platform>,
    after: Option<&Platform>,
    empty: PlatformDefinitions,
    none: Option<&Platform>,
)
    requires
        call_ensures(PlatformDefinitions::insert, (d, name, platform), ()),
        call_ensures(PlatformDefinitions::get, (&*old(d), key), before),
        call_ensures(PlatformDefinitions::get, (&*final(d), key), after),
        call_ensures(PlatformDefinitions::new, (), empty),
        call_ensures(PlatformDefinitions::get, (&empty, key), none),
    ensures
        key@ == name@ ==> (after matches Some(p) && p@ == platform@),
        key@ != name@ ==> (after is Some <==> before is Some),
        key@ != name@ ==> (after matches Some(p) ==> p@ == before->Some_0@),
        none is None,
{
}

/// A context node resolves with the definitions and the host that it was made with.
pub proof fn law_new_context_node(
    platforms: PlatformDefinitions,
    host: RegisteredExecPlatform,
    f: ToolchainContextFn,
)
    requires
        call_ensures(ToolchainContextFn::new, (platforms, host), f),
    ensures
        f@.definitions == platforms@,
        f@.host.name == host@.name,
        f@.host.constraints == host@.constraints,
{
}

/// A type that is given a value has that value, and a type that is not keeps what it had. A new map
/// has no value.
pub proof fn law_type_map_insert<V>(
    m: &mut TypeMap<V>,
    t: ToolchainType,
    v: V,
    key: &ToolchainType,
    before: Option<&V>,
    after: Option<&V>,
    held: bool,
    empty: TypeMap<V>,
    none: Option<&V>,
)
    requires
        call_ensures(TypeMap::<V>::insert, (m, t, v), ()),
        call_ensures(TypeMap::<V>::get, (&*old(m), key), before),
        call_ensures(TypeMap::<V>::get, (&*final(m), key), after),
        call_ensures(TypeMap::<V>::contains_key, (&*final(m), key), held),
        call_ensures(TypeMap::<V>::new, (), empty),
        call_ensures(TypeMap::<V>::get, (&empty, key), none),
    ensures
        key.0@ == t.0@ ==> after == Some(&v),
        key.0@ != t.0@ ==> after == before,
        held <==> after is Some,
        none is None,
{
}

// ---------------------------------------------------------------------------------------------
// Writing
// ---------------------------------------------------------------------------------------------

/// Every writing function appends, behind what was there, exactly what it is to write.
pub proof fn law_writing<I>(
    b1: &mut Vec<u8>,
    n: u64,
    b2: &mut Vec<u8>,
    raw: &[u8],
    b3: &mut Vec<u8>,
    s: &str,
    b4: &mut Vec<u8>,
    list: &[Constraint],
    b5: &mut Vec<u8>,
    f: bool,
    b6: &mut Vec<u8>,
    t: &RegisteredToolchain<I>,
    info: &[u8],
)
    requires
        call_ensures(enc_count, (b1, n), ()),
        call_ensures(enc_raw, (b2, raw), ()),
        call_ensures(enc_str, (b3, s), ()),
        call_ensures(enc_constraints, (b4, list), ()),
        call_ensures(enc_bool, (b5, f), ()),
        call_ensures(encode_registered_toolchain::<I>, (t, info, b6), ()),
    ensures
        final(b1)@ == old(b1)@ + crate::codec::count_bytes(n as nat),
        final(b2)@ == old(b2)@ + raw@,
        final(b3)@ == old(b3)@ + crate::codec::text_bytes(s@),
        final(b4)@ == old(b4)@ + crate::codec::text_list_bytes(crate::types::labels(list@)),
        final(b5)@ == old(b5)@ + seq![
            if f {
                1u8
            } else {
                0u8
            },
        ],
        final(b6)@ == old(b6)@ + (crate::codec::text_bytes(t@.ty) + crate::codec::text_list_bytes(
            t@.target,
        ) + crate::codec::text_list_bytes(t@.runs_on) + info@),
{
    crate::answers::law_toolchain_bytes(t@, info@);
}

// ---------------------------------------------------------------------------------------------
// Reading
// ---------------------------------------------------------------------------------------------

/// Taking bytes gives the next ones and moves behind them; where there are too few, nothing moves
/// and the error says that the bytes are cut off.
pub proof fn law_take(c: &mut Cur, n: usize, r: Result<&[u8], Error>)
    requires
        call_ensures(Cur::take, (c, n), r),
    ensures
        final(c).b@ == old(c).b@,
        final(c).what@ == old(c).what@,
        old(c).i + n <= old(c).b@.len() ==> (r matches Ok(s) && s@ == old(c).b@.subrange(
            old(c).i as int,
            old(c).i + n,
        )) && final(c).i == old(c).i + n,
        old(c).i + n > old(c).b@.len() ==> (r matches Err(Error::Invalid { what, detail }) && what@
            == old(c).what@ && detail@ == "truncated"@) && final(c).i == old(c).i,
{
}

/// A cursor starts at the first byte; it is done exactly behind the last one, and else says that
/// bytes are left.
pub proof fn law_cursor(
    b: &[u8],
    what: &'static str,
    c: Cur,
    any: &Cur,
    detail: &str,
    e: Error,
    r: Result<(), Error>,
)
    requires
        call_ensures(Cur::new, (b, what), c),
        call_ensures(Cur::err, (any, detail), e),
        call_ensures(Cur::done, (any,), r),
    ensures
        c.b@ == b@,
        c.i == 0,
        c.what@ == what@,
        e matches Error::Invalid { what: w, detail: d } && w@ == any.what@ && d@ == detail@,
        r is Ok <==> any.i == any.b@.len(),
        r matches Err(x) ==> (x matches Error::Invalid { what: w, detail: d } && w@ == any.what@
            && d@ == "trailing bytes"@),
{
}

/// Reading a count gives the number that the next eight bytes are the way to write, and moves
/// behind them.
pub proof fn law_read_count(c: &mut Cur, r: Result<u64, Error>)
    requires
        call_ensures(Cur::u64, (c,), r),
        old(c).i <= old(c).b@.len(),
    ensures
        final(c).b@ == old(c).b@,
        final(c).what@ == old(c).what@,
        old(c).i + 8 <= old(c).b@.len() ==> (r matches Ok(n) && crate::codec::count_bytes(n as nat)
            == old(c).b@.subrange(old(c).i as int, old(c).i + 8)) && final(c).i == old(c).i + 8,
        old(c).i + 8 > old(c).b@.len() ==> (r matches Err(Error::Invalid { what, detail }) && what@
            == old(c).what@ && detail@ == "truncated"@) && final(c).i == old(c).i,
{
    let (b, i) = (old(c).b@, old(c).i as int);
    crate::codec::lemma_read_count(b, i);
    if i + 8 <= b.len() {
        let n = crate::codec::read_count(b, i).result->Ok_0;
        crate::codec::lemma_big_endian(n, 8);
    }
}

/// Reading a byte or a flag gives the next byte, a flag only 0 and 1, and moves behind it.
pub proof fn law_read_byte(c: &mut Cur, r: Result<u8, Error>, d: &mut Cur, s: Result<bool, Error>)
    requires
        call_ensures(Cur::byte, (c,), r),
        call_ensures(Cur::bool, (d,), s),
    ensures
        final(c).b@ == old(c).b@,
        old(c).i < old(c).b@.len() ==> (r matches Ok(t) && t == old(c).b@[old(c).i as int])
            && final(c).i == old(c).i + 1,
        old(c).i >= old(c).b@.len() ==> (r matches Err(Error::Invalid { what, detail }) && what@
            == old(c).what@ && detail@ == "truncated"@) && final(c).i == old(c).i,
        final(d).b@ == old(d).b@,
        old(d).i < old(d).b@.len() ==> final(d).i == old(d).i + 1,
        old(d).i < old(d).b@.len() && old(d).b@[old(d).i as int] == 0 ==> s == Ok::<bool, Error>(
            false,
        ),
        old(d).i < old(d).b@.len() && old(d).b@[old(d).i as int] == 1 ==> s == Ok::<bool, Error>(
            true,
        ),
        old(d).i < old(d).b@.len() && old(d).b@[old(d).i as int] >= 2 ==> (s matches Err(
            Error::Invalid { what, detail },
        ) && what@ == old(d).what@ && detail@ == "bad bool tag "@ + crate::text::decimal(
            old(d).b@[old(d).i as int] as nat,
        )),
        old(d).i >= old(d).b@.len() ==> (s matches Err(Error::Invalid { what, detail }) && what@
            == old(d).what@ && detail@ == "truncated"@) && final(d).i == old(d).i,
{
    let (b, i) = (old(c).b@, old(c).i as int);
    if i < b.len() {
        assert(b.subrange(i, i + 1)[0] == b[i]);
    }
    let (e, j) = (old(d).b@, old(d).i as int);
    if j < e.len() {
        assert(e.subrange(j, j + 1)[0] == e[j]);
    }
}

/// Reading a string gives the one that the bytes between the old and the new position are the way
/// to write; a string that stands there is read. Bytes that stand there behind their length and are
/// no UTF-8 are refused as such; where no bytes stand there behind their length, they are cut off.
pub proof fn law_read_text(c: &mut Cur, r: Result<String, Error>, s: Seq<char>, raw: Seq<u8>)
    requires
        call_ensures(Cur::str, (c,), r),
        old(c).i <= old(c).b@.len() <= u64::MAX,
    ensures
        final(c).b@ == old(c).b@,
        r matches Ok(x) ==> old(c).i <= final(c).i <= old(c).b@.len() && old(c).b@.subrange(
            old(c).i as int,
            final(c).i as int,
        ) == crate::codec::text_bytes(x@),
        old(c).i + crate::codec::text_bytes(s).len() <= old(c).b@.len() && old(c).b@.subrange(
            old(c).i as int,
            old(c).i + crate::codec::text_bytes(s).len(),
        ) == crate::codec::text_bytes(s) ==> (r matches Ok(x) && x@ == s) && final(c).i == old(c).i
            + crate::codec::text_bytes(s).len(),
        crate::codec::stands_at(
            old(c).b@,
            old(c).i as int,
            crate::codec::count_bytes(raw.len()) + raw,
        ) && !vstd::utf8::valid_utf8(raw) ==> (r matches Err(Error::Invalid { what, detail })
            && what@ == old(c).what@ && detail@ == "non-utf8"@),
        (forall|x: Seq<u8>|
            !#[trigger] crate::codec::stands_at(
                old(c).b@,
                old(c).i as int,
                crate::codec::count_bytes(x.len()) + x,
            )) ==> (r matches Err(Error::Invalid { what, detail }) && what@ == old(c).what@
            && detail@ == "truncated"@),
{
    let (b, i) = (old(c).b@, old(c).i as int);
    crate::codec::lemma_read_text(b, i);
    crate::codec::lemma_big_endian(vstd::utf8::encode_utf8(s).len(), 8);
    if old(c).i + crate::codec::text_bytes(s).len() <= old(c).b@.len() && old(c).b@.subrange(
        old(c).i as int,
        old(c).i + crate::codec::text_bytes(s).len(),
    ) == crate::codec::text_bytes(s) {
        assert(crate::codec::stands_at(b, i, crate::codec::text_bytes(s)));
    }
    if crate::codec::stands_at(b, i, crate::codec::count_bytes(raw.len()) + raw)
        && !vstd::utf8::valid_utf8(raw) {
        crate::codec::lemma_big_endian(raw.len(), 8);
        crate::codec::lemma_stands_concat(b, i, crate::codec::count_bytes(raw.len()), raw);
        crate::codec::lemma_read_count(b, i);
    }
    crate::codec::lemma_read_count(b, i);
    if let Ok(n) = crate::codec::read_count(b, i).result {
        if i + 8 + n <= b.len() {
            let x = b.subrange(i + 8, i + 8 + n);
            crate::codec::lemma_big_endian(n, 8);
            crate::codec::lemma_stands_concat(b, i, crate::codec::count_bytes(n), x);
            assert(crate::codec::stands_at(b, i, crate::codec::count_bytes(x.len()) + x));
        }
    }
}

/// Reading a list of constraints gives the one that the bytes between the old and the new position
/// are the way to write.
pub proof fn law_read_constraints(c: &mut Cur, r: Result<Vec<Constraint>, Error>)
    requires
        call_ensures(Cur::constraints, (c,), r),
        old(c).i <= old(c).b@.len(),
    ensures
        final(c).b@ == old(c).b@,
        r matches Ok(x) ==> old(c).i <= final(c).i <= old(c).b@.len() && old(c).b@.subrange(
            old(c).i as int,
            final(c).i as int,
        ) == crate::codec::text_list_bytes(crate::types::labels(x@)),
{
    crate::codec::lemma_read_text_list(old(c).b@, old(c).i as int);
}

// ---------------------------------------------------------------------------------------------
// Texts and errors
// ---------------------------------------------------------------------------------------------

/// A number is written behind its prefix; an error holds what it is made of.
pub proof fn law_texts(
    prefix: &str,
    n: u8,
    s: String,
    what: &str,
    detail: String,
    e: Error,
    reason: &str,
    x: Error,
)
    requires
        call_ensures(with_number, (prefix, n), s),
        call_ensures(Error::not_found, (what, detail), e),
        call_ensures(Error::invalid, (what, reason), x),
    ensures
        s@ == prefix@ + crate::text::decimal(n as nat),
        e matches Error::NotFound { what: w, detail: d } && w@ == what@ && d@ == detail@,
        x matches Error::Invalid { what: w, detail: d } && w@ == what@ && d@ == reason@,
{
}

} // verus!
