//! What the keys, the values of nodes and the store answer, said of what is handed in.

use crate::error::Error;
use crate::keys::{
    ContextKeyModel, Key, NodeKey, RegisteredExecutionPlatformsKey, RegisteredToolchainsKey,
    ToolchainContextKey,
};
use crate::nodes::{
    ComputeResult, NodeValue, RegisteredExecutionPlatformsFn, RegisteredExecutionPlatformsValue,
    RegisteredToolchainsFn, RegisteredToolchainsValue, ResolvedToolchainContextValue,
    ToolchainRegistry, ValuePolicy,
};
use crate::typemap::TypeMap;
use crate::types::{
    ConfigId, Constraint, ExecPlatformModel, RegisteredExecPlatform, RegisteredToolchain,
    ReqModel, ToolchainModel, ToolchainType, ToolchainTypeReq,
};
use vstd::prelude::*;

verus! {

// ---------------------------------------------------------------------------------------------
// Order
// ---------------------------------------------------------------------------------------------

/// One string comes before another exactly if, at the first byte at which their UTF-8 encodings
/// part, it ends or has the smaller byte.
pub proof fn law_order(a: &str, b: &str, r: bool)
    requires
        call_ensures(crate::order::less, (a, b), r),
    ensures
        r == crate::order::text_less(a@, b@),
        r <==> exists|p: int|
            #![trigger vstd::utf8::encode_utf8(a@).take(p)]
            0 <= p <= vstd::utf8::encode_utf8(a@).len() && p < vstd::utf8::encode_utf8(b@).len()
                && vstd::utf8::encode_utf8(a@).take(p) == vstd::utf8::encode_utf8(b@).take(p) && (p
                == vstd::utf8::encode_utf8(a@).len() || vstd::utf8::encode_utf8(a@)[p]
                < vstd::utf8::encode_utf8(b@)[p]),
{
    law_text_order(a@, b@);
}

/// The order of strings is that of the first byte at which their UTF-8 encodings part; a string that
/// ends there comes first.
pub proof fn law_text_order(a: Seq<char>, b: Seq<char>)
    ensures
        crate::order::text_less(a, b) <==> exists|p: int|
            #![trigger vstd::utf8::encode_utf8(a).take(p)]
            0 <= p <= vstd::utf8::encode_utf8(a).len() && p < vstd::utf8::encode_utf8(b).len()
                && vstd::utf8::encode_utf8(a).take(p) == vstd::utf8::encode_utf8(b).take(p) && (p
                == vstd::utf8::encode_utf8(a).len() || vstd::utf8::encode_utf8(a)[p]
                < vstd::utf8::encode_utf8(b)[p]),
{
    let x = vstd::utf8::encode_utf8(a);
    let y = vstd::utf8::encode_utf8(b);
    if crate::order::text_less(a, b) {
        let p = choose|p: int| crate::order::parts_below(x, y, p);
        assert(x.take(p) =~= y.take(p));
    }
    if exists|p: int|
        #![trigger x.take(p)]
        0 <= p <= x.len() && p < y.len() && x.take(p) == y.take(p) && (p == x.len() || x[p]
            < y[p]) {
        let p = choose|p: int|
            #![trigger x.take(p)]
            0 <= p <= x.len() && p < y.len() && x.take(p) == y.take(p) && (p == x.len() || x[p]
                < y[p]);
        assert forall|j: int| 0 <= j < p implies x[j] == y[j] by {
            assert(x.take(p)[j] == y.take(p)[j]);
        }
        assert(crate::order::parts_below(x, y, p));
    }
}

/// Of two different strings exactly one comes before the other, no string comes before itself, and
/// the order carries over.
pub proof fn law_order_is_strict_and_total(a: Seq<char>, b: Seq<char>, c: Seq<char>)
    ensures
        !crate::order::text_less(a, a),
        a != b ==> crate::order::text_less(a, b) != crate::order::text_less(b, a),
        crate::order::text_less(a, b) && crate::order::text_less(b, c) ==> crate::order::text_less(
            a,
            c,
        ),
{
    crate::order::lemma_text_irreflexive(a);
    crate::order::lemma_text_total(a, b);
    if crate::order::text_less(a, b) && crate::order::text_less(b, a) {
        crate::order::lemma_text_transitive(a, b, a);
    }
    if crate::order::text_less(a, b) && crate::order::text_less(b, c) {
        crate::order::lemma_text_transitive(a, b, c);
    }
}

// ---------------------------------------------------------------------------------------------
// Keys
// ---------------------------------------------------------------------------------------------

/// The key of a request holds the same configuration, forced platform and debug flag. Its types
/// are those of the request, in strictly rising order, each mandatory exactly if the request asks
/// for it as mandatory at least once. Its labels are those of the request, in strictly rising
/// order.
pub proof fn law_new_key(
    configuration: ConfigId,
    types: Vec<ToolchainTypeReq>,
    labels: Vec<Constraint>,
    forced: Option<String>,
    debug: bool,
    k: ToolchainContextKey,
)
    requires
        call_ensures(ToolchainContextKey::new, (configuration, types, labels, forced, debug), k),
    ensures
        k.configuration.0@ == configuration.0@,
        k.debug_target == debug,
        k.force_exec_platform is Some <==> forced is Some,
        forced matches Some(name) ==> k.force_exec_platform->Some_0@ == name@,
        forall|i: int, j: int|
            0 <= i < j < k@.types.len() ==> crate::order::text_less(
                (#[trigger] k@.types[i]).ty,
                (#[trigger] k@.types[j]).ty,
            ),
        k@.types.map_values(|r: ReqModel| r.ty).to_set() == types@.map_values(
            |r: ToolchainTypeReq| r.toolchain_type.0@,
        ).to_set(),
        forall|i: int|
            0 <= i < k@.types.len() ==> (#[trigger] k@.types[i]).mandatory == types@.map_values(
                |r: ToolchainTypeReq| (r.toolchain_type.0@, r.mandatory),
            ).contains((k@.types[i].ty, true)),
        forall|i: int, j: int|
            0 <= i < j < k@.labels.len() ==> crate::order::text_less(
                #[trigger] k@.labels[i],
                #[trigger] k@.labels[j],
            ),
        forall|l: Seq<char>| #[trigger]
            k@.labels.contains(l) <==> crate::types::labels(labels@).contains(l),
{
    let list = crate::types::reqs(types@);
    let out = k@.types;
    let ids = crate::keys::requested_types(out);
    assert forall|i: int, j: int| 0 <= i < j < out.len() implies crate::order::text_less(
        (#[trigger] out[i]).ty,
        (#[trigger] out[j]).ty,
    ) by {
        assert(ids[i] == out[i].ty && ids[j] == out[j].ty);
    }
    let names = out.map_values(|r: ReqModel| r.ty);
    let asked = types@.map_values(|r: ToolchainTypeReq| r.toolchain_type.0@);
    let flags = types@.map_values(|r: ToolchainTypeReq| (r.toolchain_type.0@, r.mandatory));
    assert forall|t: Seq<char>| #[trigger] names.contains(t) <==> asked.contains(t) by {
        assert(crate::keys::requested(out, t) <==> crate::keys::requested(list, t));
        if names.contains(t) {
            let i = choose|i: int| 0 <= i < names.len() && names[i] == t;
            assert(out[i].ty == t);
            let j = choose|j: int| 0 <= j < list.len() && (#[trigger] list[j]).ty == t;
            assert(asked[j] == t);
        }
        if asked.contains(t) {
            let j = choose|j: int| 0 <= j < asked.len() && asked[j] == t;
            assert(list[j].ty == t);
            let i = choose|i: int| 0 <= i < out.len() && (#[trigger] out[i]).ty == t;
            assert(names[i] == t);
        }
    }
    assert(names.to_set() =~= asked.to_set());
    assert forall|i: int| 0 <= i < out.len() implies (#[trigger] out[i]).mandatory
        == flags.contains((out[i].ty, true)) by {
        let t = out[i].ty;
        if crate::keys::requested_mandatory(list, t) {
            let j = choose|j: int|
                0 <= j < list.len() && (#[trigger] list[j]).ty == t && list[j].mandatory;
            assert(flags[j] == (t, true));
        }
        if flags.contains((t, true)) {
            let j = choose|j: int| 0 <= j < flags.len() && flags[j] == (t, true);
            assert(list[j].ty == t && list[j].mandatory);
        }
    }
}

/// The keys of the three kinds of nodes have different kinds; within a kind a node is told apart
/// by the byte form of its key.
pub proof fn law_from_key(
    a: &ToolchainContextKey,
    b: &RegisteredToolchainsKey,
    c: &RegisteredExecutionPlatformsKey,
    x: NodeKey,
    y: NodeKey,
    z: NodeKey,
)
    requires
        call_ensures(NodeKey::from_key::<ToolchainContextKey>, (a,), x),
        call_ensures(NodeKey::from_key::<RegisteredToolchainsKey>, (b,), y),
        call_ensures(NodeKey::from_key::<RegisteredExecutionPlatformsKey>, (c,), z),
    ensures
        x.kind == 50,
        x.canonical@ == crate::keys::context_key_bytes(a@),
        y.kind == 51,
        y.canonical@ == crate::codec::text_bytes(b.configuration.0@),
        z.kind == 52,
        z.canonical@ == crate::codec::text_bytes(c.configuration.0@),
{
}

/// Encoding a key gives its byte form.
pub proof fn law_encode(
    a: &ToolchainContextKey,
    b: &RegisteredToolchainsKey,
    c: &RegisteredExecutionPlatformsKey,
    x: Vec<u8>,
    y: Vec<u8>,
    z: Vec<u8>,
)
    requires
        call_ensures(ToolchainContextKey::encode, (a,), x),
        call_ensures(RegisteredToolchainsKey::encode, (b,), y),
        call_ensures(RegisteredExecutionPlatformsKey::encode, (c,), z),
    ensures
        x@ == crate::keys::context_key_bytes(a@),
        y@ == crate::codec::text_bytes(b.configuration.0@),
        z@ == crate::codec::text_bytes(c.configuration.0@),
{
}

/// A key that is encoded and decoded is the key again; two keys have the same byte form exactly if
/// they agree in the configuration, the requested types and their flags, the labels, the forced
/// platform and the debug flag.
pub proof fn law_encode_distinguishes(
    a: &ToolchainContextKey,
    b: &ToolchainContextKey,
    x: Vec<u8>,
    y: Vec<u8>,
)
    requires
        call_ensures(ToolchainContextKey::encode, (a,), x),
        call_ensures(ToolchainContextKey::encode, (b,), y),
    ensures
        x@ == y@ <==> {
            &&& a.configuration.0@ == b.configuration.0@
            &&& a@.types.len() == b@.types.len()
            &&& forall|i: int|
                0 <= i < a@.types.len() ==> (#[trigger] a@.types[i]).ty == b@.types[i].ty
                    && a@.types[i].mandatory == b@.types[i].mandatory
            &&& a@.labels == b@.labels
            &&& a@.forced == b@.forced
            &&& a.debug_target == b.debug_target
        },
{
    crate::laws::law_context_key_injective(a@, b@);
    if a@.types.len() == b@.types.len() && forall|i: int|
        0 <= i < a@.types.len() ==> (#[trigger] a@.types[i]).ty == b@.types[i].ty
            && a@.types[i].mandatory == b@.types[i].mandatory {
        assert(a@.types =~= b@.types);
    }
}

// ---------------------------------------------------------------------------------------------
// Values
// ---------------------------------------------------------------------------------------------

/// All values can be told apart, shared and written down; none is out of date by itself or bound
/// to its process.
pub proof fn law_policies<I>(
    a: &RegisteredToolchainsValue<I>,
    b: &RegisteredExecutionPlatformsValue,
    c: &ResolvedToolchainContextValue<I>,
    x: ValuePolicy,
    y: ValuePolicy,
    z: ValuePolicy,
)
    requires
        call_ensures(RegisteredToolchainsValue::<I>::policy, (a,), x),
        call_ensures(RegisteredExecutionPlatformsValue::policy, (b,), y),
        call_ensures(ResolvedToolchainContextValue::<I>::policy, (c,), z),
    ensures
        x.comparable && !x.always_dirty && x.shareable && x.serializable && !x.process_local,
        y == x,
        z == x,
{
}

/// A set of toolchains equals another value only if that is a set of toolchains too, as long, and
/// agrees with it, place by place, in type, target constraints, execution constraints and
/// provider. Where it does not equal a set of toolchains, they differ in length or at some place in
/// one of these.
pub proof fn law_toolchains_value_eq<I: PartialEq>(
    v: &RegisteredToolchainsValue<I>,
    other: &NodeValue<I>,
    r: bool,
)
    requires
        call_ensures(RegisteredToolchainsValue::<I>::value_eq, (v, other), r),
    ensures
        r ==> other is RegisteredToolchains,
        other matches NodeValue::RegisteredToolchains(o) ==> {
            &&& r ==> v@.len() == o@.len() && forall|i: int|
                0 <= i < v@.len() ==> (#[trigger] v@[i]).ty == o@[i].ty && v@[i].target
                    == o@[i].target && v@[i].runs_on == o@[i].runs_on && call_ensures(
                    I::eq,
                    (&v@[i].info, &o@[i].info),
                    true,
                )
            &&& !r ==> v@.len() != o@.len() || exists|i: int|
                0 <= i < v@.len() && ((#[trigger] v@[i]).ty != o@[i].ty || v@[i].target
                    != o@[i].target || v@[i].runs_on != o@[i].runs_on || call_ensures(
                    I::eq,
                    (&v@[i].info, &o@[i].info),
                    false,
                ))
        },
{
    if let NodeValue::RegisteredToolchains(o) = other {
        if !r && v@.len() == o@.len() {
            let i = choose|i: int|
                0 <= i < v@.len() && (!crate::nodes::same_matching(#[trigger] v@[i], o@[i])
                    || crate::nodes::may_compare(v@[i].info, o@[i].info, false));
            assert(0 <= i < v@.len());
        }
    }
}

/// The early cutoff is sound: a set of toolchains that equals another one resolves every key to the
/// same platforms and the same types, with providers that compare equal, or to the same error.
pub proof fn law_value_eq_keeps_contexts<I: PartialEq>(
    v: &RegisteredToolchainsValue<I>,
    o: RegisteredToolchainsValue<I>,
    definitions: Map<Seq<char>, Seq<Seq<char>>>,
    host: ExecPlatformModel,
    k: ContextKeyModel,
    exec_platforms: Seq<ExecPlatformModel>,
)
    requires
        call_ensures(
            RegisteredToolchainsValue::<I>::value_eq,
            (v, &NodeValue::RegisteredToolchains(o)),
            true,
        ),
    ensures
        match (
            crate::context::context_of(definitions, host, k, v@, exec_platforms),
            crate::context::context_of(definitions, host, k, o@, exec_platforms),
        ) {
            (Ok(c), Ok(d)) => {
                &&& c.selected == d.selected
                &&& c.target == d.target
                &&& c.resolved.dom() == d.resolved.dom()
                &&& forall|ty: Seq<char>| #[trigger]
                    c.resolved.dom().contains(ty) ==> call_ensures(
                        I::eq,
                        (&c.resolved[ty], &d.resolved[ty]),
                        true,
                    )
            },
            (Err(x), Err(y)) => x == y,
            _ => false,
        },
{
    let other = NodeValue::RegisteredToolchains(o);
    law_toolchains_value_eq(v, &other, true);
    assert(other->RegisteredToolchains_0 == o);
    crate::promises::law_equal_sets_resolve_alike(definitions, host, k, v@, o@, exec_platforms);
}

/// A set of execution platforms equals another value exactly if that is a set of execution
/// platforms too, as long, with the same name and the same constraints at each place.
pub proof fn law_platforms_value_eq<I>(
    v: &RegisteredExecutionPlatformsValue,
    other: &NodeValue<I>,
    r: bool,
)
    requires
        call_ensures(RegisteredExecutionPlatformsValue::value_eq::<I>, (v, other), r),
    ensures
        r <==> (other matches NodeValue::RegisteredExecutionPlatforms(o) && v@.len() == o@.len()
            && forall|i: int|
            0 <= i < v@.len() ==> (#[trigger] v@[i]).name == o@[i].name && v@[i].constraints
                == o@[i].constraints),
{
    if let NodeValue::RegisteredExecutionPlatforms(o) = other {
        if v@.len() == o@.len() && forall|i: int|
            0 <= i < v@.len() ==> (#[trigger] v@[i]).name == o@[i].name && v@[i].constraints
                == o@[i].constraints {
            assert(v@ =~= o@);
        }
    }
}

/// A context equals another value only if that is a context too, with the same selected and target
/// platform and the same types, whose providers compare equal. Where it does not equal a context,
/// they differ in one of these.
pub proof fn law_context_value_eq<I: PartialEq>(
    v: &ResolvedToolchainContextValue<I>,
    other: &NodeValue<I>,
    r: bool,
)
    requires
        call_ensures(ResolvedToolchainContextValue::<I>::value_eq, (v, other), r),
    ensures
        r ==> other is ResolvedToolchainContext,
        other matches NodeValue::ResolvedToolchainContext(o) ==> {
            &&& r ==> v@.selected == o@.selected && v@.target == o@.target && v@.resolved.dom()
                == o@.resolved.dom() && forall|ty: Seq<char>| #[trigger]
                v@.resolved.dom().contains(ty) ==> call_ensures(
                    I::eq,
                    (&v@.resolved[ty], &o@.resolved[ty]),
                    true,
                )
            &&& !r ==> v@.selected != o@.selected || v@.target != o@.target || v@.resolved.dom()
                != o@.resolved.dom() || exists|ty: Seq<char>| #[trigger]
                v@.resolved.dom().contains(ty) && call_ensures(
                    I::eq,
                    (&v@.resolved[ty], &o@.resolved[ty]),
                    false,
                )
        },
{
    if let NodeValue::ResolvedToolchainContext(o) = other {
        if !r && v@.selected == o@.selected && v@.target == o@.target && v@.resolved.dom()
            == o@.resolved.dom() {
            let ty = choose|ty: Seq<char>| #[trigger]
                v@.resolved.dom().contains(ty) && crate::nodes::may_compare(
                    v@.resolved[ty],
                    o@.resolved[ty],
                    false,
                );
            assert(v@.resolved.dom().contains(ty));
        }
    }
}

/// Copies of values hold the same, with clones of the providers.
pub proof fn law_copies<I: Clone>(
    a: &RegisteredToolchainsValue<I>,
    b: &ResolvedToolchainContextValue<I>,
    x: RegisteredToolchainsValue<I>,
    y: ResolvedToolchainContextValue<I>,
)
    requires
        call_ensures(RegisteredToolchainsValue::<I>::clone, (a,), x),
        call_ensures(ResolvedToolchainContextValue::<I>::clone, (b,), y),
    ensures
        x@.len() == a@.len(),
        forall|i: int|
            0 <= i < a@.len() ==> (#[trigger] x@[i]).ty == a@[i].ty && x@[i].target == a@[i].target
                && x@[i].runs_on == a@[i].runs_on && cloned(a@[i].info, x@[i].info),
        y@.selected == b@.selected,
        y@.target == b@.target,
        y@.resolved.dom() == b@.resolved.dom(),
        forall|ty: Seq<char>| #[trigger]
            b@.resolved.dom().contains(ty) ==> cloned(b@.resolved[ty], y@.resolved[ty]),
{
}

/// A map of types lists its entries in strictly rising order of the ids: each type that has a
/// value, with that value, and no other. It counts as many as it lists.
pub proof fn law_type_map<V>(m: &TypeMap<V>, list: &Vec<(ToolchainType, V)>, n: usize)
    requires
        call_ensures(TypeMap::<V>::entries, (m,), list),
        call_ensures(TypeMap::<V>::len, (m,), n),
    ensures
        n == list@.len(),
        forall|i: int, j: int|
            0 <= i < j < list@.len() ==> crate::order::text_less(
                (#[trigger] list@[i]).0.0@,
                (#[trigger] list@[j]).0.0@,
            ),
        forall|i: int|
            0 <= i < list@.len() ==> m@.dom().contains((#[trigger] list@[i]).0.0@) && m@[list@[i].0.0@]
                == list@[i].1,
        forall|ty: Seq<char>| #[trigger]
            m@.dom().contains(ty) ==> exists|i: int|
                0 <= i < list@.len() && (#[trigger] list@[i]).0.0@ == ty,
{
    let ids = crate::typemap::entry_types(list@);
    crate::typemap::lemma_listing_len(m@, list@);
    assert forall|i: int, j: int| 0 <= i < j < list@.len() implies crate::order::text_less(
        (#[trigger] list@[i]).0.0@,
        (#[trigger] list@[j]).0.0@,
    ) by {
        assert(ids[i] == list@[i].0@ && ids[j] == list@[j].0@);
    }
    assert forall|i: int| 0 <= i < list@.len() implies m@.dom().contains(
        (#[trigger] list@[i]).0.0@,
    ) by {
        assert(ids[i] == list@[i].0@);
        assert(ids.contains(ids[i]));
    }
    assert forall|ty: Seq<char>| #[trigger] m@.dom().contains(ty) implies exists|i: int|
        0 <= i < list@.len() && (#[trigger] list@[i]).0.0@ == ty by {
        let i = choose|i: int| 0 <= i < ids.len() && ids[i] == ty;
        assert(list@[i].0@ == ty);
    }
}

/// What one toolchain adds to a digest: its type, its two lists of constraints, its provider.
pub proof fn law_toolchain_bytes<I>(t: ToolchainModel<I>, info: Seq<u8>)
    ensures
        crate::nodes::toolchain_bytes(crate::nodes::with_info(t, info))
            == crate::codec::text_bytes(t.ty) + crate::codec::text_list_bytes(t.target)
            + crate::codec::text_list_bytes(t.runs_on) + info,
{
    assert(crate::nodes::toolchain_bytes(crate::nodes::with_info(t, info))
        =~= crate::codec::text_bytes(t.ty) + crate::codec::text_list_bytes(t.target)
        + crate::codec::text_list_bytes(t.runs_on) + info);
}

// ---------------------------------------------------------------------------------------------
// The store
// ---------------------------------------------------------------------------------------------

/// The store answers with what is registered for the configuration, in order, and with nothing
/// where nothing is.
pub proof fn law_store_answers<I: Clone>(
    store: &ToolchainRegistry<I>,
    configuration: &ConfigId,
    tools: Vec<RegisteredToolchain<I>>,
    platforms: Vec<RegisteredExecPlatform>,
)
    requires
        call_ensures(ToolchainRegistry::<I>::toolchains_for, (store, configuration), tools),
        call_ensures(ToolchainRegistry::<I>::exec_platforms_for, (store, configuration), platforms),
    ensures
        store@.toolchains.dom().contains(configuration.0@) ==> ({
            let list = store@.toolchains[configuration.0@];
            &&& tools@.len() == list.len()
            &&& forall|i: int|
                0 <= i < list.len() ==> (#[trigger] tools@[i])@.ty == list[i].ty && tools@[i]@.target
                    == list[i].target && tools@[i]@.runs_on == list[i].runs_on && cloned(
                    list[i].info,
                    tools@[i].info,
                )
        }),
        !store@.toolchains.dom().contains(configuration.0@) ==> tools@.len() == 0,
        store@.exec_platforms.dom().contains(configuration.0@) ==> ({
            let list = store@.exec_platforms[configuration.0@];
            &&& platforms@.len() == list.len()
            &&& forall|i: int|
                0 <= i < list.len() ==> (#[trigger] platforms@[i])@.name == list[i].name
                    && platforms@[i]@.constraints == list[i].constraints
        }),
        !store@.exec_platforms.dom().contains(configuration.0@) ==> platforms@.len() == 0,
{
    let a = crate::types::toolchains(tools@);
    let b = crate::types::exec_platforms(platforms@);
    assert(a.len() == tools@.len() && b.len() == platforms@.len());
    assert(forall|i: int| 0 <= i < tools@.len() ==> (#[trigger] tools@[i])@ == a[i]);
    assert(forall|i: int| 0 <= i < platforms@.len() ==> (#[trigger] platforms@[i])@ == b[i]);
}

/// The two nodes of the registered sets serve what the store holds for the configuration of their
/// key, in order, and nothing where it holds nothing.
pub proof fn law_registered_nodes<I: Clone>(
    f: &RegisteredToolchainsFn<I>,
    g: &RegisteredExecutionPlatformsFn<I>,
    key: &NodeKey,
    configuration: Seq<char>,
    r: ComputeResult<I>,
    s: ComputeResult<I>,
)
    requires
        call_ensures(RegisteredToolchainsFn::<I>::compute, (f, key), r),
        call_ensures(RegisteredExecutionPlatformsFn::<I>::compute, (g, key), s),
        key.canonical@ == crate::codec::text_bytes(configuration),
        key.canonical@.len() <= u64::MAX,
    ensures
        r matches ComputeResult::Ready(NodeValue::RegisteredToolchains(v)) && (if f.store@.toolchains.dom().contains(configuration) {
            let list = f.store@.toolchains[configuration];
            &&& v@.len() == list.len()
            &&& forall|i: int|
                0 <= i < list.len() ==> (#[trigger] v@[i]).ty == list[i].ty && v@[i].target
                    == list[i].target && v@[i].runs_on == list[i].runs_on && cloned(
                    list[i].info,
                    v@[i].info,
                )
        } else {
            v@.len() == 0
        }),
        s matches ComputeResult::Ready(NodeValue::RegisteredExecutionPlatforms(v)) && (if g.store@.exec_platforms.dom().contains(configuration) {
            let list = g.store@.exec_platforms[configuration];
            &&& v@.len() == list.len()
            &&& forall|i: int|
                0 <= i < list.len() ==> (#[trigger] v@[i]).name == list[i].name && v@[i].constraints
                    == list[i].constraints
        } else {
            v@.len() == 0
        }),
{
    crate::codec::lemma_big_endian(vstd::utf8::encode_utf8(configuration).len(), 8);
    crate::laws::law_registered_key_round_trip(key.canonical@, configuration);
}

/// The two nodes of the registered sets refuse bytes that are no key, each under its own name.
pub proof fn law_registered_nodes_malformed<I: Clone>(
    f: &RegisteredToolchainsFn<I>,
    g: &RegisteredExecutionPlatformsFn<I>,
    key: &NodeKey,
    r: ComputeResult<I>,
    s: ComputeResult<I>,
)
    requires
        call_ensures(RegisteredToolchainsFn::<I>::compute, (f, key), r),
        call_ensures(RegisteredExecutionPlatformsFn::<I>::compute, (g, key), s),
    ensures
        crate::keys::read_configuration_key(key.canonical@) matches Err(reason) ==> (
        r matches ComputeResult::Error(Error::Invalid { what, detail }) && what@
            == "REGISTERED_TOOLCHAINS key"@ && detail@ == reason) && (s matches ComputeResult::Error(
            Error::Invalid { what, detail },
        ) && what@ == "REGISTERED_EXECUTION_PLATFORMS key"@ && detail@ == reason),
{
}

/// The target platform of a configuration bears its id; a request is mandatory exactly if its flag
/// says so.
pub proof fn law_derivations(
    configuration: &ConfigId,
    name: String,
    req: &ToolchainTypeReq,
    mandatory: bool,
)
    requires
        call_ensures(crate::context::derive_target_platform, (configuration,), name),
        call_ensures(crate::context::req_is_mandatory, (req,), mandatory),
    ensures
        name@ == configuration.0@,
        mandatory == req.mandatory,
{
}

} // verus!
