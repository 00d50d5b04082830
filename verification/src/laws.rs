//! What holds across the modules of this library.

use crate::context::{ContextFnModel, Demand, OutcomeModel};
use crate::error::ErrorModel;
use crate::keys::{
    ContextKeyModel, Key, RegisteredExecutionPlatformsKey, RegisteredToolchainsKey,
    ToolchainContextKey,
};
use crate::nodes::{ChoiceModel, ContextModel};
use crate::types::{ExecPlatformModel, ReqModel, ToolchainModel};
use vstd::prelude::*;

verus! {

// ---------------------------------------------------------------------------------------------
// Keys
// ---------------------------------------------------------------------------------------------

/// A context key survives encoding and decoding, in canonical form or not.
pub proof fn law_context_key_round_trip(k: ContextKeyModel)
    requires
        crate::keys::key_fits(k),
    ensures
        crate::keys::read_context_key(crate::keys::context_key_bytes(k)) == Ok::<
            ContextKeyModel,
            Seq<char>,
        >(k),
{
    crate::keys::lemma_context_key_bytes(crate::keys::context_key_bytes(k), k);
}

/// Decoding is fail-closed: bytes are accepted only if they are the byte form of a key, and then
/// as that key.
pub proof fn law_context_key_fail_closed(b: Seq<u8>)
    ensures
        crate::keys::read_context_key(b) is Ok <==> exists|k: ContextKeyModel|
            crate::keys::key_fits(k) && b == #[trigger] crate::keys::context_key_bytes(k),
        crate::keys::read_context_key(b) matches Ok(k) ==> b == crate::keys::context_key_bytes(k),
{
    if let Ok(k) = crate::keys::read_context_key(b) {
        crate::keys::lemma_context_key_bytes(b, k);
    }
    if exists|k: ContextKeyModel|
        crate::keys::key_fits(k) && b == #[trigger] crate::keys::context_key_bytes(k) {
        let k = choose|k: ContextKeyModel|
            crate::keys::key_fits(k) && b == #[trigger] crate::keys::context_key_bytes(k);
        crate::keys::lemma_context_key_bytes(b, k);
    }
}

/// Every dimension is in the identity of a context key: keys that differ in any of them have
/// different byte forms.
pub proof fn law_context_key_injective(a: ContextKeyModel, b: ContextKeyModel)
    requires
        crate::keys::key_fits(a),
        crate::keys::key_fits(b),
    ensures
        crate::keys::context_key_bytes(a) == crate::keys::context_key_bytes(b) <==> a == b,
{
    law_context_key_round_trip(a);
    law_context_key_round_trip(b);
}

/// No byte form of a context key starts another one: what is cut short or goes on is refused.
pub proof fn law_context_key_prefix_free(k: ContextKeyModel, n: int, more: Seq<u8>)
    requires
        crate::keys::key_fits(k),
    ensures
        0 <= n < crate::keys::context_key_bytes(k).len() ==> crate::keys::read_context_key(
            crate::keys::context_key_bytes(k).take(n),
        ) is Err,
        more.len() > 0 ==> crate::keys::read_context_key(
            crate::keys::context_key_bytes(k) + more,
        ) is Err,
{
    let b = crate::keys::context_key_bytes(k);
    if 0 <= n < b.len() {
        lemma_no_key_starts_key(k, b, n);
    }
    if more.len() > 0 {
        lemma_no_key_goes_on(k, b, more);
    }
}

/// What is cut off the byte form of a key is no byte form of a key.
proof fn lemma_no_key_starts_key(k: ContextKeyModel, b: Seq<u8>, n: int)
    requires
        crate::keys::key_fits(k),
        b == crate::keys::context_key_bytes(k),
        0 <= n < b.len(),
    ensures
        crate::keys::read_context_key(b.take(n)) is Err,
{
    let a = b.take(n);
    if let Ok(j) = crate::keys::read_context_key(a) {
        crate::keys::lemma_context_key_bytes(a, j);
        assert(b.subrange(0, n) =~= a);
        assert(b.subrange(0, b.len() as int) =~= b);
        crate::keys::lemma_context_key_start(b, k, j);
    }
}

/// What goes on behind the byte form of a key is no byte form of a key.
proof fn lemma_no_key_goes_on(k: ContextKeyModel, b: Seq<u8>, more: Seq<u8>)
    requires
        crate::keys::key_fits(k),
        b == crate::keys::context_key_bytes(k),
        more.len() > 0,
    ensures
        crate::keys::read_context_key(b + more) is Err,
{
    let c = b + more;
    if let Ok(j) = crate::keys::read_context_key(c) {
        crate::keys::lemma_context_key_bytes(c, j);
        assert(c.subrange(0, b.len() as int) =~= b);
        assert(c.subrange(0, c.len() as int) =~= c);
        crate::keys::lemma_context_key_start(c, k, j);
    }
}

/// The two lists of requests ask for the same: the same types, and each as strictly.
pub open spec fn same_requests(a: Seq<ReqModel>, b: Seq<ReqModel>) -> bool {
    forall|t: Seq<char>| #[trigger]
        crate::keys::requested(a, t) == crate::keys::requested(b, t)
            && crate::keys::requested_mandatory(a, t) == crate::keys::requested_mandatory(b, t)
}

/// Requests that ask for the same have the same canonical form, in whatever order and however
/// often they name a type; requests that do not have different ones.
pub proof fn law_canonical_requests(
    a: Seq<ReqModel>,
    b: Seq<ReqModel>,
    x: Seq<ReqModel>,
    y: Seq<ReqModel>,
)
    requires
        crate::keys::canonical_reqs(x, a),
        crate::keys::canonical_reqs(y, b),
    ensures
        x == y <==> same_requests(a, b),
{
    if same_requests(a, b) {
        let (s, t) = (crate::keys::requested_types(x), crate::keys::requested_types(y));
        assert forall|id: Seq<char>| s.contains(id) <==> t.contains(id) by {
            lemma_requested_types(x, id);
            lemma_requested_types(y, id);
            assert(crate::keys::requested(a, id) == crate::keys::requested(b, id));
            assert(crate::keys::requested(x, id) <==> crate::keys::requested(a, id));
            assert(crate::keys::requested(y, id) <==> crate::keys::requested(b, id));
        }
        crate::order::lemma_sorted_unique(s, t);
        assert(s.len() == x.len() && t.len() == y.len());
        assert forall|i: int| 0 <= i < x.len() implies x[i] == y[i] by {
            assert(s[i] == x[i].ty && t[i] == y[i].ty);
            assert(crate::keys::requested(a, x[i].ty) == crate::keys::requested(b, x[i].ty));
        }
        assert(x =~= y);
    }
    if x == y {
        assert forall|id: Seq<char>| #[trigger]
            crate::keys::requested(a, id) == crate::keys::requested(b, id)
                && crate::keys::requested_mandatory(a, id) == crate::keys::requested_mandatory(
                b,
                id,
            ) by {
            assert(crate::keys::requested(x, id) <==> crate::keys::requested(a, id));
            assert(crate::keys::requested(y, id) <==> crate::keys::requested(b, id));
            if crate::keys::requested(x, id) {
                let i = choose|i: int| 0 <= i < x.len() && (#[trigger] x[i]).ty == id;
                assert(x[i].mandatory == crate::keys::requested_mandatory(a, id));
                assert(y[i].mandatory == crate::keys::requested_mandatory(b, id));
            } else {
                lemma_mandatory_is_requested(a, id);
                lemma_mandatory_is_requested(b, id);
            }
        }
    }
}

/// A type is requested exactly if its id is among the ids of the requests.
proof fn lemma_requested_types(list: Seq<ReqModel>, id: Seq<char>)
    ensures
        crate::keys::requested(list, id) <==> crate::keys::requested_types(list).contains(id),
{
    let ids = crate::keys::requested_types(list);
    if crate::keys::requested(list, id) {
        let i = choose|i: int| 0 <= i < list.len() && (#[trigger] list[i]).ty == id;
        assert(ids[i] == id);
    }
    if ids.contains(id) {
        let i = choose|i: int| 0 <= i < ids.len() && ids[i] == id;
        assert(list[i].ty == id);
    }
}

/// A type that is requested as mandatory is requested.
proof fn lemma_mandatory_is_requested(list: Seq<ReqModel>, id: Seq<char>)
    ensures
        crate::keys::requested_mandatory(list, id) ==> crate::keys::requested(list, id),
{
    if crate::keys::requested_mandatory(list, id) {
        let i = choose|i: int|
            0 <= i < list.len() && (#[trigger] list[i]).ty == id && list[i].mandatory;
        assert(list[i].ty == id);
    }
}

/// Lists of the same labels have the same canonical form, in whatever order and however often
/// they hold a label; lists of different labels have different ones.
pub proof fn law_canonical_labels(
    a: Seq<Seq<char>>,
    b: Seq<Seq<char>>,
    x: Seq<Seq<char>>,
    y: Seq<Seq<char>>,
)
    requires
        crate::keys::canonical_labels(x, a),
        crate::keys::canonical_labels(y, b),
    ensures
        x == y <==> (forall|l: Seq<char>| #[trigger] a.contains(l) <==> b.contains(l)),
{
    if forall|l: Seq<char>| #[trigger] a.contains(l) <==> b.contains(l) {
        assert forall|l: Seq<char>| x.contains(l) <==> y.contains(l) by {
            assert(a.contains(l) <==> b.contains(l));
        }
        crate::order::lemma_sorted_unique(x, y);
    }
    if x == y {
        assert forall|l: Seq<char>| #[trigger] a.contains(l) <==> b.contains(l) by {
            assert(x.contains(l) <==> a.contains(l));
            assert(y.contains(l) <==> b.contains(l));
        }
    }
}

/// What is in canonical form is its own canonical form.
pub proof fn law_canonical_form_is_stable(
    types: Seq<ReqModel>,
    x: Seq<ReqModel>,
    labels: Seq<Seq<char>>,
    y: Seq<Seq<char>>,
)
    requires
        crate::keys::canonical_reqs(x, types),
        crate::keys::canonical_labels(y, labels),
    ensures
        crate::keys::canonical_reqs(x, x),
        crate::keys::canonical_labels(y, y),
{
    assert forall|i: int| 0 <= i < x.len() implies (#[trigger] x[i]).mandatory
        == crate::keys::requested_mandatory(x, x[i].ty) by {
        let ids = crate::keys::requested_types(x);
        crate::order::lemma_sorted_no_duplicates(ids);
        if crate::keys::requested_mandatory(x, x[i].ty) {
            let j = choose|j: int|
                0 <= j < x.len() && (#[trigger] x[j]).ty == x[i].ty && x[j].mandatory;
            assert(ids[i] == x[i].ty && ids[j] == x[j].ty);
        }
    }
}

/// Equal requests are identical keys, byte for byte: two keys in canonical form have the same
/// byte form exactly if they agree in configuration, forced platform and debug flag and ask for
/// the same types and labels.
pub proof fn law_equal_requests_are_one_key(
    a: ContextKeyModel,
    b: ContextKeyModel,
    x: ContextKeyModel,
    y: ContextKeyModel,
)
    requires
        crate::keys::key_fits(x),
        crate::keys::key_fits(y),
        crate::keys::canonical_reqs(x.types, a.types),
        crate::keys::canonical_reqs(y.types, b.types),
        crate::keys::canonical_labels(x.labels, a.labels),
        crate::keys::canonical_labels(y.labels, b.labels),
        x.configuration == a.configuration && x.forced == a.forced && x.debug == a.debug,
        y.configuration == b.configuration && y.forced == b.forced && y.debug == b.debug,
    ensures
        crate::keys::context_key_bytes(x) == crate::keys::context_key_bytes(y) <==> {
            &&& a.configuration == b.configuration
            &&& same_requests(a.types, b.types)
            &&& forall|l: Seq<char>| #[trigger] a.labels.contains(l) <==> b.labels.contains(l)
            &&& a.forced == b.forced
            &&& a.debug == b.debug
        },
{
    law_canonical_requests(a.types, b.types, x.types, y.types);
    law_canonical_labels(a.labels, b.labels, x.labels, y.labels);
    law_context_key_injective(x, y);
}

/// The key of a registered set survives encoding and decoding, and decoding is fail-closed.
pub proof fn law_registered_key_round_trip(b: Seq<u8>, configuration: Seq<char>)
    requires
        vstd::utf8::encode_utf8(configuration).len() <= u64::MAX,
    ensures
        crate::keys::read_configuration_key(b) == Ok::<Seq<char>, Seq<char>>(configuration) <==> b
            == crate::codec::text_bytes(configuration),
{
    crate::keys::lemma_configuration_key_bytes(b, configuration);
}

/// The registered sets of different configurations are different nodes, and so are the two sets
/// of one configuration; none of them is a context node.
pub proof fn law_node_keys_distinct(
    a: RegisteredToolchainsKey,
    b: RegisteredToolchainsKey,
    c: RegisteredExecutionPlatformsKey,
    d: RegisteredExecutionPlatformsKey,
    e: ToolchainContextKey,
)
    requires
        a.node_fits(),
        b.node_fits(),
        c.node_fits(),
        d.node_fits(),
    ensures
        crate::keys::node_key_of(a) == crate::keys::node_key_of(b) <==> a.configuration@
            == b.configuration@,
        crate::keys::node_key_of(c) == crate::keys::node_key_of(d) <==> c.configuration@
            == d.configuration@,
        crate::keys::node_key_of(a) != crate::keys::node_key_of(c),
        crate::keys::node_key_of(a) != crate::keys::node_key_of(e),
        crate::keys::node_key_of(c) != crate::keys::node_key_of(e),
{
    law_registered_key_round_trip(a.node_bytes(), a.configuration@);
    law_registered_key_round_trip(b.node_bytes(), b.configuration@);
    law_registered_key_round_trip(c.node_bytes(), c.configuration@);
    law_registered_key_round_trip(d.node_bytes(), d.configuration@);
}

/// Different context keys are different nodes.
pub proof fn law_context_nodes_distinct(a: ToolchainContextKey, b: ToolchainContextKey)
    requires
        a.node_fits(),
        b.node_fits(),
    ensures
        crate::keys::node_key_of(a) == crate::keys::node_key_of(b) <==> a@ == b@,
{
    law_context_key_injective(a@, b@);
}

// ---------------------------------------------------------------------------------------------
// Contexts
// ---------------------------------------------------------------------------------------------

/// Where some execution platform is viable, exactly one is to be chosen.
pub proof fn law_choice_is_unique<I>(
    k: ContextKeyModel,
    registered: Seq<ToolchainModel<I>>,
    target: Seq<Seq<char>>,
    platforms: Seq<ExecPlatformModel>,
)
    ensures
        crate::context::any_viable(k, registered, target, platforms) <==> exists|i: int|
            crate::context::is_best(k, registered, target, platforms, i),
        forall|i: int, j: int| #[trigger]
            crate::context::is_best(k, registered, target, platforms, i)
                && #[trigger] crate::context::is_best(k, registered, target, platforms, j) ==> i
                == j,
{
    if crate::context::any_viable(k, registered, target, platforms) {
        lemma_best_exists(k, registered, target, platforms);
    }
    if exists|i: int| crate::context::is_best(k, registered, target, platforms, i) {
        let i = choose|i: int| crate::context::is_best(k, registered, target, platforms, i);
        assert(crate::context::is_viable(k, registered, target, platforms[i]));
    }
    assert forall|i: int, j: int| #[trigger]
        crate::context::is_best(k, registered, target, platforms, i)
            && #[trigger] crate::context::is_best(k, registered, target, platforms, j) implies i
        == j by {
        crate::context::lemma_best_unique(k, registered, target, platforms, i, j);
    }
}

/// Where some execution platform is viable, one is to be chosen.
proof fn lemma_best_exists<I>(
    k: ContextKeyModel,
    registered: Seq<ToolchainModel<I>>,
    target: Seq<Seq<char>>,
    platforms: Seq<ExecPlatformModel>,
)
    requires
        crate::context::any_viable(k, registered, target, platforms),
    ensures
        exists|i: int| crate::context::is_best(k, registered, target, platforms, i),
    decreases platforms.len(),
{
    let front = platforms.drop_last();
    let last = platforms.len() - 1;
    if crate::context::any_viable(k, registered, target, front) {
        lemma_best_exists(k, registered, target, front);
        let b = choose|b: int| crate::context::is_best(k, registered, target, front, b);
        assert forall|j: int|
            0 <= j < platforms.len() && j != last implies #[trigger] platforms[j] == front[j] by {}
        let better = crate::context::is_viable(k, registered, target, platforms[last])
            && crate::context::score(k, registered, target, platforms[last])
            > crate::context::score(k, registered, target, front[b]);
        if better {
            assert(crate::context::is_best(k, registered, target, platforms, last));
        } else {
            assert(crate::context::is_best(k, registered, target, platforms, b));
        }
    } else {
        assert forall|j: int| 0 <= j < last implies !crate::context::is_viable(
            k,
            registered,
            target,
            #[trigger] platforms[j],
        ) by {
            assert(platforms[j] == front[j]);
        }
        assert(crate::context::is_best(k, registered, target, platforms, last));
    }
}

/// The context `c` is the one of the platform at `i`, which is the one to choose.
pub open spec fn is_chosen_context<I>(
    k: ContextKeyModel,
    registered: Seq<ToolchainModel<I>>,
    target: Seq<Seq<char>>,
    platforms: Seq<ExecPlatformModel>,
    c: ContextModel<I>,
    i: int,
) -> bool {
    &&& crate::context::is_best(k, registered, target, platforms, i)
    &&& c.selected == platforms[i].name
    &&& crate::types::satisfies(platforms[i].constraints, k.labels)
    &&& forall|ty: Seq<char>| #[trigger]
        c.resolved.dom().contains(ty) <==> crate::keys::requested(k.types, ty)
            && crate::context::any_fits(registered, ty, target, platforms[i].constraints)
    &&& forall|ty: Seq<char>| #[trigger]
        c.resolved.dom().contains(ty) ==> exists|t: int|
            crate::context::first_fit(registered, ty, target, platforms[i].constraints, t)
                && c.resolved[ty] == registered[t].info
}

/// What a resolved context is made of. The target platform is the one that the configuration
/// stands for. The selected platform is a candidate: a registered one or the host, the forced one
/// if one is forced, with all constraints that the key asks for. Every mandatory type is
/// resolved. A requested type is resolved exactly if some toolchain fits it, and nothing else is;
/// an optional type that none fits is absent. What a type resolves to is the provider of the
/// first registered toolchain of that type that fits both platforms.
pub proof fn law_resolved_context<I>(
    definitions: Map<Seq<char>, Seq<Seq<char>>>,
    host: ExecPlatformModel,
    k: ContextKeyModel,
    registered: Seq<ToolchainModel<I>>,
    exec_platforms: Seq<ExecPlatformModel>,
    c: ContextModel<I>,
)
    requires
        crate::context::context_of(definitions, host, k, registered, exec_platforms) == Ok::<
            ContextModel<I>,
            ErrorModel,
        >(c),
    ensures
        c.target == k.configuration,
        definitions.dom().contains(k.configuration),
        k.forced matches Some(name) ==> c.selected == name,
        crate::context::has_mandatory(k.types, c.resolved),
        exists|i: int|
            is_chosen_context(
                k,
                registered,
                definitions[k.configuration],
                exec_platforms.push(host),
                c,
                i,
            ),
{
    let platforms = exec_platforms.push(host);
    let target = definitions[k.configuration];
    law_choice_is_unique(k, registered, target, platforms);
    let i = choose|i: int| crate::context::is_best(k, registered, target, platforms, i);
    let on = platforms[i].constraints;
    assert forall|ty: Seq<char>| #[trigger] c.resolved.dom().contains(ty) implies exists|t: int|
        crate::context::first_fit(registered, ty, target, on, t) && c.resolved[ty]
            == registered[t].info by {
        lemma_first_fit_exists(registered, ty, target, on);
        let t = choose|t: int| crate::context::first_fit(registered, ty, target, on, t);
        assert(c.resolved[ty] == registered[t].info);
    }
    assert(is_chosen_context(k, registered, target, platforms, c, i));
}

/// Where some toolchain fits, there is a first one.
pub proof fn lemma_first_fit_exists<I>(
    registered: Seq<ToolchainModel<I>>,
    ty: Seq<char>,
    target: Seq<Seq<char>>,
    host: Seq<Seq<char>>,
)
    requires
        crate::context::any_fits(registered, ty, target, host),
    ensures
        exists|t: int| crate::context::first_fit(registered, ty, target, host, t),
    decreases registered.len(),
{
    let front = registered.drop_last();
    let last = registered.len() - 1;
    if crate::context::any_fits(front, ty, target, host) {
        lemma_first_fit_exists(front, ty, target, host);
        let t = choose|t: int| crate::context::first_fit(front, ty, target, host, t);
        assert forall|j: int| 0 <= j < t implies !crate::context::fits(
            #[trigger] registered[j],
            ty,
            target,
            host,
        ) by {
            assert(registered[j] == front[j]);
        }
        assert(crate::context::first_fit(registered, ty, target, host, t));
    } else {
        assert forall|j: int| 0 <= j < last implies !crate::context::fits(
            #[trigger] registered[j],
            ty,
            target,
            host,
        ) by {
            assert(registered[j] == front[j]);
        }
        assert(crate::context::first_fit(registered, ty, target, host, last));
    }
}

/// The host is the last resort: it is chosen only if every viable registered platform supplies
/// fewer types.
pub proof fn law_host_is_last<I>(
    k: ContextKeyModel,
    registered: Seq<ToolchainModel<I>>,
    target: Seq<Seq<char>>,
    exec_platforms: Seq<ExecPlatformModel>,
    host: ExecPlatformModel,
    j: int,
)
    requires
        crate::context::is_best(
            k,
            registered,
            target,
            exec_platforms.push(host),
            exec_platforms.len() as int,
        ),
        0 <= j < exec_platforms.len(),
        crate::context::is_viable(k, registered, target, exec_platforms[j]),
    ensures
        crate::context::score(k, registered, target, exec_platforms[j]) < crate::context::score(
            k,
            registered,
            target,
            host,
        ),
{
    assert(exec_platforms.push(host)[j] == exec_platforms[j]);
}

/// Resolution fails closed, and only then: with an unknown target platform, with a forced platform
/// that does not exist, or with no candidate that supplies every mandatory type.
pub proof fn law_context_fail_closed<I>(
    definitions: Map<Seq<char>, Seq<Seq<char>>>,
    host: ExecPlatformModel,
    k: ContextKeyModel,
    registered: Seq<ToolchainModel<I>>,
    exec_platforms: Seq<ExecPlatformModel>,
)
    ensures
        crate::context::context_of(definitions, host, k, registered, exec_platforms) is Err <==> {
            ||| !definitions.dom().contains(k.configuration)
            ||| !crate::context::any_viable(
                k,
                registered,
                definitions[k.configuration],
                exec_platforms.push(host),
            )
        },
{
    let platforms = exec_platforms.push(host);
    let target = definitions[k.configuration];
    if crate::context::any_viable(k, registered, target, platforms) {
        let i = choose|i: int|
            0 <= i < platforms.len() && crate::context::is_viable(
                k,
                registered,
                target,
                #[trigger] platforms[i],
            );
        if let Some(name) = k.forced {
            assert(platforms[i].name == name);
        }
    }
}

/// A request without mandatory types for a known platform always resolves, as long as nothing
/// restricts the execution platform.
pub proof fn law_optional_requests_resolve<I>(
    definitions: Map<Seq<char>, Seq<Seq<char>>>,
    host: ExecPlatformModel,
    k: ContextKeyModel,
    registered: Seq<ToolchainModel<I>>,
    exec_platforms: Seq<ExecPlatformModel>,
)
    requires
        definitions.dom().contains(k.configuration),
        k.forced is None,
        k.labels.len() == 0,
        forall|i: int| 0 <= i < k.types.len() ==> !(#[trigger] k.types[i]).mandatory,
    ensures
        crate::context::context_of(definitions, host, k, registered, exec_platforms) is Ok,
{
    let platforms = exec_platforms.push(host);
    let target = definitions[k.configuration];
    assert(crate::context::is_viable(k, registered, target, platforms[exec_platforms.len() as int]));
}

/// `part` occurs in `whole`.
pub open spec fn occurs_in(part: Seq<char>, whole: Seq<char>) -> bool {
    exists|before: Seq<char>, after: Seq<char>| whole == #[trigger] (before + part + after)
}

/// The error of a request that no execution platform can serve names every mandatory type.
pub proof fn law_unsupplied_names_mandatory_types(types: Seq<ReqModel>, target: Seq<char>, i: int)
    requires
        0 <= i < types.len(),
        types[i].mandatory,
    ensures
        crate::context::unsupplied(types, target) matches ErrorModel::NotFound { what, detail }
            && what == "toolchain"@ && occurs_in(types[i].ty, detail),
{
    let list = crate::context::mandatory_types(types);
    lemma_mandatory_types(types, types[i].ty, i);
    let j = choose|j: int| 0 <= j < list.len() && list[j] == types[i].ty;
    lemma_listed(list, j);
    let text = crate::text::comma_separated(list);
    let (p, q) = choose|p: Seq<char>, q: Seq<char>| text == #[trigger] (p + list[j] + q);
    let head = "no execution platform supplies all mandatory toolchain type(s) ["@;
    let (mid, tail) = ("] for target platform '"@, "'"@);
    let detail = head + text + mid + target + tail;
    assert(detail =~= (head + p) + types[i].ty + (q + mid + target + tail));
}

/// A mandatory type is among the mandatory types.
proof fn lemma_mandatory_types(types: Seq<ReqModel>, ty: Seq<char>, i: int)
    requires
        0 <= i < types.len(),
        types[i].mandatory,
        types[i].ty == ty,
    ensures
        crate::context::mandatory_types(types).contains(ty),
    decreases types.len(),
{
    let list = crate::context::mandatory_types(types);
    if i == types.len() - 1 {
        assert(list[list.len() - 1] == ty);
    } else {
        lemma_mandatory_types(types.drop_last(), ty, i);
        let front = crate::context::mandatory_types(types.drop_last());
        let j = choose|j: int| 0 <= j < front.len() && front[j] == ty;
        assert(list[j] == ty);
    }
}

/// Every item of a list occurs in the text that lists it.
proof fn lemma_listed(list: Seq<Seq<char>>, j: int)
    requires
        0 <= j < list.len(),
    ensures
        occurs_in(list[j], crate::text::comma_separated(list)),
    decreases list.len(),
{
    let text = crate::text::comma_separated(list);
    let none: Seq<char> = seq![];
    if list.len() == 1 {
        assert(text =~= none + list[j] + none);
    } else {
        let front = list.drop_last();
        let head = crate::text::comma_separated(front);
        if j == list.len() - 1 {
            assert(text =~= (head + ", "@) + list[j] + none);
        } else {
            lemma_listed(front, j);
            let (p, q) = choose|p: Seq<char>, q: Seq<char>| head == #[trigger] (p + front[j] + q);
            assert(text =~= p + list[j] + (q + ", "@ + list.last()));
        }
    }
}

/// The type match of a context is [`crate::types::resolve`] over the toolchains that can run on
/// the execution platform: it finds a toolchain exactly if `resolve` does, and the same one.
pub proof fn law_context_match_is_resolve<I>(
    registered: Seq<ToolchainModel<I>>,
    ty: Seq<char>,
    target: Seq<Seq<char>>,
    host: Seq<Seq<char>>,
)
    ensures
        ({
            let eligible = registered.filter(
                |t: ToolchainModel<I>| crate::types::satisfies(host, t.runs_on),
            );
            &&& crate::context::any_fits(registered, ty, target, host)
                <==> crate::types::any_for_target(eligible, ty, target)
            &&& forall|i: int, j: int| #[trigger]
                crate::context::first_fit(registered, ty, target, host, i)
                    && #[trigger] crate::types::first_for_target(eligible, ty, target, j)
                    ==> registered[i] == eligible[j]
        }),
    decreases registered.len(),
{
    reveal(Seq::filter);
    let runs = |t: ToolchainModel<I>| crate::types::satisfies(host, t.runs_on);
    let eligible = registered.filter(runs);
    if registered.len() > 0 {
        let front = registered.drop_last();
        let last = registered.len() - 1;
        let before = front.filter(runs);
        law_context_match_is_resolve(front, ty, target, host);
        assert(forall|i: int| 0 <= i < front.len() ==> #[trigger] registered[i] == front[i]);
        assert(forall|i: int| 0 <= i < before.len() ==> #[trigger] eligible[i] == before[i]);
        if crate::context::any_fits(front, ty, target, host) {
            let i = choose|i: int|
                0 <= i < front.len() && crate::context::fits(
                    #[trigger] front[i],
                    ty,
                    target,
                    host,
                );
            assert(crate::context::fits(registered[i], ty, target, host));
            let j = choose|j: int|
                0 <= j < before.len() && crate::types::fits_target(
                    #[trigger] before[j],
                    ty,
                    target,
                );
            assert(crate::types::fits_target(eligible[j], ty, target));
            assert forall|a: int, b: int| #[trigger]
                crate::context::first_fit(registered, ty, target, host, a)
                    && #[trigger] crate::types::first_for_target(
                    eligible,
                    ty,
                    target,
                    b,
                ) implies registered[a] == eligible[b] by {
                if a > i {
                    assert(!crate::context::fits(registered[i], ty, target, host));
                }
                if b > j {
                    assert(!crate::types::fits_target(eligible[j], ty, target));
                }
                assert forall|m: int| 0 <= m < a implies !crate::context::fits(
                    #[trigger] front[m],
                    ty,
                    target,
                    host,
                ) by {
                    assert(registered[m] == front[m]);
                }
                assert forall|m: int| 0 <= m < b implies !crate::types::fits_target(
                    #[trigger] before[m],
                    ty,
                    target,
                ) by {
                    assert(eligible[m] == before[m]);
                }
                assert(crate::context::first_fit(front, ty, target, host, a));
                assert(crate::types::first_for_target(before, ty, target, b));
            }
        } else {
            assert forall|m: int| 0 <= m < last implies !crate::context::fits(
                #[trigger] registered[m],
                ty,
                target,
                host,
            ) by {
                assert(registered[m] == front[m]);
            }
            assert forall|m: int| 0 <= m < before.len() implies !crate::types::fits_target(
                #[trigger] eligible[m],
                ty,
                target,
            ) by {
                assert(eligible[m] == before[m]);
            }
            if crate::context::fits(registered[last], ty, target, host) {
                assert(eligible[before.len() as int] == registered[last]);
            }
        }
    }
}

/// The canonical form of a request resolves as the request itself does: for the same keys to the
/// same context, and to an error for the same keys.
pub proof fn law_canonical_form_keeps_the_context<I>(
    definitions: Map<Seq<char>, Seq<Seq<char>>>,
    host: ExecPlatformModel,
    a: ContextKeyModel,
    x: ContextKeyModel,
    registered: Seq<ToolchainModel<I>>,
    exec_platforms: Seq<ExecPlatformModel>,
)
    requires
        crate::keys::canonical_reqs(x.types, a.types),
        crate::keys::canonical_labels(x.labels, a.labels),
        x.configuration == a.configuration && x.forced == a.forced,
    ensures
        ({
            let p = crate::context::context_of(definitions, host, a, registered, exec_platforms);
            let q = crate::context::context_of(definitions, host, x, registered, exec_platforms);
            &&& p is Ok <==> q is Ok
            &&& p is Ok ==> p == q
        }),
{
    let platforms = exec_platforms.push(host);
    let target = definitions[a.configuration];
    assert forall|p: ExecPlatformModel|
        crate::context::is_viable(a, registered, target, p) == crate::context::is_viable(
            x,
            registered,
            target,
            p,
        ) && crate::context::supplied(registered, a.types, target, p.constraints)
            == crate::context::supplied(registered, x.types, target, p.constraints) by {
        lemma_canonical_is_viable(a, x, registered, target, p);
    }
    assert forall|i: int| #[trigger]
        crate::context::is_best(a, registered, target, platforms, i) == crate::context::is_best(
            x,
            registered,
            target,
            platforms,
            i,
        ) by {}
    law_choice_is_unique(a, registered, target, platforms);
    law_choice_is_unique(x, registered, target, platforms);
    law_context_fail_closed(definitions, host, a, registered, exec_platforms);
    law_context_fail_closed(definitions, host, x, registered, exec_platforms);
    if crate::context::any_viable(a, registered, target, platforms) {
        let i = choose|i: int| crate::context::is_best(a, registered, target, platforms, i);
        let j = choose|j: int| crate::context::is_best(x, registered, target, platforms, j);
        assert(i == j);
    }
}

/// A platform is as viable for a request as for its canonical form, and supplies the same.
proof fn lemma_canonical_is_viable<I>(
    a: ContextKeyModel,
    x: ContextKeyModel,
    registered: Seq<ToolchainModel<I>>,
    target: Seq<Seq<char>>,
    p: ExecPlatformModel,
)
    requires
        crate::keys::canonical_reqs(x.types, a.types),
        crate::keys::canonical_labels(x.labels, a.labels),
        x.forced == a.forced,
    ensures
        crate::context::is_viable(a, registered, target, p) == crate::context::is_viable(
            x,
            registered,
            target,
            p,
        ),
        crate::context::supplied(registered, a.types, target, p.constraints)
            == crate::context::supplied(registered, x.types, target, p.constraints),
{
    let m = crate::context::supplied(registered, a.types, target, p.constraints);
    let n = crate::context::supplied(registered, x.types, target, p.constraints);
    assert forall|t: Seq<char>| m.dom().contains(t) <==> n.dom().contains(t) by {
        assert(crate::keys::requested(x.types, t) <==> crate::keys::requested(a.types, t));
    }
    assert(m =~= n);
    if crate::types::satisfies(p.constraints, a.labels) {
        assert forall|k: int| 0 <= k < x.labels.len() implies p.constraints.contains(
            #[trigger] x.labels[k],
        ) by {
            assert(x.labels.contains(x.labels[k]));
            let j = choose|j: int| 0 <= j < a.labels.len() && a.labels[j] == x.labels[k];
            assert(p.constraints.contains(a.labels[j]));
        }
    }
    if crate::types::satisfies(p.constraints, x.labels) {
        assert forall|k: int| 0 <= k < a.labels.len() implies p.constraints.contains(
            #[trigger] a.labels[k],
        ) by {
            assert(a.labels.contains(a.labels[k]));
            assert(x.labels.contains(a.labels[k]));
            let j = choose|j: int| 0 <= j < x.labels.len() && x.labels[j] == a.labels[k];
            assert(p.constraints.contains(x.labels[j]));
        }
    }
    if crate::context::has_mandatory(a.types, m) {
        assert forall|k: int|
            0 <= k < x.types.len() && (#[trigger] x.types[k]).mandatory implies n.dom().contains(
            x.types[k].ty,
        ) by {
            let j = choose|j: int|
                0 <= j < a.types.len() && (#[trigger] a.types[j]).ty == x.types[k].ty
                    && a.types[j].mandatory;
            assert(m.dom().contains(a.types[j].ty));
        }
    }
    if crate::context::has_mandatory(x.types, n) {
        assert forall|k: int|
            0 <= k < a.types.len() && (#[trigger] a.types[k]).mandatory implies m.dom().contains(
            a.types[k].ty,
        ) by {
            let id = a.types[k].ty;
            assert(crate::keys::requested(a.types, id));
            assert(crate::keys::requested(x.types, id));
            let j = choose|j: int| 0 <= j < x.types.len() && (#[trigger] x.types[j]).ty == id;
            assert(crate::keys::requested_mandatory(a.types, id));
            assert(x.types[j].mandatory);
        }
    }
}

/// The node asks for both registered sets before it resolves anything, and is computed exactly if
/// both are there. What is missing is reported: both keys where both are.
pub proof fn law_missing_dependencies<I>(
    f: ContextFnModel,
    k: ContextKeyModel,
    toolchains: Demand<I>,
    exec_platforms: Demand<I>,
)
    ensures
        crate::context::outcome_for(f, k, toolchains, exec_platforms) is Missing <==> toolchains
            is Missing || exec_platforms is Missing,
        toolchains is Missing && exec_platforms is Missing ==> crate::context::outcome_for(
            f,
            k,
            toolchains,
            exec_platforms,
        ) == OutcomeModel::<I>::Missing(crate::context::dependencies_of(k.configuration)),
        crate::context::outcome_for(f, k, toolchains, exec_platforms) matches OutcomeModel::Missing(
            keys,
        ) ==> forall|i: int|
            0 <= i < keys.len() ==> crate::context::dependencies_of(k.configuration).contains(
                #[trigger] keys[i],
            ),
{
    let deps = crate::context::dependencies_of(k.configuration);
    assert(deps.contains(deps[0]));
    assert(deps.contains(deps[1]));
}

/// The node is computed for the request that its key was made from.
pub proof fn law_node_of_key<I>(
    f: ContextFnModel,
    k: ToolchainContextKey,
    toolchains: Demand<I>,
    exec_platforms: Demand<I>,
)
    requires
        k.node_fits(),
    ensures
        crate::context::outcome(f, crate::keys::node_key_of(k), toolchains, exec_platforms)
            == crate::context::outcome_for(f, k@, toolchains, exec_platforms),
{
    law_context_key_round_trip(k@);
}

/// The dependencies of a context are the nodes of the two registered sets of its configuration.
pub proof fn law_dependencies_are_registered_sets(
    a: RegisteredToolchainsKey,
    b: RegisteredExecutionPlatformsKey,
    configuration: Seq<char>,
)
    requires
        a.configuration@ == configuration,
        b.configuration@ == configuration,
    ensures
        crate::context::dependencies_of(configuration) == seq![
            crate::keys::node_key_of(a),
            crate::keys::node_key_of(b),
        ],
{
}

/// Both dependencies of a context are keys that the nodes of the registered sets accept, and those
/// serve the sets of the configuration of the context.
pub proof fn law_dependencies_are_served(configuration: Seq<char>, i: int)
    requires
        vstd::utf8::encode_utf8(configuration).len() <= u64::MAX,
        0 <= i < crate::context::dependencies_of(configuration).len(),
    ensures
        crate::keys::read_configuration_key(
            crate::context::dependencies_of(configuration)[i].canonical,
        ) == Ok::<Seq<char>, Seq<char>>(configuration),
{
    law_registered_key_round_trip(crate::codec::text_bytes(configuration), configuration);
}

// ---------------------------------------------------------------------------------------------
// Registrations
// ---------------------------------------------------------------------------------------------

/// What is registered for a configuration is what is read for it, and nothing else changes; a
/// configuration for which nothing was registered has the empty set.
pub proof fn law_registration<T>(
    m: Map<Seq<char>, Seq<T>>,
    configuration: Seq<char>,
    list: Seq<T>,
    other: Seq<char>,
)
    ensures
        crate::nodes::registered(m.insert(configuration, list), configuration) == list,
        other != configuration ==> crate::nodes::registered(m.insert(configuration, list), other)
            == crate::nodes::registered(m, other),
        crate::nodes::registered(Map::<Seq<char>, Seq<T>>::empty(), other) == Seq::<T>::empty(),
{
}

// ---------------------------------------------------------------------------------------------
// What digests are taken over
// ---------------------------------------------------------------------------------------------

/// The digest of a set of execution platforms covers every field: different sets are written
/// differently, and no name runs into a constraint.
pub proof fn law_platforms_content(a: Seq<ExecPlatformModel>, b: Seq<ExecPlatformModel>)
    requires
        crate::nodes::platforms_fit(a),
        crate::nodes::platforms_fit(b),
    ensures
        crate::nodes::platforms_content(a) == crate::nodes::platforms_content(b) <==> a == b,
{
    let c = crate::nodes::platforms_content(a);
    if c == crate::nodes::platforms_content(b) {
        crate::codec::lemma_stands_whole(c, c);
        lemma_counted(
            c,
            0,
            a.len(),
            crate::nodes::platforms_bytes(a),
            b.len(),
            crate::nodes::platforms_bytes(b),
        );
        lemma_platforms_bytes(c, 8, a, b);
    }
}

/// Two counted runs that stand at the same place have the same count, and both runs stand behind
/// it.
proof fn lemma_counted(c: Seq<u8>, i: int, m: nat, p: Seq<u8>, n: nat, q: Seq<u8>)
    requires
        m <= u64::MAX,
        n <= u64::MAX,
        crate::codec::stands_at(c, i, crate::codec::count_bytes(m) + p),
        crate::codec::stands_at(c, i, crate::codec::count_bytes(n) + q),
    ensures
        m == n,
        crate::codec::stands_at(c, i + 8, p),
        crate::codec::stands_at(c, i + 8, q),
{
    crate::codec::lemma_big_endian(m, 8);
    crate::codec::lemma_big_endian(n, 8);
    crate::codec::lemma_stands_concat(c, i, crate::codec::count_bytes(m), p);
    crate::codec::lemma_stands_concat(c, i, crate::codec::count_bytes(n), q);
    crate::codec::lemma_read_count(c, i);
}

/// Two runs of as many platforms that stand at the same place are the same.
proof fn lemma_platforms_bytes(
    c: Seq<u8>,
    i: int,
    a: Seq<ExecPlatformModel>,
    b: Seq<ExecPlatformModel>,
)
    requires
        a.len() == b.len(),
        crate::nodes::platforms_fit(a),
        crate::nodes::platforms_fit(b),
        crate::codec::stands_at(c, i, crate::nodes::platforms_bytes(a)),
        crate::codec::stands_at(c, i, crate::nodes::platforms_bytes(b)),
    ensures
        a == b,
    decreases a.len(),
{
    if a.len() == 0 {
        assert(a =~= b);
    } else {
        let (x, y) = (a.drop_last(), b.drop_last());
        let (p, q) = (a.last(), b.last());
        crate::codec::lemma_stands_concat(
            c,
            i,
            crate::nodes::platforms_bytes(x),
            crate::nodes::platform_bytes(p),
        );
        crate::codec::lemma_stands_concat(
            c,
            i,
            crate::nodes::platforms_bytes(y),
            crate::nodes::platform_bytes(q),
        );
        assert forall|j: int| 0 <= j < x.len() implies crate::nodes::platform_fits(
            #[trigger] x[j],
        ) && crate::nodes::platform_fits(y[j]) by {
            assert(x[j] == a[j] && y[j] == b[j]);
        }
        lemma_platforms_bytes(c, i, x, y);
        let k = i + crate::nodes::platforms_bytes(x).len();
        assert(crate::nodes::platform_fits(a[a.len() - 1]));
        assert(crate::nodes::platform_fits(b[b.len() - 1]));
        lemma_text_then(
            c,
            k,
            p.name,
            crate::codec::text_list_bytes(p.constraints),
            q.name,
            crate::codec::text_list_bytes(q.constraints),
        );
        crate::codec::lemma_read_text_list(c, k + crate::codec::text_bytes(p.name).len());
        assert(p == q);
        assert(a =~= x.push(p));
        assert(b =~= y.push(q));
    }
}

/// Two strings that stand at the same place are the same, and what follows each stands behind it.
proof fn lemma_text_then(
    c: Seq<u8>,
    i: int,
    s: Seq<char>,
    p: Seq<u8>,
    t: Seq<char>,
    q: Seq<u8>,
)
    requires
        vstd::utf8::encode_utf8(s).len() <= u64::MAX,
        vstd::utf8::encode_utf8(t).len() <= u64::MAX,
        crate::codec::stands_at(c, i, crate::codec::text_bytes(s) + p),
        crate::codec::stands_at(c, i, crate::codec::text_bytes(t) + q),
    ensures
        s == t,
        crate::codec::stands_at(c, i + crate::codec::text_bytes(s).len(), p),
        crate::codec::stands_at(c, i + crate::codec::text_bytes(s).len(), q),
{
    crate::codec::lemma_stands_concat(c, i, crate::codec::text_bytes(s), p);
    crate::codec::lemma_stands_concat(c, i, crate::codec::text_bytes(t), q);
    crate::codec::lemma_read_text(c, i);
}

/// Two lists of strings that stand at the same place are the same, and what follows each stands
/// behind it.
proof fn lemma_text_list_then(
    c: Seq<u8>,
    i: int,
    s: Seq<Seq<char>>,
    p: Seq<u8>,
    t: Seq<Seq<char>>,
    q: Seq<u8>,
)
    requires
        s.len() <= u64::MAX,
        crate::codec::texts_fit(s),
        t.len() <= u64::MAX,
        crate::codec::texts_fit(t),
        crate::codec::stands_at(c, i, crate::codec::text_list_bytes(s) + p),
        crate::codec::stands_at(c, i, crate::codec::text_list_bytes(t) + q),
    ensures
        s == t,
        crate::codec::stands_at(c, i + crate::codec::text_list_bytes(s).len(), p),
        crate::codec::stands_at(c, i + crate::codec::text_list_bytes(s).len(), q),
{
    crate::codec::lemma_stands_concat(c, i, crate::codec::text_list_bytes(s), p);
    crate::codec::lemma_stands_concat(c, i, crate::codec::text_list_bytes(t), q);
    crate::codec::lemma_read_text_list(c, i);
}

/// Neither of the two byte strings starts the other, unless they are the same. This is what it
/// takes of the byte form of a provider to end by itself.
pub open spec fn prefix_free(x: Seq<u8>, y: Seq<u8>) -> bool {
    x.is_prefix_of(y) || y.is_prefix_of(x) ==> x == y
}

/// Byte strings of which neither starts the other are the same if they stand at the same place.
proof fn lemma_prefix_free(c: Seq<u8>, i: int, x: Seq<u8>, y: Seq<u8>)
    requires
        prefix_free(x, y),
        crate::codec::stands_at(c, i, x),
        crate::codec::stands_at(c, i, y),
    ensures
        x == y,
{
    if x.len() <= y.len() {
        assert(y.subrange(0, x.len() as int) =~= c.subrange(i, i + x.len()));
        assert(x.is_prefix_of(y));
    } else {
        assert(x.subrange(0, y.len() as int) =~= c.subrange(i, i + y.len()));
        assert(y.is_prefix_of(x));
    }
}

/// The digest of a set of toolchains covers every field: where the byte forms of providers end by
/// themselves, sets that differ in a type, a constraint, an order or the byte form of a provider
/// are written differently.
pub proof fn law_toolchains_content(
    a: Seq<ToolchainModel<Seq<u8>>>,
    b: Seq<ToolchainModel<Seq<u8>>>,
)
    requires
        crate::nodes::toolchains_fit(a),
        crate::nodes::toolchains_fit(b),
        forall|i: int, j: int|
            0 <= i < a.len() && 0 <= j < b.len() ==> prefix_free(
                (#[trigger] a[i]).info,
                (#[trigger] b[j]).info,
            ),
    ensures
        crate::nodes::toolchains_content(a) == crate::nodes::toolchains_content(b) <==> a == b,
{
    let c = crate::nodes::toolchains_content(a);
    if c == crate::nodes::toolchains_content(b) {
        crate::codec::lemma_stands_whole(c, c);
        lemma_counted(
            c,
            0,
            a.len(),
            crate::nodes::toolchains_bytes(a),
            b.len(),
            crate::nodes::toolchains_bytes(b),
        );
        lemma_toolchains_bytes(c, 8, a, b);
    }
}

/// Two runs of as many toolchains that stand at the same place are the same.
proof fn lemma_toolchains_bytes(
    c: Seq<u8>,
    i: int,
    a: Seq<ToolchainModel<Seq<u8>>>,
    b: Seq<ToolchainModel<Seq<u8>>>,
)
    requires
        a.len() == b.len(),
        crate::nodes::toolchains_fit(a),
        crate::nodes::toolchains_fit(b),
        forall|i: int, j: int|
            0 <= i < a.len() && 0 <= j < b.len() ==> prefix_free(
                (#[trigger] a[i]).info,
                (#[trigger] b[j]).info,
            ),
        crate::codec::stands_at(c, i, crate::nodes::toolchains_bytes(a)),
        crate::codec::stands_at(c, i, crate::nodes::toolchains_bytes(b)),
    ensures
        a == b,
    decreases a.len(),
{
    if a.len() == 0 {
        assert(a =~= b);
    } else {
        let (x, y) = (a.drop_last(), b.drop_last());
        let (s, t) = (a.last(), b.last());
        crate::codec::lemma_stands_concat(
            c,
            i,
            crate::nodes::toolchains_bytes(x),
            crate::nodes::toolchain_bytes(s),
        );
        crate::codec::lemma_stands_concat(
            c,
            i,
            crate::nodes::toolchains_bytes(y),
            crate::nodes::toolchain_bytes(t),
        );
        assert forall|j: int| 0 <= j < x.len() implies crate::nodes::toolchain_fits(
            #[trigger] x[j],
        ) by {
            assert(x[j] == a[j]);
        }
        assert forall|j: int| 0 <= j < y.len() implies crate::nodes::toolchain_fits(
            #[trigger] y[j],
        ) by {
            assert(y[j] == b[j]);
        }
        assert forall|m: int, n: int|
            0 <= m < x.len() && 0 <= n < y.len() implies prefix_free(
            (#[trigger] x[m]).info,
            (#[trigger] y[n]).info,
        ) by {
            assert(x[m] == a[m] && y[n] == b[n]);
        }
        lemma_toolchains_bytes(c, i, x, y);
        assert(a[a.len() - 1] == s && b[b.len() - 1] == t);
        assert(crate::nodes::toolchain_fits(s) && crate::nodes::toolchain_fits(t));
        let k = i + crate::nodes::toolchains_bytes(x).len();
        lemma_toolchain_bytes(c, k, s, t);
        assert(a =~= x.push(s));
        assert(b =~= y.push(t));
    }
}

/// Two toolchains that stand at the same place are the same.
proof fn lemma_toolchain_bytes(
    c: Seq<u8>,
    i: int,
    s: ToolchainModel<Seq<u8>>,
    t: ToolchainModel<Seq<u8>>,
)
    requires
        crate::nodes::toolchain_fits(s),
        crate::nodes::toolchain_fits(t),
        prefix_free(s.info, t.info),
        crate::codec::stands_at(c, i, crate::nodes::toolchain_bytes(s)),
        crate::codec::stands_at(c, i, crate::nodes::toolchain_bytes(t)),
    ensures
        s == t,
{
    let (s3, t3) = (
        crate::codec::text_list_bytes(s.runs_on) + s.info,
        crate::codec::text_list_bytes(t.runs_on) + t.info,
    );
    let (s2, t2) = (
        crate::codec::text_list_bytes(s.target) + s3,
        crate::codec::text_list_bytes(t.target) + t3,
    );
    lemma_text_then(c, i, s.ty, s2, t.ty, t2);
    let i2 = i + crate::codec::text_bytes(s.ty).len();
    lemma_text_list_then(c, i2, s.target, s3, t.target, t3);
    let i3 = i2 + crate::codec::text_list_bytes(s.target).len();
    lemma_text_list_then(c, i3, s.runs_on, s.info, t.runs_on, t.info);
    lemma_prefix_free(c, i3 + crate::codec::text_list_bytes(s.runs_on).len(), s.info, t.info);
}

/// The ids of a list of resolved types.
pub open spec fn choice_types(list: Seq<ChoiceModel>) -> Seq<Seq<char>> {
    list.map_values(|c: ChoiceModel| c.ty)
}

/// The digest of a context covers every field: where the byte forms of providers end by
/// themselves, contexts that differ in one of the two platforms, a type or the byte form of a
/// provider are written differently.
pub proof fn law_context_content(
    selected: Seq<char>,
    target: Seq<char>,
    a: Seq<ChoiceModel>,
    other_selected: Seq<char>,
    other_target: Seq<char>,
    b: Seq<ChoiceModel>,
)
    requires
        crate::nodes::context_fits(selected, target, choice_types(a)),
        crate::nodes::context_fits(other_selected, other_target, choice_types(b)),
        forall|i: int, j: int|
            0 <= i < a.len() && 0 <= j < b.len() ==> prefix_free(
                (#[trigger] a[i]).info,
                (#[trigger] b[j]).info,
            ),
    ensures
        crate::nodes::context_content(selected, target, a) == crate::nodes::context_content(
            other_selected,
            other_target,
            b,
        ) <==> selected == other_selected && target == other_target && a == b,
{
    let c = crate::nodes::context_content(selected, target, a);
    if c == crate::nodes::context_content(other_selected, other_target, b) {
        crate::codec::lemma_stands_whole(c, c);
        let (p, q) = (crate::nodes::choices_bytes(a), crate::nodes::choices_bytes(b));
        let (p3, q3) = (
            crate::codec::count_bytes(a.len()) + p,
            crate::codec::count_bytes(b.len()) + q,
        );
        let (p2, q2) = (
            crate::codec::text_bytes(target) + p3,
            crate::codec::text_bytes(other_target) + q3,
        );
        lemma_text_then(c, 0, selected, p2, other_selected, q2);
        let i2 = crate::codec::text_bytes(selected).len() as int;
        lemma_text_then(c, i2, target, p3, other_target, q3);
        let i3 = i2 + crate::codec::text_bytes(target).len();
        assert(choice_types(a).len() == a.len() && choice_types(b).len() == b.len());
        lemma_counted(c, i3, a.len(), p, b.len(), q);
        lemma_choices_bytes(c, i3 + 8, a, b);
    }
}

/// The digest of a context is taken over its types in one order only: contexts with the same types
/// list them in the same order, and contexts with different types list different ones.
pub proof fn law_context_content_is_determined<U, V>(
    m: Map<Seq<char>, U>,
    s: Seq<Seq<char>>,
    n: Map<Seq<char>, V>,
    t: Seq<Seq<char>>,
)
    requires
        crate::nodes::types_in_order(m, s),
        crate::nodes::types_in_order(n, t),
    ensures
        s == t <==> m.dom() == n.dom(),
{
    if m.dom() == n.dom() {
        assert forall|x: Seq<char>| s.contains(x) <==> t.contains(x) by {
            assert(m.dom().contains(x) <==> s.contains(x));
            assert(n.dom().contains(x) <==> t.contains(x));
        }
        crate::order::lemma_sorted_unique(s, t);
    }
    if s == t {
        assert(m.dom() =~= n.dom());
    }
}

/// Two runs of as many resolved types that stand at the same place are the same.
proof fn lemma_choices_bytes(c: Seq<u8>, i: int, a: Seq<ChoiceModel>, b: Seq<ChoiceModel>)
    requires
        a.len() == b.len(),
        crate::codec::texts_fit(choice_types(a)),
        crate::codec::texts_fit(choice_types(b)),
        forall|i: int, j: int|
            0 <= i < a.len() && 0 <= j < b.len() ==> prefix_free(
                (#[trigger] a[i]).info,
                (#[trigger] b[j]).info,
            ),
        crate::codec::stands_at(c, i, crate::nodes::choices_bytes(a)),
        crate::codec::stands_at(c, i, crate::nodes::choices_bytes(b)),
    ensures
        a == b,
    decreases a.len(),
{
    if a.len() == 0 {
        assert(a =~= b);
    } else {
        let (x, y) = (a.drop_last(), b.drop_last());
        let (s, t) = (a.last(), b.last());
        crate::codec::lemma_stands_concat(
            c,
            i,
            crate::nodes::choices_bytes(x),
            crate::nodes::choice_bytes(s),
        );
        crate::codec::lemma_stands_concat(
            c,
            i,
            crate::nodes::choices_bytes(y),
            crate::nodes::choice_bytes(t),
        );
        assert forall|j: int| 0 <= j < x.len() implies vstd::utf8::encode_utf8(
            #[trigger] choice_types(x)[j],
        ).len() <= u64::MAX by {
            assert(choice_types(x)[j] == choice_types(a)[j]);
        }
        assert forall|j: int| 0 <= j < y.len() implies vstd::utf8::encode_utf8(
            #[trigger] choice_types(y)[j],
        ).len() <= u64::MAX by {
            assert(choice_types(y)[j] == choice_types(b)[j]);
        }
        assert forall|m: int, n: int|
            0 <= m < x.len() && 0 <= n < y.len() implies prefix_free(
            (#[trigger] x[m]).info,
            (#[trigger] y[n]).info,
        ) by {
            assert(x[m] == a[m] && y[n] == b[n]);
        }
        lemma_choices_bytes(c, i, x, y);
        let k = i + crate::nodes::choices_bytes(x).len();
        assert(choice_types(a)[a.len() - 1] == s.ty && choice_types(b)[b.len() - 1] == t.ty);
        assert(a[a.len() - 1] == s && b[b.len() - 1] == t);
        lemma_text_then(c, k, s.ty, s.info, t.ty, t.info);
        lemma_prefix_free(c, k + crate::codec::text_bytes(s.ty).len(), s.info, t.info);
        assert(a =~= x.push(s));
        assert(b =~= y.push(t));
    }
}

} // verus!
