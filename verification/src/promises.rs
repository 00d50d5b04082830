//! What resolution answers, said of what is handed in: of the lists of constraints, the requests
//! and the registered sets themselves.

use crate::context::{Demand, ToolchainContextFn};
use crate::error::{Error, ErrorModel};
use crate::keys::{ContextKeyModel, NodeKey, ToolchainContextKey};
use crate::nodes::{ComputeResult, ContextModel, NodeValue, ResolvedToolchainContextValue};
use crate::types::{
    contains_constraint, resolve, satisfies_all, Constraint, ExecPlatformModel, Platform,
    RegisteredExecPlatform, RegisteredToolchain, ReqModel, ToolchainModel, ToolchainType,
};
use vstd::prelude::*;

verus! {

// ---------------------------------------------------------------------------------------------
// One type
// ---------------------------------------------------------------------------------------------

/// A list satisfies another one exactly if it holds each of its constraints.
pub proof fn law_satisfies_all(
    provided: &[Constraint],
    required: &[Constraint],
    one: &Constraint,
    all: bool,
    held: bool,
)
    requires
        call_ensures(satisfies_all, (provided, required), all),
        call_ensures(contains_constraint, (provided, one), held),
    ensures
        held <==> exists|i: int| 0 <= i < provided@.len() && (#[trigger] provided@[i]).0@ == one.0@,
        all <==> forall|k: int|
            0 <= k < required@.len() ==> crate::types::labels(provided@).contains(
                (#[trigger] required@[k]).0@,
            ),
{
    let p = crate::types::labels(provided@);
    let q = crate::types::labels(required@);
    if held {
        let i = choose|i: int| 0 <= i < p.len() && p[i] == one@;
        assert(provided@[i].0@ == one.0@);
    }
    if exists|i: int| 0 <= i < provided@.len() && (#[trigger] provided@[i]).0@ == one.0@ {
        let i = choose|i: int| 0 <= i < provided@.len() && (#[trigger] provided@[i]).0@ == one.0@;
        assert(p[i] == one@);
    }
    assert forall|k: int| 0 <= k < required@.len() implies q[k] == (#[trigger] required@[k]).0@ by {}
}

/// What `resolve` finds is a registered toolchain of the type, all of whose target constraints the
/// platform has; every earlier toolchain of the type requires one that the platform lacks.
pub proof fn law_resolve_finds<I: Clone>(
    platform: &Platform,
    required: &ToolchainType,
    registered: &[RegisteredToolchain<I>],
    r: Result<I, Error>,
) -> (i: int)
    requires
        call_ensures(resolve::<I>, (platform, required, registered), r),
        r is Ok,
    ensures
        0 <= i < registered@.len(),
        registered@[i].toolchain_type.0@ == required.0@,
        forall|k: int|
            0 <= k < registered@[i]@.target.len() ==> platform@.contains(
                #[trigger] registered@[i]@.target[k],
            ),
        cloned(registered@[i].info, r->Ok_0),
        forall|j: int|
            0 <= j < i && (#[trigger] registered@[j]).toolchain_type.0@ == required.0@
                ==> exists|k: int|
                0 <= k < registered@[j]@.target.len() && !platform@.contains(
                    #[trigger] registered@[j]@.target[k],
                ),
{
    let models = crate::types::toolchains(registered@);
    let i = choose|i: int|
        crate::types::first_for_target(models, required@, platform@, i) && cloned(
            registered@[i].info,
            r->Ok_0,
        );
    assert forall|k: int| 0 <= k < registered@[i]@.target.len() implies platform@.contains(
        #[trigger] registered@[i]@.target[k],
    ) by {
        assert(platform@.contains(models[i].target[k]));
    }
    assert forall|j: int|
        0 <= j < i && (#[trigger] registered@[j]).toolchain_type.0@ == required.0@ implies exists|
        k: int,
    |
        0 <= k < registered@[j]@.target.len() && !platform@.contains(
            #[trigger] registered@[j]@.target[k],
        ) by {
        assert(!crate::types::fits_target(models[j], required@, platform@));
        let k = choose|k: int|
            0 <= k < models[j].target.len() && !platform@.contains(#[trigger] models[j].target[k]);
        assert(!platform@.contains(registered@[j]@.target[k]));
    }
    i
}

/// `resolve` refuses only where every registered toolchain of the type requires a constraint that
/// the platform lacks, and then it names the type.
pub proof fn law_resolve_refuses<I: Clone>(
    platform: &Platform,
    required: &ToolchainType,
    registered: &[RegisteredToolchain<I>],
    r: Result<I, Error>,
)
    requires
        call_ensures(resolve::<I>, (platform, required, registered), r),
        r is Err,
    ensures
        forall|j: int|
            0 <= j < registered@.len() && (#[trigger] registered@[j]).toolchain_type.0@
                == required.0@ ==> exists|k: int|
                0 <= k < registered@[j]@.target.len() && !platform@.contains(
                    #[trigger] registered@[j]@.target[k],
                ),
        r->Err_0 matches Error::NotFound { what, detail } && what@ == "toolchain"@ && detail@
            == "no registered toolchain of type '"@ + required.0@
            + "' is compatible with the target platform"@,
{
    let models = crate::types::toolchains(registered@);
    assert forall|j: int|
        0 <= j < registered@.len() && (#[trigger] registered@[j]).toolchain_type.0@
            == required.0@ implies exists|k: int|
        0 <= k < registered@[j]@.target.len() && !platform@.contains(
            #[trigger] registered@[j]@.target[k],
        ) by {
        assert(!crate::types::fits_target(models[j], required@, platform@));
        let k = choose|k: int|
            0 <= k < models[j].target.len() && !platform@.contains(#[trigger] models[j].target[k]);
        assert(!platform@.contains(registered@[j]@.target[k]));
    }
}

// ---------------------------------------------------------------------------------------------
// A whole context
// ---------------------------------------------------------------------------------------------

/// What a resolved context is, in terms of the request and of what is registered. `i` is the
/// position of the selected platform among the registered ones and the host behind them.
///
/// It bears the forced name, if there is one, and has every constraint that the key asks for. Each
/// mandatory type has a value. A requested type has a value exactly if some registered toolchain
/// of the type has all its target constraints in the target platform and all its execution
/// constraints in the selected platform, and the value is the provider of the first such one.
/// Every other platform that could have been selected supplies at most as many types, and as many
/// only if it comes later: `supply` is the set of types that the platform at `j` supplies.
pub proof fn law_chosen_context<I>(
    definitions: Map<Seq<char>, Seq<Seq<char>>>,
    host: ExecPlatformModel,
    k: ContextKeyModel,
    registered: Seq<ToolchainModel<I>>,
    exec_platforms: Seq<ExecPlatformModel>,
    platforms: Seq<ExecPlatformModel>,
    target: Seq<Seq<char>>,
    c: ContextModel<I>,
) -> (i: int)
    requires
        platforms == exec_platforms.push(host),
        target == definitions[k.configuration],
        crate::context::context_of(definitions, host, k, registered, exec_platforms) == Ok::<
            ContextModel<I>,
            ErrorModel,
        >(c),
    ensures
        definitions.dom().contains(k.configuration),
        c.target == k.configuration,
        0 <= i < platforms.len(),
        c.selected == platforms[i].name,
        k.forced matches Some(name) ==> c.selected == name,
        forall|x: int|
            0 <= x < k.labels.len() ==> platforms[i].constraints.contains(#[trigger] k.labels[x]),
        forall|q: int|
            0 <= q < k.types.len() && (#[trigger] k.types[q]).mandatory
                ==> c.resolved.dom().contains(k.types[q].ty),
        forall|q: int, t: int|
            0 <= q < k.types.len() && 0 <= t < registered.len() && (#[trigger] registered[t]).ty
                == (#[trigger] k.types[q]).ty && (forall|x: int|
                0 <= x < registered[t].target.len() ==> target.contains(
                    #[trigger] registered[t].target[x],
                )) && (forall|x: int|
                0 <= x < registered[t].runs_on.len() ==> platforms[i].constraints.contains(
                    #[trigger] registered[t].runs_on[x],
                )) ==> c.resolved.dom().contains(k.types[q].ty),
        forall|ty: Seq<char>| #[trigger]
            c.resolved.dom().contains(ty) ==> (exists|q: int|
                0 <= q < k.types.len() && (#[trigger] k.types[q]).ty == ty) && (exists|t: int|
                0 <= t < registered.len() && (#[trigger] registered[t]).ty == ty
                    && c.resolved[ty] == registered[t].info && (forall|x: int|
                    0 <= x < registered[t].target.len() ==> target.contains(
                        #[trigger] registered[t].target[x],
                    )) && (forall|x: int|
                    0 <= x < registered[t].runs_on.len() ==> platforms[i].constraints.contains(
                        #[trigger] registered[t].runs_on[x],
                    )) && (forall|s: int|
                    0 <= s < t && (#[trigger] registered[s]).ty == ty ==> (exists|x: int|
                        0 <= x < registered[s].target.len() && !target.contains(
                            #[trigger] registered[s].target[x],
                        )) || (exists|x: int|
                        0 <= x < registered[s].runs_on.len()
                            && !platforms[i].constraints.contains(
                            #[trigger] registered[s].runs_on[x],
                        )))),
        forall|j: int, supply: Set<Seq<char>>|
            #![trigger platforms[j], supply.len()]
            0 <= j < platforms.len() && (k.forced matches Some(name) ==> platforms[j].name == name)
                && (forall|x: int|
                0 <= x < k.labels.len() ==> platforms[j].constraints.contains(
                    #[trigger] k.labels[x],
                )) && (forall|q: int|
                0 <= q < k.types.len() && (#[trigger] k.types[q]).mandatory ==> supply.contains(
                    k.types[q].ty,
                )) && (forall|ty: Seq<char>| #[trigger]
                supply.contains(ty) <==> (exists|q: int|
                    0 <= q < k.types.len() && (#[trigger] k.types[q]).ty == ty) && (exists|t: int|
                    0 <= t < registered.len() && (#[trigger] registered[t]).ty == ty && (forall|
                        x: int,
                    |
                        0 <= x < registered[t].target.len() ==> target.contains(
                            #[trigger] registered[t].target[x],
                        )) && (forall|x: int|
                        0 <= x < registered[t].runs_on.len() ==> platforms[j].constraints.contains(
                            #[trigger] registered[t].runs_on[x],
                        )))) ==> supply.len() <= c.resolved.dom().len() && (supply.len()
                == c.resolved.dom().len() ==> i <= j),
{
    crate::laws::law_choice_is_unique(k, registered, target, platforms);
    let i = choose|i: int| crate::context::is_best(k, registered, target, platforms, i);
    assert(crate::context::is_best(k, registered, target, platforms, i));
    let on = platforms[i].constraints;
    assert forall|q: int, t: int|
        0 <= q < k.types.len() && 0 <= t < registered.len() && (#[trigger] registered[t]).ty == (
        #[trigger] k.types[q]).ty && (forall|x: int|
            0 <= x < registered[t].target.len() ==> target.contains(
                #[trigger] registered[t].target[x],
            )) && (forall|x: int|
            0 <= x < registered[t].runs_on.len() ==> platforms[i].constraints.contains(
                #[trigger] registered[t].runs_on[x],
            )) implies c.resolved.dom().contains(k.types[q].ty) by {
        assert(crate::context::fits(registered[t], k.types[q].ty, target, on));
    }
    assert forall|ty: Seq<char>| #[trigger] c.resolved.dom().contains(ty) implies (exists|q: int|
        0 <= q < k.types.len() && (#[trigger] k.types[q]).ty == ty) && (exists|t: int|
        0 <= t < registered.len() && (#[trigger] registered[t]).ty == ty && c.resolved[ty]
            == registered[t].info && (forall|x: int|
            0 <= x < registered[t].target.len() ==> target.contains(
                #[trigger] registered[t].target[x],
            )) && (forall|x: int|
            0 <= x < registered[t].runs_on.len() ==> platforms[i].constraints.contains(
                #[trigger] registered[t].runs_on[x],
            )) && (forall|s: int|
            0 <= s < t && (#[trigger] registered[s]).ty == ty ==> (exists|x: int|
                0 <= x < registered[s].target.len() && !target.contains(
                    #[trigger] registered[s].target[x],
                )) || (exists|x: int|
                0 <= x < registered[s].runs_on.len() && !platforms[i].constraints.contains(
                    #[trigger] registered[s].runs_on[x],
                )))) by {
        crate::laws::lemma_first_fit_exists(registered, ty, target, on);
        let t = choose|t: int| crate::context::first_fit(registered, ty, target, on, t);
        assert(registered[t].ty == ty);
        assert forall|s: int| 0 <= s < t && (#[trigger] registered[s]).ty == ty implies (exists|
            x: int,
        |
            0 <= x < registered[s].target.len() && !target.contains(
                #[trigger] registered[s].target[x],
            )) || (exists|x: int|
            0 <= x < registered[s].runs_on.len() && !platforms[i].constraints.contains(
                #[trigger] registered[s].runs_on[x],
            )) by {
            assert(!crate::context::fits(registered[s], ty, target, on));
        }
    }
    assert forall|j: int, supply: Set<Seq<char>>|
        #![trigger platforms[j], supply.len()]
        0 <= j < platforms.len() && (k.forced matches Some(name) ==> platforms[j].name == name) && (
        forall|x: int|
            0 <= x < k.labels.len() ==> platforms[j].constraints.contains(#[trigger] k.labels[x]))
            && (forall|q: int|
            0 <= q < k.types.len() && (#[trigger] k.types[q]).mandatory ==> supply.contains(
                k.types[q].ty,
            )) && (forall|ty: Seq<char>| #[trigger]
            supply.contains(ty) <==> (exists|q: int|
                0 <= q < k.types.len() && (#[trigger] k.types[q]).ty == ty) && (exists|t: int|
                0 <= t < registered.len() && (#[trigger] registered[t]).ty == ty && (forall|x: int|
                    0 <= x < registered[t].target.len() ==> target.contains(
                        #[trigger] registered[t].target[x],
                    )) && (forall|x: int|
                    0 <= x < registered[t].runs_on.len() ==> platforms[j].constraints.contains(
                        #[trigger] registered[t].runs_on[x],
                    )))) implies supply.len() <= c.resolved.dom().len() && (supply.len()
        == c.resolved.dom().len() ==> i <= j) by {
        lemma_supply(registered, k.types, target, platforms[j].constraints, supply);
        assert(crate::context::is_viable(k, registered, target, platforms[j]));
    }
    i
}

/// What a platform supplies is determined by which toolchains fit it.
proof fn lemma_supply<I>(
    registered: Seq<ToolchainModel<I>>,
    types: Seq<ReqModel>,
    target: Seq<Seq<char>>,
    host: Seq<Seq<char>>,
    supply: Set<Seq<char>>,
)
    requires
        forall|ty: Seq<char>| #[trigger]
            supply.contains(ty) <==> (exists|q: int|
                0 <= q < types.len() && (#[trigger] types[q]).ty == ty) && (exists|t: int|
                0 <= t < registered.len() && (#[trigger] registered[t]).ty == ty && (forall|x: int|
                    0 <= x < registered[t].target.len() ==> target.contains(
                        #[trigger] registered[t].target[x],
                    )) && (forall|x: int|
                    0 <= x < registered[t].runs_on.len() ==> host.contains(
                        #[trigger] registered[t].runs_on[x],
                    ))),
    ensures
        supply == crate::context::supplied(registered, types, target, host).dom(),
{
    let m = crate::context::supplied(registered, types, target, host);
    assert forall|ty: Seq<char>| supply.contains(ty) <==> m.dom().contains(ty) by {
        if supply.contains(ty) {
            let t = choose|t: int|
                0 <= t < registered.len() && (#[trigger] registered[t]).ty == ty && (forall|x: int|
                    0 <= x < registered[t].target.len() ==> target.contains(
                        #[trigger] registered[t].target[x],
                    )) && (forall|x: int|
                    0 <= x < registered[t].runs_on.len() ==> host.contains(
                        #[trigger] registered[t].runs_on[x],
                    ));
            assert(crate::context::fits(registered[t], ty, target, host));
        }
        if m.dom().contains(ty) {
            let t = choose|t: int|
                0 <= t < registered.len() && crate::context::fits(
                    #[trigger] registered[t],
                    ty,
                    target,
                    host,
                );
            assert(registered[t].ty == ty);
        }
    }
    assert(supply =~= m.dom());
}

/// With which error a request is refused: for a target platform that is not defined, with its name;
/// for a forced platform where none bears the name, with that name; else with the mandatory types,
/// in the order of the requests, and the target platform.
pub proof fn law_refused_context<I>(
    definitions: Map<Seq<char>, Seq<Seq<char>>>,
    host: ExecPlatformModel,
    k: ContextKeyModel,
    registered: Seq<ToolchainModel<I>>,
    exec_platforms: Seq<ExecPlatformModel>,
    platforms: Seq<ExecPlatformModel>,
    target: Seq<Seq<char>>,
    e: ErrorModel,
)
    requires
        platforms == exec_platforms.push(host),
        target == definitions[k.configuration],
        crate::context::context_of(definitions, host, k, registered, exec_platforms) == Err::<
            ContextModel<I>,
            ErrorModel,
        >(e),
    ensures
        !definitions.dom().contains(k.configuration) ==> e == (ErrorModel::NotFound {
            what: "platform"@,
            detail: k.configuration,
        }),
        definitions.dom().contains(k.configuration) && (k.forced matches Some(name) && forall|
            j: int,
        |
            0 <= j < platforms.len() ==> (#[trigger] platforms[j]).name != name) ==> e == (
        ErrorModel::NotFound {
            what: "forced exec platform"@,
            detail: "'"@ + k.forced->Some_0
                + "' is not a registered execution platform (nor the host)"@,
        }),
        definitions.dom().contains(k.configuration) && (k.forced matches Some(name) ==> exists|
            j: int,
        |
            0 <= j < platforms.len() && (#[trigger] platforms[j]).name == name) ==> e == (
        ErrorModel::NotFound {
            what: "toolchain"@,
            detail: "no execution platform supplies all mandatory toolchain type(s) ["@
                + crate::text::comma_separated(
                k.types.filter(|r: ReqModel| r.mandatory).map_values(|r: ReqModel| r.ty),
            ) + "] for target platform '"@ + k.configuration + "'"@,
        }),
{
    lemma_mandatory_types_are(k.types);
}

/// Where a request for a defined target platform is refused, each platform `j` that could be
/// selected misses a mandatory type, the one at `q`: every registered toolchain of that type
/// requires a constraint that the target or the platform lacks.
pub proof fn law_refused_candidate<I>(
    definitions: Map<Seq<char>, Seq<Seq<char>>>,
    host: ExecPlatformModel,
    k: ContextKeyModel,
    registered: Seq<ToolchainModel<I>>,
    exec_platforms: Seq<ExecPlatformModel>,
    platforms: Seq<ExecPlatformModel>,
    target: Seq<Seq<char>>,
    j: int,
) -> (q: int)
    requires
        platforms == exec_platforms.push(host),
        target == definitions[k.configuration],
        definitions.dom().contains(k.configuration),
        crate::context::context_of(definitions, host, k, registered, exec_platforms) is Err,
        0 <= j < platforms.len(),
        k.forced matches Some(name) ==> platforms[j].name == name,
        forall|x: int|
            0 <= x < k.labels.len() ==> platforms[j].constraints.contains(#[trigger] k.labels[x]),
    ensures
        0 <= q < k.types.len(),
        k.types[q].mandatory,
        forall|t: int|
            0 <= t < registered.len() && (#[trigger] registered[t]).ty == k.types[q].ty ==> (exists|
                x: int,
            |
                0 <= x < registered[t].target.len() && !target.contains(
                    #[trigger] registered[t].target[x],
                )) || (exists|x: int|
                0 <= x < registered[t].runs_on.len() && !platforms[j].constraints.contains(
                    #[trigger] registered[t].runs_on[x],
                )),
{
    crate::laws::law_context_fail_closed(definitions, host, k, registered, exec_platforms);
    let on = platforms[j].constraints;
    assert(!crate::context::is_viable(k, registered, target, platforms[j]));
    let m = crate::context::supplied(registered, k.types, target, on);
    let q = choose|q: int|
        0 <= q < k.types.len() && (#[trigger] k.types[q]).mandatory && !m.dom().contains(
            k.types[q].ty,
        );
    assert(crate::keys::requested(k.types, k.types[q].ty));
    assert forall|t: int|
        0 <= t < registered.len() && (#[trigger] registered[t]).ty == k.types[q].ty implies (
    exists|x: int|
        0 <= x < registered[t].target.len() && !target.contains(#[trigger] registered[t].target[x]))
        || (exists|x: int|
        0 <= x < registered[t].runs_on.len() && !platforms[j].constraints.contains(
            #[trigger] registered[t].runs_on[x],
        )) by {
        assert(!crate::context::fits(registered[t], k.types[q].ty, target, on));
    }
    q
}

/// The mandatory types are the types of the mandatory requests, in order.
proof fn lemma_mandatory_types_are(types: Seq<ReqModel>)
    ensures
        crate::context::mandatory_types(types) == types.filter(
            |r: ReqModel| r.mandatory,
        ).map_values(|r: ReqModel| r.ty),
    decreases types.len(),
{
    reveal(Seq::filter);
    let wanted = types.filter(|r: ReqModel| r.mandatory).map_values(|r: ReqModel| r.ty);
    if types.len() > 0 {
        let front = types.drop_last();
        lemma_mandatory_types_are(front);
        let before = front.filter(|r: ReqModel| r.mandatory).map_values(|r: ReqModel| r.ty);
        if types.last().mandatory {
            assert(wanted =~= before.push(types.last().ty));
        } else {
            assert(wanted =~= before);
        }
    } else {
        assert(wanted =~= seq![]);
    }
}

/// A comma-separated list holds its items in order, with `, ` between each two neighbours.
pub proof fn law_comma_separated(list: Seq<Seq<char>>, item: Seq<char>)
    ensures
        crate::text::comma_separated(seq![]) == Seq::<char>::empty(),
        crate::text::comma_separated(seq![item]) == item,
        list.len() > 0 ==> crate::text::comma_separated(list.push(item))
            == crate::text::comma_separated(list) + ", "@ + item,
{
    if list.len() > 0 {
        assert(list.push(item).drop_last() =~= list);
    }
}

/// Registered sets that agree in types and constraints resolve every key alike: to the same
/// platforms and types, each type to the provider at the same place, or to the same error. So
/// nothing that depends on a set changes where the set is exchanged for an equal one.
pub proof fn law_equal_sets_resolve_alike<I, J>(
    definitions: Map<Seq<char>, Seq<Seq<char>>>,
    host: ExecPlatformModel,
    k: ContextKeyModel,
    a: Seq<ToolchainModel<I>>,
    b: Seq<ToolchainModel<J>>,
    exec_platforms: Seq<ExecPlatformModel>,
)
    requires
        a.len() == b.len(),
        forall|i: int|
            0 <= i < a.len() ==> (#[trigger] a[i]).ty == b[i].ty && a[i].target == b[i].target
                && a[i].runs_on == b[i].runs_on,
    ensures
        match (
            crate::context::context_of(definitions, host, k, a, exec_platforms),
            crate::context::context_of(definitions, host, k, b, exec_platforms),
        ) {
            (Ok(c), Ok(d)) => {
                &&& c.selected == d.selected
                &&& c.target == d.target
                &&& c.resolved.dom() == d.resolved.dom()
                &&& forall|ty: Seq<char>| #[trigger]
                    c.resolved.dom().contains(ty) ==> exists|t: int|
                        0 <= t < a.len() && (#[trigger] a[t]).ty == ty && c.resolved[ty]
                            == a[t].info && d.resolved[ty] == b[t].info
            },
            (Err(x), Err(y)) => x == y,
            _ => false,
        },
{
    let platforms = exec_platforms.push(host);
    let target = definitions[k.configuration];
    assert forall|p: ExecPlatformModel|
        crate::context::is_viable(k, a, target, p) == crate::context::is_viable(k, b, target, p)
            && crate::context::supplied(a, k.types, target, p.constraints).dom()
            == crate::context::supplied(b, k.types, target, p.constraints).dom() by {
        lemma_equal_sets_supply(a, b, k.types, target, p.constraints);
    }
    assert forall|i: int| #[trigger]
        crate::context::is_best(k, a, target, platforms, i) == crate::context::is_best(
            k,
            b,
            target,
            platforms,
            i,
        ) by {}
    crate::laws::law_choice_is_unique(k, a, target, platforms);
    crate::laws::law_choice_is_unique(k, b, target, platforms);
    if crate::context::any_viable(k, a, target, platforms) {
        let i = choose|i: int| crate::context::is_best(k, a, target, platforms, i);
        let j = choose|j: int| crate::context::is_best(k, b, target, platforms, j);
        assert(i == j);
        assert(crate::context::is_viable(k, b, target, platforms[i]));
        lemma_equal_sets_supply(a, b, k.types, target, platforms[i].constraints);
    } else {
        assert forall|j: int| 0 <= j < platforms.len() implies !crate::context::is_viable(
            k,
            b,
            target,
            #[trigger] platforms[j],
        ) by {
            assert(!crate::context::is_viable(k, a, target, platforms[j]));
        }
    }
}

/// Registered sets that agree in types and constraints supply the same types, from the same
/// places.
proof fn lemma_equal_sets_supply<I, J>(
    a: Seq<ToolchainModel<I>>,
    b: Seq<ToolchainModel<J>>,
    types: Seq<ReqModel>,
    target: Seq<Seq<char>>,
    host: Seq<Seq<char>>,
)
    requires
        a.len() == b.len(),
        forall|i: int|
            0 <= i < a.len() ==> (#[trigger] a[i]).ty == b[i].ty && a[i].target == b[i].target
                && a[i].runs_on == b[i].runs_on,
    ensures
        crate::context::supplied(a, types, target, host).dom() == crate::context::supplied(
            b,
            types,
            target,
            host,
        ).dom(),
        forall|ty: Seq<char>| #[trigger]
            crate::context::supplied(a, types, target, host).dom().contains(ty) ==> exists|t: int|
                0 <= t < a.len() && (#[trigger] a[t]).ty == ty && crate::context::supplied(
                    a,
                    types,
                    target,
                    host,
                )[ty] == a[t].info && crate::context::supplied(b, types, target, host)[ty]
                    == b[t].info,
{
    let m = crate::context::supplied(a, types, target, host);
    let n = crate::context::supplied(b, types, target, host);
    assert forall|ty: Seq<char>| m.dom().contains(ty) <==> n.dom().contains(ty) by {
        if crate::context::any_fits(a, ty, target, host) {
            let t = choose|t: int|
                0 <= t < a.len() && crate::context::fits(#[trigger] a[t], ty, target, host);
            assert(crate::context::fits(b[t], ty, target, host));
        }
        if crate::context::any_fits(b, ty, target, host) {
            let t = choose|t: int|
                0 <= t < b.len() && crate::context::fits(#[trigger] b[t], ty, target, host);
            assert(crate::context::fits(a[t], ty, target, host));
        }
    }
    assert(m.dom() =~= n.dom());
    assert forall|ty: Seq<char>| #[trigger] m.dom().contains(ty) implies exists|t: int|
        0 <= t < a.len() && (#[trigger] a[t]).ty == ty && m[ty] == a[t].info && n[ty]
            == b[t].info by {
        crate::laws::lemma_first_fit_exists(a, ty, target, host);
        let t = choose|t: int| crate::context::first_fit(a, ty, target, host, t);
        assert forall|j: int| 0 <= j < t implies !crate::context::fits(
            #[trigger] b[j],
            ty,
            target,
            host,
        ) by {
            assert(!crate::context::fits(a[j], ty, target, host));
        }
        assert(crate::context::first_fit(b, ty, target, host, t));
        let u = choose|u: int| crate::context::first_fit(b, ty, target, host, u);
        crate::context::lemma_first_fit_unique(b, ty, target, host, t, u);
        assert(a[t].ty == ty);
    }
}

// ---------------------------------------------------------------------------------------------
// The node
// ---------------------------------------------------------------------------------------------

/// Resolving a key answers with the context that the key stands for, with clones of the
/// providers, or with the error.
pub proof fn law_resolve_context<I: Clone>(
    f: &ToolchainContextFn,
    key: &ToolchainContextKey,
    registered: &[RegisteredToolchain<I>],
    exec_platforms: Vec<RegisteredExecPlatform>,
    r: Result<ResolvedToolchainContextValue<I>, Error>,
)
    requires
        call_ensures(
            ToolchainContextFn::resolve_context::<I>,
            (f, key, registered, exec_platforms),
            r,
        ),
    ensures
        match crate::context::context_of(
            f@.definitions,
            f@.host,
            key@,
            crate::types::toolchains(registered@),
            crate::types::exec_platforms(exec_platforms@),
        ) {
            Ok(c) => r matches Ok(v) && v@.selected == c.selected && v@.target == c.target
                && v@.resolved.dom() == c.resolved.dom() && forall|ty: Seq<char>| #[trigger]
                c.resolved.dom().contains(ty) ==> cloned(c.resolved[ty], v@.resolved[ty]),
            Err(e) => r matches Err(x) && x@ == e,
        },
{
}

/// Computing the node of a key. Where an answer to one of its two requests is missing, what comes
/// back are the keys of the missing sets of the configuration, toolchains first, and nothing is
/// resolved. An answer of the wrong kind is an error that names the set. Else the key is resolved
/// against the two sets that were answered.
pub proof fn law_compute<I: Clone>(
    f: &ToolchainContextFn,
    key: &NodeKey,
    toolchains: Demand<I>,
    exec_platforms: Demand<I>,
    k: ToolchainContextKey,
    r: ComputeResult<I>,
)
    requires
        call_ensures(ToolchainContextFn::compute::<I>, (f, key, toolchains, exec_platforms), r),
        key.canonical@ == crate::keys::context_key_bytes(k@),
        key.canonical@.len() <= u64::MAX,
    ensures
        match (toolchains, exec_platforms) {
            (Demand::Missing, Demand::Missing) => r matches ComputeResult::Missing {
                recorded_dep_keys: d,
            } && d@.len() == 2 && d@[0].kind == 51 && d@[1].kind == 52 && d@[0].canonical@
                == crate::codec::text_bytes(k.configuration.0@) && d@[1].canonical@
                == crate::codec::text_bytes(k.configuration.0@),
            (Demand::Missing, Demand::Ready(_)) => r matches ComputeResult::Missing {
                recorded_dep_keys: d,
            } && d@.len() == 1 && d@[0].kind == 51 && d@[0].canonical@ == crate::codec::text_bytes(
                k.configuration.0@,
            ),
            (Demand::Ready(_), Demand::Missing) => r matches ComputeResult::Missing {
                recorded_dep_keys: d,
            } && d@.len() == 1 && d@[0].kind == 52 && d@[0].canonical@ == crate::codec::text_bytes(
                k.configuration.0@,
            ),
            (
                Demand::Ready(NodeValue::RegisteredToolchains(tools)),
                Demand::Ready(NodeValue::RegisteredExecutionPlatforms(platforms)),
            ) => match crate::context::context_of(
                f@.definitions,
                f@.host,
                k@,
                tools@,
                platforms@,
            ) {
                Ok(c) => r matches ComputeResult::Ready(NodeValue::ResolvedToolchainContext(v))
                    && v@.selected == c.selected && v@.target == c.target && v@.resolved.dom()
                    == c.resolved.dom() && forall|ty: Seq<char>| #[trigger]
                    c.resolved.dom().contains(ty) ==> cloned(c.resolved[ty], v@.resolved[ty]),
                Err(e) => r matches ComputeResult::Error(x) && x@ == e,
            },
            (Demand::Ready(NodeValue::RegisteredToolchains(_)), Demand::Ready(_)) => r matches ComputeResult::Error(
                Error::Invalid { what, detail },
            ) && what@ == "REGISTERED_EXECUTION_PLATFORMS value"@ && detail@
                == "not a RegisteredExecutionPlatformsValue"@,
            (Demand::Ready(_), Demand::Ready(_)) => r matches ComputeResult::Error(
                Error::Invalid { what, detail },
            ) && what@ == "REGISTERED_TOOLCHAINS value"@ && detail@
                == "not a RegisteredToolchainsValue"@,
        },
{
    crate::decoding::lemma_key_fits(k@);
    crate::laws::law_context_key_round_trip(k@);
    if let ComputeResult::Missing { recorded_dep_keys: d } = r {
        let models = crate::context::node_keys(d@);
        assert(models.len() == d@.len());
        assert(forall|i: int| 0 <= i < d@.len() ==> #[trigger] models[i] == d@[i]@);
        assert(models[0] == d@[0]@);
        if d@.len() == 2 {
            assert(models[1] == d@[1]@);
        }
    }
}

/// The node of bytes that are no key is an error, the one of decoding them, whatever the answers;
/// so are its dependencies.
pub proof fn law_compute_malformed<I: Clone>(
    f: &ToolchainContextFn,
    key: &NodeKey,
    toolchains: Demand<I>,
    exec_platforms: Demand<I>,
    r: ComputeResult<I>,
    d: Result<Vec<NodeKey>, Error>,
)
    requires
        call_ensures(ToolchainContextFn::compute::<I>, (f, key, toolchains, exec_platforms), r),
        call_ensures(ToolchainContextFn::dependencies, (f, key), d),
    ensures
        crate::keys::read_context_key(key.canonical@) matches Err(reason) ==> (
        r matches ComputeResult::Error(Error::Invalid { what, detail }) && what@
            == "TOOLCHAIN_CONTEXT key"@ && detail@ == reason) && (d matches Err(Error::Invalid {
            what,
            detail,
        }) && what@ == "TOOLCHAIN_CONTEXT key"@ && detail@ == reason),
{
}

/// The dependencies of the node of a key are the two registered sets of its configuration,
/// toolchains first.
pub proof fn law_dependencies(
    f: &ToolchainContextFn,
    key: &NodeKey,
    k: ToolchainContextKey,
    r: Result<Vec<NodeKey>, Error>,
)
    requires
        call_ensures(ToolchainContextFn::dependencies, (f, key), r),
        key.canonical@ == crate::keys::context_key_bytes(k@),
        key.canonical@.len() <= u64::MAX,
    ensures
        r matches Ok(d) && d@.len() == 2 && d@[0].kind == 51 && d@[1].kind == 52 && d@[0].canonical@
            == crate::codec::text_bytes(k.configuration.0@) && d@[1].canonical@
            == crate::codec::text_bytes(k.configuration.0@),
{
    crate::decoding::lemma_key_fits(k@);
    crate::laws::law_context_key_round_trip(k@);
    if let Ok(d) = r {
        let models = crate::context::node_keys(d@);
        assert(models.len() == d@.len());
        assert(models[0] == d@[0]@);
        assert(models[1] == d@[1]@);
    }
}

} // verus!
