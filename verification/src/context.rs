//! The toolchain context node: the target platform is derived from the configuration, one
//! execution platform is chosen, and each requested type is resolved for the two.

use crate::error::{Error, ErrorModel};
use crate::keys::{
    decode_ctx_key, ContextKeyModel, NodeKey, NodeKeyModel, RegisteredExecutionPlatformsKey,
    RegisteredToolchainsKey, ToolchainContextKey,
};
use crate::nodes::{
    ComputeResult, ContextModel, NodeValue, ResolvedToolchainContextValue,
};
use crate::typemap::TypeMap;
use crate::types::{
    satisfies_all, ConfigId, Constraint, ExecPlatformModel, Platform, RegisteredExecPlatform,
    RegisteredToolchain, ReqModel, ToolchainModel, ToolchainType, ToolchainTypeReq,
    REGISTERED_EXECUTION_PLATFORMS, REGISTERED_TOOLCHAINS,
};
use vstd::hash_map::StringHashMap;
use vstd::prelude::*;

verus! {

// ---------------------------------------------------------------------------------------------
// What a context is
// ---------------------------------------------------------------------------------------------

/// The toolchain `t` implements the type `ty`, can build for a platform with the constraints
/// `target` and can run on one with the constraints `host`.
pub open spec fn fits<I>(
    t: ToolchainModel<I>,
    ty: Seq<char>,
    target: Seq<Seq<char>>,
    host: Seq<Seq<char>>,
) -> bool {
    crate::types::fits_target(t, ty, target) && crate::types::satisfies(host, t.runs_on)
}

/// Some registered toolchain fits.
pub open spec fn any_fits<I>(
    registered: Seq<ToolchainModel<I>>,
    ty: Seq<char>,
    target: Seq<Seq<char>>,
    host: Seq<Seq<char>>,
) -> bool {
    exists|i: int| 0 <= i < registered.len() && fits(#[trigger] registered[i], ty, target, host)
}

/// The toolchain at `i` is the first one in registration order that fits.
pub open spec fn first_fit<I>(
    registered: Seq<ToolchainModel<I>>,
    ty: Seq<char>,
    target: Seq<Seq<char>>,
    host: Seq<Seq<char>>,
    i: int,
) -> bool {
    &&& 0 <= i < registered.len()
    &&& fits(registered[i], ty, target, host)
    &&& forall|j: int| 0 <= j < i ==> !fits(#[trigger] registered[j], ty, target, host)
}

/// What an execution platform with the constraints `host` supplies: for each requested type that
/// some toolchain fits, the provider of the first one.
pub open spec fn supplied<I>(
    registered: Seq<ToolchainModel<I>>,
    types: Seq<ReqModel>,
    target: Seq<Seq<char>>,
    host: Seq<Seq<char>>,
) -> Map<Seq<char>, I> {
    Map::new(
        |ty: Seq<char>|
            crate::keys::requested(types, ty) && any_fits(registered, ty, target, host),
        |ty: Seq<char>|
            registered[choose|i: int| first_fit(registered, ty, target, host, i)].info,
    )
}

/// Every mandatory type has a value in `m`.
pub open spec fn has_mandatory<V>(types: Seq<ReqModel>, m: Map<Seq<char>, V>) -> bool {
    forall|k: int|
        0 <= k < types.len() && (#[trigger] types[k]).mandatory ==> m.dom().contains(types[k].ty)
}

/// The execution platform `p` may be chosen under the key: it is the forced one, if one is forced,
/// and it satisfies the constraints that the key asks for.
pub open spec fn is_candidate(k: ContextKeyModel, p: ExecPlatformModel) -> bool {
    &&& k.forced matches Some(name) ==> p.name == name
    &&& crate::types::satisfies(p.constraints, k.labels)
}

/// The execution platform `p` may be chosen and supplies every mandatory type.
pub open spec fn is_viable<I>(
    k: ContextKeyModel,
    registered: Seq<ToolchainModel<I>>,
    target: Seq<Seq<char>>,
    p: ExecPlatformModel,
) -> bool {
    &&& is_candidate(k, p)
    &&& has_mandatory(k.types, supplied(registered, k.types, target, p.constraints))
}

/// How many of the requested types the execution platform `p` supplies.
pub open spec fn score<I>(
    k: ContextKeyModel,
    registered: Seq<ToolchainModel<I>>,
    target: Seq<Seq<char>>,
    p: ExecPlatformModel,
) -> nat {
    supplied(registered, k.types, target, p.constraints).dom().len()
}

/// The platform at `i` is the one to choose: viable, and of all viable ones the first of those
/// that supply the most types.
pub open spec fn is_best<I>(
    k: ContextKeyModel,
    registered: Seq<ToolchainModel<I>>,
    target: Seq<Seq<char>>,
    platforms: Seq<ExecPlatformModel>,
    i: int,
) -> bool {
    &&& 0 <= i < platforms.len()
    &&& is_viable(k, registered, target, platforms[i])
    &&& forall|j: int|
        0 <= j < platforms.len() && is_viable(k, registered, target, #[trigger] platforms[j])
            ==> score(k, registered, target, platforms[j]) < score(
            k,
            registered,
            target,
            platforms[i],
        ) || (score(k, registered, target, platforms[j]) == score(
            k,
            registered,
            target,
            platforms[i],
        ) && i <= j)
}

/// Some platform is viable.
pub open spec fn any_viable<I>(
    k: ContextKeyModel,
    registered: Seq<ToolchainModel<I>>,
    target: Seq<Seq<char>>,
    platforms: Seq<ExecPlatformModel>,
) -> bool {
    exists|i: int|
        0 <= i < platforms.len() && is_viable(k, registered, target, #[trigger] platforms[i])
}

/// The ids of the mandatory types, in the order of the requests.
pub open spec fn mandatory_types(types: Seq<ReqModel>) -> Seq<Seq<char>>
    decreases types.len(),
{
    if types.len() == 0 {
        seq![]
    } else {
        let front = mandatory_types(types.drop_last());
        if types.last().mandatory {
            front.push(types.last().ty)
        } else {
            front
        }
    }
}

/// The error for a target platform that is not defined.
pub open spec fn unknown_platform(name: Seq<char>) -> ErrorModel {
    ErrorModel::NotFound { what: "platform"@, detail: name }
}

/// The error for a forced execution platform that does not exist.
pub open spec fn unknown_forced(name: Seq<char>) -> ErrorModel {
    ErrorModel::NotFound {
        what: "forced exec platform"@,
        detail: "'"@ + name + "' is not a registered execution platform (nor the host)"@,
    }
}

/// The error for a request that no execution platform can serve. It names the mandatory types.
pub open spec fn unsupplied(types: Seq<ReqModel>, target: Seq<char>) -> ErrorModel {
    ErrorModel::NotFound {
        what: "toolchain"@,
        detail: "no execution platform supplies all mandatory toolchain type(s) ["@
            + crate::text::comma_separated(mandatory_types(types)) + "] for target platform '"@
            + target + "'"@,
    }
}

/// Some platform has the name.
pub open spec fn has_name(platforms: Seq<ExecPlatformModel>, name: Seq<char>) -> bool {
    exists|i: int| 0 <= i < platforms.len() && (#[trigger] platforms[i]).name == name
}

/// The context that a key stands for: `definitions` are the defined platforms, `host` is the last
/// candidate for the execution platform, behind the registered ones.
pub open spec fn context_of<I>(
    definitions: Map<Seq<char>, Seq<Seq<char>>>,
    host: ExecPlatformModel,
    k: ContextKeyModel,
    registered: Seq<ToolchainModel<I>>,
    exec_platforms: Seq<ExecPlatformModel>,
) -> Result<ContextModel<I>, ErrorModel> {
    let platforms = exec_platforms.push(host);
    let target = definitions[k.configuration];
    if !definitions.dom().contains(k.configuration) {
        Err(unknown_platform(k.configuration))
    } else if k.forced matches Some(name) && !has_name(platforms, name) {
        Err(unknown_forced(k.forced->Some_0))
    } else if any_viable(k, registered, target, platforms) {
        let best = platforms[choose|i: int| is_best(k, registered, target, platforms, i)];
        Ok(
            ContextModel {
                selected: best.name,
                target: k.configuration,
                resolved: supplied(registered, k.types, target, best.constraints),
            },
        )
    } else {
        Err(unsupplied(k.types, k.configuration))
    }
}

/// The first fit is unique.
pub proof fn lemma_first_fit_unique<I>(
    registered: Seq<ToolchainModel<I>>,
    ty: Seq<char>,
    target: Seq<Seq<char>>,
    host: Seq<Seq<char>>,
    i: int,
    j: int,
)
    requires
        first_fit(registered, ty, target, host, i),
        first_fit(registered, ty, target, host, j),
    ensures
        i == j,
{
    if i < j {
        assert(!fits(registered[i], ty, target, host));
    } else if j < i {
        assert(!fits(registered[j], ty, target, host));
    }
}

/// The platform to choose is unique.
pub proof fn lemma_best_unique<I>(
    k: ContextKeyModel,
    registered: Seq<ToolchainModel<I>>,
    target: Seq<Seq<char>>,
    platforms: Seq<ExecPlatformModel>,
    i: int,
    j: int,
)
    requires
        is_best(k, registered, target, platforms, i),
        is_best(k, registered, target, platforms, j),
    ensures
        i == j,
{
    assert(is_viable(k, registered, target, platforms[i]));
    assert(is_viable(k, registered, target, platforms[j]));
}

// ---------------------------------------------------------------------------------------------
// Resolution for one pair of platforms
// ---------------------------------------------------------------------------------------------

/// The name of the target platform of a configuration: the id of the configuration itself. This
/// is the one place at which the target platform is derived.
pub fn derive_target_platform(configuration: &ConfigId) -> (r: String)
    ensures
        r@ == configuration@,
{
    configuration.0.clone()
}

/// Whether resolution must fail without this type.
pub fn req_is_mandatory(req: &ToolchainTypeReq) -> (r: bool)
    ensures
        r == req@.mandatory,
{
    req.mandatory
}

/// The position of the first registered toolchain that fits type, target and execution platform.
fn find_fit<I>(
    registered: &[RegisteredToolchain<I>],
    ty: &ToolchainType,
    target: &[Constraint],
    host: &[Constraint],
) -> (r: Option<usize>)
    ensures
        match r {
            Some(i) => first_fit(
                crate::types::toolchains(registered@),
                ty@,
                crate::types::labels(target@),
                crate::types::labels(host@),
                i as int,
            ),
            None => !any_fits(
                crate::types::toolchains(registered@),
                ty@,
                crate::types::labels(target@),
                crate::types::labels(host@),
            ),
        },
{
    let ghost models = crate::types::toolchains(registered@);
    let ghost (tl, hl) = (crate::types::labels(target@), crate::types::labels(host@));
    let mut k: usize = 0;
    while k < registered.len()
        invariant
            k <= registered@.len(),
            models == crate::types::toolchains(registered@),
            tl == crate::types::labels(target@),
            hl == crate::types::labels(host@),
            forall|j: int| 0 <= j < k ==> !fits(#[trigger] models[j], ty@, tl, hl),
        decreases registered@.len() - k,
    {
        let t = &registered[k];
        assert(models[k as int] == t@);
        if t.toolchain_type.0 == ty.0 && satisfies_all(target, &t.target_compatible_with)
            && satisfies_all(host, &t.exec_compatible_with) {
            return Some(k);
        }
        k += 1;
    }
    None
}

/// What an execution platform with the constraints `host` supplies of the requested types.
fn supply<I: Clone>(
    registered: &[RegisteredToolchain<I>],
    types: &[ToolchainTypeReq],
    target: &[Constraint],
    host: &[Constraint],
) -> (m: TypeMap<I>)
    ensures
        crate::typemap::map_cloned(
            supplied(
                crate::types::toolchains(registered@),
                crate::types::reqs(types@),
                crate::types::labels(target@),
                crate::types::labels(host@),
            ),
            m@,
        ),
{
    let ghost models = crate::types::toolchains(registered@);
    let ghost list = crate::types::reqs(types@);
    let ghost (tl, hl) = (crate::types::labels(target@), crate::types::labels(host@));
    let mut m: TypeMap<I> = TypeMap::new();
    let mut k: usize = 0;
    assert(supplied(models, list.take(0), tl, hl).dom() =~= m@.dom());
    while k < types.len()
        invariant
            k <= types@.len(),
            models == crate::types::toolchains(registered@),
            list == crate::types::reqs(types@),
            tl == crate::types::labels(target@),
            hl == crate::types::labels(host@),
            crate::typemap::map_cloned(supplied(models, list.take(k as int), tl, hl), m@),
        decreases types@.len() - k,
    {
        let req = &types[k];
        let ghost before = supplied(models, list.take(k as int), tl, hl);
        let ghost after = supplied(models, list.take(k + 1), tl, hl);
        proof {
            crate::keys::lemma_requests_push(list, k as int);
            assert(list[k as int] == req@);
        }
        match find_fit(registered, &req.toolchain_type, target, host) {
            Some(i) => {
                let ghost ty = req.toolchain_type@;
                let info = registered[i].info.clone();
                m.insert(req.toolchain_type.clone(), info);
                proof {
                    let c = choose|c: int| first_fit(models, ty, tl, hl, c);
                    lemma_first_fit_unique(models, ty, tl, hl, c, i as int);
                    assert(models[i as int].info == registered@[i as int].info);
                    assert(after.dom() =~= before.dom().insert(ty));
                    assert(m@.dom() =~= after.dom());
                    assert forall|t: Seq<char>| #[trigger] after.dom().contains(t) implies cloned(
                        after[t],
                        m@[t],
                    ) by {
                        if t != ty {
                            assert(before.dom().contains(t));
                        }
                    }
                }
            },
            None => {
                assert(after =~= before);
            },
        }
        k += 1;
    }
    assert(list.take(k as int) =~= list);
    m
}

/// Whether every mandatory type has a value in `m`.
fn supplies_all_mandatory<V>(types: &[ToolchainTypeReq], m: &TypeMap<V>) -> (r: bool)
    ensures
        r == has_mandatory(crate::types::reqs(types@), m@),
{
    let ghost list = crate::types::reqs(types@);
    let mut k: usize = 0;
    while k < types.len()
        invariant
            k <= types@.len(),
            list == crate::types::reqs(types@),
            forall|j: int|
                0 <= j < k && (#[trigger] list[j]).mandatory ==> m@.dom().contains(list[j].ty),
        decreases types@.len() - k,
    {
        assert(list[k as int] == types@[k as int]@);
        if req_is_mandatory(&types[k]) && !m.contains_key(&types[k].toolchain_type) {
            return false;
        }
        k += 1;
    }
    true
}

/// The ids of the mandatory types as error messages list them.
fn mandatory_list(types: &[ToolchainTypeReq]) -> (r: String)
    ensures
        r@ == crate::text::comma_separated(mandatory_types(crate::types::reqs(types@))),
{
    let ghost list = crate::types::reqs(types@);
    let mut s: String = String::new();
    let mut empty: bool = true;
    let mut k: usize = 0;
    assert(list.take(0) =~= seq![]);
    while k < types.len()
        invariant
            k <= types@.len(),
            list == crate::types::reqs(types@),
            s@ == crate::text::comma_separated(mandatory_types(list.take(k as int))),
            empty == (mandatory_types(list.take(k as int)).len() == 0),
        decreases types@.len() - k,
    {
        let ghost before = mandatory_types(list.take(k as int));
        proof {
            assert(list.take(k + 1).drop_last() =~= list.take(k as int));
            assert(list.take(k + 1).last() == types@[k as int]@);
        }
        if req_is_mandatory(&types[k]) {
            let ty = types[k].toolchain_type.0.as_str();
            if !empty {
                s.append(", ");
            }
            s.append(ty);
            proof {
                let after = before.push(ty@);
                assert(after.drop_last() =~= before);
                assert(after.last() == ty@);
                assert(s@ =~= crate::text::comma_separated(after));
            }
            empty = false;
        }
        k += 1;
    }
    assert(list.take(k as int) =~= list);
    s
}

// ---------------------------------------------------------------------------------------------
// Choosing the execution platform
// ---------------------------------------------------------------------------------------------

/// Whether some platform has the name.
fn contains_name(platforms: &[RegisteredExecPlatform], name: &String) -> (r: bool)
    ensures
        r == has_name(crate::types::exec_platforms(platforms@), name@),
{
    let ghost models = crate::types::exec_platforms(platforms@);
    let mut k: usize = 0;
    while k < platforms.len()
        invariant
            k <= platforms@.len(),
            models == crate::types::exec_platforms(platforms@),
            forall|j: int| 0 <= j < k ==> (#[trigger] models[j]).name != name@,
        decreases platforms@.len() - k,
    {
        assert(models[k as int] == platforms@[k as int]@);
        if platforms[k].name == *name {
            return true;
        }
        k += 1;
    }
    false
}

/// Whether the execution platform may be chosen under the key.
fn may_choose(k: &ToolchainContextKey, p: &RegisteredExecPlatform) -> (r: bool)
    ensures
        r == is_candidate(k@, p@),
{
    let named = match &k.force_exec_platform {
        Some(name) => p.name == *name,
        None => true,
    };
    named && satisfies_all(&p.constraints, &k.exec_constraint_labels)
}

/// The position of the platform to choose, and what it supplies.
fn choose_platform<I: Clone>(
    k: &ToolchainContextKey,
    registered: &[RegisteredToolchain<I>],
    target: &Platform,
    platforms: &[RegisteredExecPlatform],
) -> (r: Option<(usize, TypeMap<I>)>)
    ensures
        match r {
            Some((i, m)) => {
                &&& is_best(
                    k@,
                    crate::types::toolchains(registered@),
                    target@,
                    crate::types::exec_platforms(platforms@),
                    i as int,
                )
                &&& crate::typemap::map_cloned(
                    supplied(
                        crate::types::toolchains(registered@),
                        k@.types,
                        target@,
                        platforms@[i as int]@.constraints,
                    ),
                    m@,
                )
            },
            None => !any_viable(
                k@,
                crate::types::toolchains(registered@),
                target@,
                crate::types::exec_platforms(platforms@),
            ),
        },
{
    let ghost tools = crate::types::toolchains(registered@);
    let ghost all = crate::types::exec_platforms(platforms@);
    let mut best: Option<(usize, TypeMap<I>)> = None;
    let mut c: usize = 0;
    while c < platforms.len()
        invariant
            c <= platforms@.len(),
            tools == crate::types::toolchains(registered@),
            all == crate::types::exec_platforms(platforms@),
            match best {
                Some((i, m)) => {
                    &&& i < c
                    &&& is_viable(k@, tools, target@, all[i as int])
                    &&& crate::typemap::map_cloned(
                        supplied(tools, k@.types, target@, all[i as int].constraints),
                        m@,
                    )
                    &&& forall|j: int|
                        0 <= j < c && is_viable(k@, tools, target@, #[trigger] all[j]) ==> score(
                            k@,
                            tools,
                            target@,
                            all[j],
                        ) < score(k@, tools, target@, all[i as int]) || (score(
                            k@,
                            tools,
                            target@,
                            all[j],
                        ) == score(k@, tools, target@, all[i as int]) && i <= j)
                },
                None => forall|j: int|
                    0 <= j < c ==> !is_viable(k@, tools, target@, #[trigger] all[j]),
            },
        decreases platforms@.len() - c,
    {
        let p = &platforms[c];
        assert(all[c as int] == p@);
        if may_choose(k, p) {
            let m = supply(
                registered,
                &k.toolchain_types,
                &target.constraints,
                &p.constraints,
            );
            if supplies_all_mandatory(&k.toolchain_types, &m) {
                let better = match &best {
                    Some((_, b)) => m.len() > b.len(),
                    None => true,
                };
                if better {
                    best = Some((c, m));
                }
            }
        }
        c += 1;
    }
    best
}

// ---------------------------------------------------------------------------------------------
// The node
// ---------------------------------------------------------------------------------------------

/// The platforms that are defined, by name.
pub struct PlatformDefinitions {
    by_name: StringHashMap<Platform>,
}

impl View for PlatformDefinitions {
    type V = Map<Seq<char>, Seq<Seq<char>>>;

    closed spec fn view(&self) -> Map<Seq<char>, Seq<Seq<char>>> {
        self.by_name@.map_values(|p: Platform| p@)
    }
}

impl PlatformDefinitions {
    /// No platform is defined.
    pub fn new() -> (r: Self)
        ensures
            r@ == Map::<Seq<char>, Seq<Seq<char>>>::empty(),
    {
        let r = PlatformDefinitions { by_name: StringHashMap::new() };
        assert(r@ =~= Map::<Seq<char>, Seq<Seq<char>>>::empty());
        r
    }

    /// Defines the platform `name`, in place of the definition that it had, if it had one.
    pub fn insert(&mut self, name: String, platform: Platform)
        ensures
            final(self)@ == old(self)@.insert(name@, platform@),
    {
        self.by_name.insert(name, platform);
        assert(self@ =~= old(self)@.insert(name@, platform@));
    }

    /// The definition of the platform `name`.
    pub fn get(&self, name: &str) -> (r: Option<&Platform>)
        ensures
            match r {
                Some(p) => self@.dom().contains(name@) && p@ == self@[name@],
                None => !self@.dom().contains(name@),
            },
    {
        self.by_name.get(name)
    }
}

/// The answer of the engine to a request for a node.
#[derive(PartialEq, Eq, Debug)]
pub enum Demand<I> {
    /// The value of the node.
    Ready(NodeValue<I>),
    /// The node has no value yet.
    Missing,
}

/// The node that resolves the requested types of its key for the configuration of its key.
pub struct ToolchainContextFn {
    platforms: PlatformDefinitions,
    host_platform: RegisteredExecPlatform,
}

/// The value of a [`ToolchainContextFn`].
pub struct ContextFnModel {
    pub definitions: Map<Seq<char>, Seq<Seq<char>>>,
    pub host: ExecPlatformModel,
}

impl View for ToolchainContextFn {
    type V = ContextFnModel;

    closed spec fn view(&self) -> ContextFnModel {
        ContextFnModel { definitions: self.platforms@, host: self.host_platform@ }
    }
}

/// The keys of the two registered sets that the context of a configuration depends on.
pub open spec fn dependencies_of(configuration: Seq<char>) -> Seq<NodeKeyModel> {
    seq![
        NodeKeyModel {
            kind: REGISTERED_TOOLCHAINS,
            canonical: crate::codec::text_bytes(configuration),
        },
        NodeKeyModel {
            kind: REGISTERED_EXECUTION_PLATFORMS,
            canonical: crate::codec::text_bytes(configuration),
        },
    ]
}

/// The values of a list of node keys.
pub open spec fn node_keys(list: Seq<NodeKey>) -> Seq<NodeKeyModel> {
    list.map_values(|k: NodeKey| k@)
}

/// The dependencies that have no value yet, in the order in which they are requested.
pub open spec fn missing_dependencies<I>(
    configuration: Seq<char>,
    toolchains: Demand<I>,
    exec_platforms: Demand<I>,
) -> Seq<NodeKeyModel> {
    let deps = dependencies_of(configuration);
    match (toolchains, exec_platforms) {
        (Demand::Missing, Demand::Missing) => deps,
        (Demand::Missing, _) => seq![deps[0]],
        (_, Demand::Missing) => seq![deps[1]],
        _ => seq![],
    }
}

/// What a node computes to.
pub enum OutcomeModel<I> {
    Ready(ContextModel<I>),
    Missing(Seq<NodeKeyModel>),
    Error(ErrorModel),
}

/// What the context node computes to for a key, given the answers to its two requests.
pub open spec fn outcome_for<I>(
    f: ContextFnModel,
    k: ContextKeyModel,
    toolchains: Demand<I>,
    exec_platforms: Demand<I>,
) -> OutcomeModel<I> {
    let missing = missing_dependencies(k.configuration, toolchains, exec_platforms);
    if missing.len() > 0 {
        OutcomeModel::Missing(missing)
    } else if !(toolchains matches Demand::Ready(NodeValue::RegisteredToolchains(_))) {
        OutcomeModel::Error(
            ErrorModel::Invalid {
                what: "REGISTERED_TOOLCHAINS value"@,
                detail: "not a RegisteredToolchainsValue"@,
            },
        )
    } else if !(exec_platforms matches Demand::Ready(
        NodeValue::RegisteredExecutionPlatforms(_),
    )) {
        OutcomeModel::Error(
            ErrorModel::Invalid {
                what: "REGISTERED_EXECUTION_PLATFORMS value"@,
                detail: "not a RegisteredExecutionPlatformsValue"@,
            },
        )
    } else {
        match context_of(
            f.definitions,
            f.host,
            k,
            toolchains->Ready_0->RegisteredToolchains_0@,
            exec_platforms->Ready_0->RegisteredExecutionPlatforms_0@,
        ) {
            Ok(c) => OutcomeModel::Ready(c),
            Err(e) => OutcomeModel::Error(e),
        }
    }
}

/// What the context node computes to for a key in its byte form, given the answers to its two
/// requests.
pub open spec fn outcome<I>(
    f: ContextFnModel,
    key: NodeKeyModel,
    toolchains: Demand<I>,
    exec_platforms: Demand<I>,
) -> OutcomeModel<I> {
    match crate::keys::read_context_key(key.canonical) {
        Err(detail) => OutcomeModel::Error(
            ErrorModel::Invalid { what: "TOOLCHAIN_CONTEXT key"@, detail },
        ),
        Ok(k) => outcome_for(f, k, toolchains, exec_platforms),
    }
}

/// `r` is the outcome `o`, with clones of the providers.
pub open spec fn is_outcome<I: Clone>(r: ComputeResult<I>, o: OutcomeModel<I>) -> bool {
    match o {
        OutcomeModel::Ready(c) => r matches ComputeResult::Ready(
            NodeValue::ResolvedToolchainContext(v),
        ) && crate::nodes::context_cloned(c, v@),
        OutcomeModel::Missing(keys) => r matches ComputeResult::Missing { recorded_dep_keys }
            && node_keys(recorded_dep_keys@) == keys,
        OutcomeModel::Error(e) => r matches ComputeResult::Error(x) && x@ == e,
    }
}

impl ToolchainContextFn {
    /// A node over the defined platforms, with `host_platform` as the last candidate for the
    /// execution platform.
    pub fn new(platforms: PlatformDefinitions, host_platform: RegisteredExecPlatform) -> (r: Self)
        ensures
            r@.definitions == platforms@,
            r@.host == host_platform@,
    {
        Self { platforms, host_platform }
    }

    /// The keys of the nodes that have to be requested before the node of `key` is computed: the
    /// two registered sets of its configuration. A malformed key is an error.
    pub fn dependencies(&self, key: &NodeKey) -> (r: Result<Vec<NodeKey>, Error>)
        ensures
            crate::codec::failure(r) == crate::keys::decode_failure(
                "TOOLCHAIN_CONTEXT key"@,
                crate::keys::read_context_key(key@.canonical),
            ),
            r matches Ok(deps) ==> (crate::keys::read_context_key(key@.canonical) matches Ok(k)
                && node_keys(deps@) == dependencies_of(k.configuration)),
    {
        match decode_ctx_key(key.canonical()) {
            Ok(k) => Ok(dependency_keys(&k.configuration)),
            Err(e) => Err(e),
        }
    }

    /// Resolves the key against the registered sets of its configuration.
    pub fn resolve_context<I: Clone>(
        &self,
        key: &ToolchainContextKey,
        registered: &[RegisteredToolchain<I>],
        exec_platforms: Vec<RegisteredExecPlatform>,
    ) -> (r: Result<ResolvedToolchainContextValue<I>, Error>)
        ensures
            match context_of(
                self@.definitions,
                self@.host,
                key@,
                crate::types::toolchains(registered@),
                crate::types::exec_platforms(exec_platforms@),
            ) {
                Ok(c) => r matches Ok(v) && crate::nodes::context_cloned(c, v@),
                Err(e) => r matches Err(x) && x@ == e,
            },
    {
        let target_platform = derive_target_platform(&key.configuration);
        let target = match self.platforms.get(target_platform.as_str()) {
            Some(p) => p,
            None => return Err(Error::not_found("platform", target_platform)),
        };
        let ghost tools = crate::types::toolchains(registered@);
        let ghost registered_platforms = crate::types::exec_platforms(exec_platforms@);
        let mut candidates = exec_platforms;
        candidates.push(self.host_platform.clone());
        let ghost all = crate::types::exec_platforms(candidates@);
        assert(all =~= registered_platforms.push(self@.host));
        if let Some(forced) = &key.force_exec_platform {
            if !contains_name(&candidates, forced) {
                let mut detail: String = "'".to_owned();
                detail.append(forced.as_str());
                detail.append("' is not a registered execution platform (nor the host)");
                return Err(Error::not_found("forced exec platform", detail));
            }
        }
        match choose_platform(key, registered, target, &candidates) {
            Some((i, resolved)) => {
                proof {
                    let b = choose|b: int| is_best(key@, tools, target@, all, b);
                    lemma_best_unique(key@, tools, target@, all, b, i as int);
                    assert(is_viable(key@, tools, target@, all[i as int]));
                    assert(all[i as int] == candidates@[i as int]@);
                }
                Ok(
                    ResolvedToolchainContextValue {
                        selected_exec_platform: candidates[i].name.clone(),
                        target_platform,
                        type_to_resolved: resolved,
                    },
                )
            },
            None => {
                let mut detail: String =
                    "no execution platform supplies all mandatory toolchain type(s) [".to_owned();
                let list = mandatory_list(&key.toolchain_types);
                detail.append(list.as_str());
                detail.append("] for target platform '");
                detail.append(target_platform.as_str());
                detail.append("'");
                Err(Error::not_found("toolchain", detail))
            },
        }
    }

    /// Computes the node of the decoded key `k` from the answers to its two requests.
    fn compute_for<I: Clone>(
        &self,
        k: &ToolchainContextKey,
        toolchains: Demand<I>,
        exec_platforms: Demand<I>,
    ) -> (r: ComputeResult<I>)
        ensures
            is_outcome(r, outcome_for(self@, k@, toolchains, exec_platforms)),
    {
        let ghost expected = missing_dependencies(k@.configuration, toolchains, exec_platforms);
        let mut missing: Vec<NodeKey> = Vec::new();
        if let Demand::Missing = &toolchains {
            missing.push(
                NodeKey::from_key(
                    &RegisteredToolchainsKey { configuration: k.configuration.clone() },
                ),
            );
        }
        if let Demand::Missing = &exec_platforms {
            missing.push(
                NodeKey::from_key(
                    &RegisteredExecutionPlatformsKey { configuration: k.configuration.clone() },
                ),
            );
        }
        assert(node_keys(missing@) =~= expected);
        if missing.len() > 0 {
            return ComputeResult::Missing { recorded_dep_keys: missing };
        }
        let registered = match toolchains {
            Demand::Ready(NodeValue::RegisteredToolchains(v)) => v.toolchains,
            _ => return ComputeResult::Error(
                Error::invalid("REGISTERED_TOOLCHAINS value", "not a RegisteredToolchainsValue"),
            ),
        };
        let platforms = match exec_platforms {
            Demand::Ready(NodeValue::RegisteredExecutionPlatforms(v)) => v.platforms,
            _ => return ComputeResult::Error(
                Error::invalid(
                    "REGISTERED_EXECUTION_PLATFORMS value",
                    "not a RegisteredExecutionPlatformsValue",
                ),
            ),
        };
        match self.resolve_context(k, registered.as_slice(), platforms) {
            Ok(v) => ComputeResult::Ready(NodeValue::ResolvedToolchainContext(v)),
            Err(e) => ComputeResult::Error(e),
        }
    }

    /// Computes the node of `key` from the answers to the requests for its two dependencies, in
    /// the order of [`ToolchainContextFn::dependencies`]. Where an answer is missing, the result
    /// names the missing nodes and nothing is resolved.
    pub fn compute<I: Clone>(
        &self,
        key: &NodeKey,
        toolchains: Demand<I>,
        exec_platforms: Demand<I>,
    ) -> (r: ComputeResult<I>)
        ensures
            is_outcome(r, outcome(self@, key@, toolchains, exec_platforms)),
    {
        match decode_ctx_key(key.canonical()) {
            Ok(k) => self.compute_for(&k, toolchains, exec_platforms),
            Err(e) => ComputeResult::Error(e),
        }
    }
}

/// The keys of the two registered sets of a configuration.
fn dependency_keys(configuration: &ConfigId) -> (r: Vec<NodeKey>)
    ensures
        node_keys(r@) == dependencies_of(configuration@),
{
    let mut deps: Vec<NodeKey> = Vec::new();
    deps.push(
        NodeKey::from_key(&RegisteredToolchainsKey { configuration: configuration.clone() }),
    );
    deps.push(
        NodeKey::from_key(&RegisteredExecutionPlatformsKey { configuration: configuration.clone() }),
    );
    assert(node_keys(deps@) =~= dependencies_of(configuration@));
    deps
}

} // verus!
