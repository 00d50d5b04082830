//! The vocabulary of toolchain resolution, and `resolve`: the constraint match for one type.

use crate::error::{Error, ErrorModel};
use vstd::prelude::*;

verus! {

/// The id of a kind of node of the build graph.
pub type KindId = u32;

/// The kind of the resolved toolchain context: one node per set of required types.
pub const TOOLCHAIN_CONTEXT: KindId = 50;

/// The kind of the registered toolchains of a configuration.
pub const REGISTERED_TOOLCHAINS: KindId = 51;

/// The kind of the registered execution platforms of a configuration.
pub const REGISTERED_EXECUTION_PLATFORMS: KindId = 52;

/// The id of a build configuration.
#[derive(PartialEq, Eq, Hash, PartialOrd, Ord, Debug)]
pub struct ConfigId(pub String);

/// An opaque constraint label (e.g. `"@platforms//os:linux"`). A platform carries it or not: that
/// is all that matching needs.
#[derive(PartialEq, Eq, Hash, PartialOrd, Ord, Debug)]
pub struct Constraint(pub String);

/// A platform definition: the constraints that the platform satisfies.
#[derive(PartialEq, Eq, Debug)]
pub struct Platform {
    pub constraints: Vec<Constraint>,
}

/// The id of a toolchain type (e.g. `"//tools/cpp:toolchain_type"`).
#[derive(PartialEq, Eq, Hash, PartialOrd, Ord, Debug)]
pub struct ToolchainType(pub String);

/// One requested toolchain type, and whether resolution must fail without it.
#[derive(PartialEq, Eq, Hash, PartialOrd, Ord, Debug)]
pub struct ToolchainTypeReq {
    pub toolchain_type: ToolchainType,
    pub mandatory: bool,
}

/// A registered toolchain: the type that it implements, the constraints that it requires of the
/// target platform and of the execution platform, and the provider that a rule is handed when
/// this toolchain is chosen. Resolution carries the provider along and never looks inside.
#[derive(PartialEq, Eq, Debug)]
pub struct RegisteredToolchain<I> {
    pub toolchain_type: ToolchainType,
    pub target_compatible_with: Vec<Constraint>,
    pub exec_compatible_with: Vec<Constraint>,
    pub info: I,
}

/// A registered execution platform: its name and the constraints that it satisfies.
#[derive(PartialEq, Eq, Debug)]
pub struct RegisteredExecPlatform {
    pub name: String,
    pub constraints: Vec<Constraint>,
}

// ---------------------------------------------------------------------------------------------
// Mathematical values
// ---------------------------------------------------------------------------------------------

/// The value of a [`ToolchainTypeReq`].
#[verifier::ext_equal]
pub struct ReqModel {
    pub ty: Seq<char>,
    pub mandatory: bool,
}

/// The value of a [`RegisteredToolchain`].
#[verifier::ext_equal]
pub struct ToolchainModel<I> {
    pub ty: Seq<char>,
    pub target: Seq<Seq<char>>,
    pub runs_on: Seq<Seq<char>>,
    pub info: I,
}

/// The value of a [`RegisteredExecPlatform`].
#[verifier::ext_equal]
pub struct ExecPlatformModel {
    pub name: Seq<char>,
    pub constraints: Seq<Seq<char>>,
}

impl View for ConfigId {
    type V = Seq<char>;

    open spec fn view(&self) -> Seq<char> {
        self.0@
    }
}

impl View for Constraint {
    type V = Seq<char>;

    open spec fn view(&self) -> Seq<char> {
        self.0@
    }
}

impl View for ToolchainType {
    type V = Seq<char>;

    open spec fn view(&self) -> Seq<char> {
        self.0@
    }
}

/// The labels of a list of constraints.
pub open spec fn labels(list: Seq<Constraint>) -> Seq<Seq<char>> {
    list.map_values(|c: Constraint| c@)
}

impl View for Platform {
    type V = Seq<Seq<char>>;

    open spec fn view(&self) -> Seq<Seq<char>> {
        labels(self.constraints@)
    }
}

impl View for ToolchainTypeReq {
    type V = ReqModel;

    open spec fn view(&self) -> ReqModel {
        ReqModel { ty: self.toolchain_type@, mandatory: self.mandatory }
    }
}

impl<I> View for RegisteredToolchain<I> {
    type V = ToolchainModel<I>;

    open spec fn view(&self) -> ToolchainModel<I> {
        ToolchainModel {
            ty: self.toolchain_type@,
            target: labels(self.target_compatible_with@),
            runs_on: labels(self.exec_compatible_with@),
            info: self.info,
        }
    }
}

impl View for RegisteredExecPlatform {
    type V = ExecPlatformModel;

    open spec fn view(&self) -> ExecPlatformModel {
        ExecPlatformModel { name: self.name@, constraints: labels(self.constraints@) }
    }
}

/// The values of a list of requests.
pub open spec fn reqs(list: Seq<ToolchainTypeReq>) -> Seq<ReqModel> {
    list.map_values(|r: ToolchainTypeReq| r@)
}

/// The values of a list of toolchains.
pub open spec fn toolchains<I>(list: Seq<RegisteredToolchain<I>>) -> Seq<ToolchainModel<I>> {
    list.map_values(|t: RegisteredToolchain<I>| t@)
}

/// The values of a list of execution platforms.
pub open spec fn exec_platforms(list: Seq<RegisteredExecPlatform>) -> Seq<ExecPlatformModel> {
    list.map_values(|p: RegisteredExecPlatform| p@)
}

// ---------------------------------------------------------------------------------------------
// Copies
// ---------------------------------------------------------------------------------------------

/// `b` is a copy of the toolchain `a`: the same in all that resolution looks at, with a clone of
/// the provider.
pub open spec fn toolchain_cloned<I: Clone>(a: ToolchainModel<I>, b: ToolchainModel<I>) -> bool {
    &&& b.ty == a.ty
    &&& b.target == a.target
    &&& b.runs_on == a.runs_on
    &&& cloned(a.info, b.info)
}

/// `b` is a copy of the list of toolchains `a`, item by item.
pub open spec fn toolchains_cloned<I: Clone>(
    a: Seq<ToolchainModel<I>>,
    b: Seq<ToolchainModel<I>>,
) -> bool {
    &&& b.len() == a.len()
    &&& forall|i: int|
        #![trigger a[i]]
        #![trigger b[i]]
        0 <= i < a.len() ==> toolchain_cloned(a[i], b[i])
}

impl Clone for ConfigId {
    fn clone(&self) -> (r: Self)
        ensures
            r == *self,
    {
        ConfigId(self.0.clone())
    }
}

impl Clone for Constraint {
    fn clone(&self) -> (r: Self)
        ensures
            r == *self,
    {
        Constraint(self.0.clone())
    }
}

impl Clone for ToolchainType {
    fn clone(&self) -> (r: Self)
        ensures
            r == *self,
    {
        ToolchainType(self.0.clone())
    }
}

impl Clone for ToolchainTypeReq {
    fn clone(&self) -> (r: Self)
        ensures
            r == *self,
    {
        ToolchainTypeReq { toolchain_type: self.toolchain_type.clone(), mandatory: self.mandatory }
    }
}

impl Clone for Platform {
    fn clone(&self) -> (r: Self)
        ensures
            r@ == self@,
    {
        let constraints = self.constraints.clone();
        assert(constraints@ =~= self.constraints@);
        Platform { constraints }
    }
}

impl Clone for RegisteredExecPlatform {
    fn clone(&self) -> (r: Self)
        ensures
            r@ == self@,
    {
        let constraints = self.constraints.clone();
        assert(constraints@ =~= self.constraints@);
        RegisteredExecPlatform { name: self.name.clone(), constraints }
    }
}

impl<I: Clone> Clone for RegisteredToolchain<I> {
    fn clone(&self) -> (r: Self)
        ensures
            toolchain_cloned(self@, r@),
    {
        let target_compatible_with = self.target_compatible_with.clone();
        let exec_compatible_with = self.exec_compatible_with.clone();
        assert(target_compatible_with@ =~= self.target_compatible_with@);
        assert(exec_compatible_with@ =~= self.exec_compatible_with@);
        RegisteredToolchain {
            toolchain_type: self.toolchain_type.clone(),
            target_compatible_with,
            exec_compatible_with,
            info: self.info.clone(),
        }
    }
}

// ---------------------------------------------------------------------------------------------
// Matching
// ---------------------------------------------------------------------------------------------

/// Every constraint of `required` is one of `provided`.
pub open spec fn satisfies(provided: Seq<Seq<char>>, required: Seq<Seq<char>>) -> bool {
    forall|k: int| 0 <= k < required.len() ==> provided.contains(#[trigger] required[k])
}

/// The toolchain `t` implements the type `ty` and can build for a platform with the constraints
/// `target`.
pub open spec fn fits_target<I>(t: ToolchainModel<I>, ty: Seq<char>, target: Seq<Seq<char>>) -> bool {
    t.ty == ty && satisfies(target, t.target)
}

/// The toolchain at `i` is the first one in registration order that fits type and target.
pub open spec fn first_for_target<I>(
    registered: Seq<ToolchainModel<I>>,
    ty: Seq<char>,
    target: Seq<Seq<char>>,
    i: int,
) -> bool {
    &&& 0 <= i < registered.len()
    &&& fits_target(registered[i], ty, target)
    &&& forall|j: int| 0 <= j < i ==> !fits_target(#[trigger] registered[j], ty, target)
}

/// Some registered toolchain fits type and target.
pub open spec fn any_for_target<I>(
    registered: Seq<ToolchainModel<I>>,
    ty: Seq<char>,
    target: Seq<Seq<char>>,
) -> bool {
    exists|i: int| 0 <= i < registered.len() && fits_target(#[trigger] registered[i], ty, target)
}

/// The error that says that no toolchain of the type fits.
pub open spec fn no_toolchain(ty: Seq<char>) -> ErrorModel {
    ErrorModel::NotFound {
        what: "toolchain"@,
        detail: "no registered toolchain of type '"@ + ty
            + "' is compatible with the target platform"@,
    }
}

/// Whether `list` holds the constraint `c`.
pub fn contains_constraint(list: &[Constraint], c: &Constraint) -> (r: bool)
    ensures
        r == labels(list@).contains(c@),
{
    let mut k: usize = 0;
    while k < list.len()
        invariant
            k <= list@.len(),
            forall|j: int| 0 <= j < k ==> list@[j]@ != c@,
        decreases list@.len() - k,
    {
        if list[k].0 == c.0 {
            assert(labels(list@)[k as int] == c@);
            return true;
        }
        k += 1;
    }
    false
}

/// Whether every constraint of `required` is one of `provided`.
pub fn satisfies_all(provided: &[Constraint], required: &[Constraint]) -> (r: bool)
    ensures
        r == satisfies(labels(provided@), labels(required@)),
{
    let mut k: usize = 0;
    while k < required.len()
        invariant
            k <= required@.len(),
            forall|j: int|
                0 <= j < k ==> labels(provided@).contains(#[trigger] labels(required@)[j]),
        decreases required@.len() - k,
    {
        if !contains_constraint(provided, &required[k]) {
            assert(!labels(provided@).contains(labels(required@)[k as int]));
            return false;
        }
        k += 1;
    }
    true
}

/// Resolves the toolchain of the `required` type for a target `platform`: the provider of the
/// first registered toolchain of that type whose `target_compatible_with` the platform satisfies.
/// Fail-closed: where none matches the answer is a typed error, never a default.
pub fn resolve<I: Clone>(
    platform: &Platform,
    required: &ToolchainType,
    registered: &[RegisteredToolchain<I>],
) -> (r: Result<I, Error>)
    ensures
        r is Ok <==> any_for_target(toolchains(registered@), required@, platform@),
        r matches Ok(info) ==> exists|i: int|
            first_for_target(toolchains(registered@), required@, platform@, i) && cloned(
                registered@[i].info,
                info,
            ),
        r matches Err(e) ==> e@ == no_toolchain(required@),
{
    let ghost models = toolchains(registered@);
    let mut k: usize = 0;
    while k < registered.len()
        invariant
            k <= registered@.len(),
            models == toolchains(registered@),
            forall|j: int| 0 <= j < k ==> !fits_target(#[trigger] models[j], required@, platform@),
        decreases registered@.len() - k,
    {
        let t = &registered[k];
        assert(models[k as int] == t@);
        if t.toolchain_type.0 == required.0 && satisfies_all(
            &platform.constraints,
            &t.target_compatible_with,
        ) {
            assert(first_for_target(models, required@, platform@, k as int));
            return Ok(t.info.clone());
        }
        k += 1;
    }
    let mut detail: String = "no registered toolchain of type '".to_owned();
    detail.append(required.0.as_str());
    detail.append("' is compatible with the target platform");
    Err(Error::not_found("toolchain", detail))
}

} // verus!
