//! The values of the three kinds of nodes, the store of registrations, and the two nodes that
//! serve the registered sets.

use crate::codec::{enc_constraints, enc_count, enc_raw, enc_str};
use crate::error::{Error, ErrorModel};
use crate::keys::{
    decode_registered_exec_platforms_key, decode_registered_toolchains_key, NodeKey,
};
use crate::typemap::TypeMap;
use crate::types::{
    ConfigId, ExecPlatformModel, RegisteredExecPlatform, RegisteredToolchain, ToolchainModel,
};
use vstd::hash_map::StringHashMap;
use vstd::prelude::*;
use vstd::std_specs::cmp::PartialEqSpec;

verus! {

// ---------------------------------------------------------------------------------------------
// Values
// ---------------------------------------------------------------------------------------------

/// How the engine may treat a value.
#[derive(Clone, Copy, PartialEq, Eq, Debug, Structural)]
pub struct ValuePolicy {
    /// Two values can be told apart: an equal one leaves what depends on it as it is.
    pub comparable: bool,
    /// The value is never up to date.
    pub always_dirty: bool,
    /// The value can be handed to several readers.
    pub shareable: bool,
    /// The value can be written down.
    pub serializable: bool,
    /// The value has no meaning outside this process.
    pub process_local: bool,
}

/// The policy of all three kinds of values.
pub open spec fn plain_data() -> ValuePolicy {
    ValuePolicy {
        comparable: true,
        always_dirty: false,
        shareable: true,
        serializable: true,
        process_local: false,
    }
}

/// The policy of all three kinds of values.
fn plain_data_policy() -> (r: ValuePolicy)
    ensures
        r == plain_data(),
{
    ValuePolicy {
        comparable: true,
        always_dirty: false,
        shareable: true,
        serializable: true,
        process_local: false,
    }
}

/// The registered toolchains of one configuration, in registration order.
#[derive(PartialEq, Eq, Debug)]
pub struct RegisteredToolchainsValue<I> {
    pub toolchains: Vec<RegisteredToolchain<I>>,
}

/// The registered execution platforms of one configuration, in registration order.
#[derive(PartialEq, Eq, Debug)]
pub struct RegisteredExecutionPlatformsValue {
    pub platforms: Vec<RegisteredExecPlatform>,
}

/// A resolved toolchain context: one value for the whole set of requested types. An optional type
/// that no toolchain supplies is absent.
#[derive(PartialEq, Eq, Debug)]
pub struct ResolvedToolchainContextValue<I> {
    /// The name of the one execution platform that was chosen.
    pub selected_exec_platform: String,
    /// The name of the target platform, as derived from the configuration.
    pub target_platform: String,
    /// The provider of the toolchain that was chosen for each type.
    pub type_to_resolved: TypeMap<I>,
}

/// A value as the engine hands it around.
#[derive(PartialEq, Eq, Debug)]
pub enum NodeValue<I> {
    RegisteredToolchains(RegisteredToolchainsValue<I>),
    RegisteredExecutionPlatforms(RegisteredExecutionPlatformsValue),
    ResolvedToolchainContext(ResolvedToolchainContextValue<I>),
    /// A value of a kind that this library does not know.
    Other,
}

/// The value of a [`ResolvedToolchainContextValue`].
#[verifier::ext_equal]
pub struct ContextModel<I> {
    pub selected: Seq<char>,
    pub target: Seq<char>,
    pub resolved: Map<Seq<char>, I>,
}

impl<I> View for RegisteredToolchainsValue<I> {
    type V = Seq<ToolchainModel<I>>;

    open spec fn view(&self) -> Seq<ToolchainModel<I>> {
        crate::types::toolchains(self.toolchains@)
    }
}

impl View for RegisteredExecutionPlatformsValue {
    type V = Seq<ExecPlatformModel>;

    open spec fn view(&self) -> Seq<ExecPlatformModel> {
        crate::types::exec_platforms(self.platforms@)
    }
}

impl<I> View for ResolvedToolchainContextValue<I> {
    type V = ContextModel<I>;

    open spec fn view(&self) -> ContextModel<I> {
        ContextModel {
            selected: self.selected_exec_platform@,
            target: self.target_platform@,
            resolved: self.type_to_resolved@,
        }
    }
}

/// `b` is a copy of the context `a`: the same platforms and types, with clones of the providers.
pub open spec fn context_cloned<I: Clone>(a: ContextModel<I>, b: ContextModel<I>) -> bool {
    &&& b.selected == a.selected
    &&& b.target == a.target
    &&& crate::typemap::map_cloned(a.resolved, b.resolved)
}

/// A copy of a list of toolchains.
fn clone_toolchains<I: Clone>(list: &Vec<RegisteredToolchain<I>>) -> (r: Vec<RegisteredToolchain<I>>)
    ensures
        crate::types::toolchains_cloned(
            crate::types::toolchains(list@),
            crate::types::toolchains(r@),
        ),
{
    let r = list.clone();
    proof {
        let (a, b) = (crate::types::toolchains(list@), crate::types::toolchains(r@));
        assert forall|i: int|
            #![trigger a[i]]
            #![trigger b[i]]
            0 <= i < a.len() implies crate::types::toolchain_cloned(a[i], b[i]) by {
            assert(cloned(list@[i], r@[i]));
        }
    }
    r
}

/// A copy of a list of execution platforms.
fn clone_platforms(list: &Vec<RegisteredExecPlatform>) -> (r: Vec<RegisteredExecPlatform>)
    ensures
        crate::types::exec_platforms(r@) == crate::types::exec_platforms(list@),
{
    let r = list.clone();
    proof {
        assert forall|i: int| 0 <= i < list@.len() implies list@[i]@ == #[trigger] r@[i]@ by {
            assert(cloned(list@[i], r@[i]));
        }
        assert(crate::types::exec_platforms(r@) =~= crate::types::exec_platforms(list@));
    }
    r
}

impl<I: Clone> Clone for RegisteredToolchainsValue<I> {
    fn clone(&self) -> (r: Self)
        ensures
            crate::types::toolchains_cloned(self@, r@),
    {
        RegisteredToolchainsValue { toolchains: clone_toolchains(&self.toolchains) }
    }
}

impl Clone for RegisteredExecutionPlatformsValue {
    fn clone(&self) -> (r: Self)
        ensures
            r@ == self@,
    {
        RegisteredExecutionPlatformsValue { platforms: clone_platforms(&self.platforms) }
    }
}

impl<I: Clone> Clone for ResolvedToolchainContextValue<I> {
    fn clone(&self) -> (r: Self)
        ensures
            context_cloned(self@, r@),
    {
        ResolvedToolchainContextValue {
            selected_exec_platform: self.selected_exec_platform.clone(),
            target_platform: self.target_platform.clone(),
            type_to_resolved: self.type_to_resolved.clone(),
        }
    }
}

// ---------------------------------------------------------------------------------------------
// Equality of values
// ---------------------------------------------------------------------------------------------

/// The two toolchains are the same in all that resolution looks at.
pub open spec fn same_matching<I>(a: ToolchainModel<I>, b: ToolchainModel<I>) -> bool {
    a.ty == b.ty && a.target == b.target && a.runs_on == b.runs_on
}

/// The two lists of toolchains are the same, the providers compared as their type compares them.
pub open spec fn same_toolchains<I: PartialEq>(
    a: Seq<ToolchainModel<I>>,
    b: Seq<ToolchainModel<I>>,
) -> bool {
    &&& a.len() == b.len()
    &&& forall|i: int|
        0 <= i < a.len() ==> same_matching(#[trigger] a[i], b[i]) && a[i].info.eq_spec(&b[i].info)
}

/// The two contexts are the same, the providers compared as their type compares them.
pub open spec fn same_context<I: PartialEq>(a: ContextModel<I>, b: ContextModel<I>) -> bool {
    &&& a.selected == b.selected
    &&& a.target == b.target
    &&& a.resolved.dom() == b.resolved.dom()
    &&& forall|t: Seq<char>| #[trigger]
        a.resolved.dom().contains(t) ==> a.resolved[t].eq_spec(&b.resolved[t])
}

/// A comparison of the providers `a` and `b` may answer `r`.
pub open spec fn may_compare<I: PartialEq>(a: I, b: I, r: bool) -> bool {
    call_ensures(I::eq, (&a, &b), r)
}

/// The two lists of toolchains are the same wherever no provider is looked at, and each comparison
/// of their providers may answer yes.
pub open spec fn found_same_toolchains<I: PartialEq>(
    a: Seq<ToolchainModel<I>>,
    b: Seq<ToolchainModel<I>>,
) -> bool {
    &&& a.len() == b.len()
    &&& forall|i: int|
        0 <= i < a.len() ==> same_matching(#[trigger] a[i], b[i]) && may_compare(
            a[i].info,
            b[i].info,
            true,
        )
}

/// The two lists of toolchains differ where no provider is looked at, or some comparison of their
/// providers may answer no.
pub open spec fn found_other_toolchains<I: PartialEq>(
    a: Seq<ToolchainModel<I>>,
    b: Seq<ToolchainModel<I>>,
) -> bool {
    a.len() != b.len() || exists|i: int|
        0 <= i < a.len() && (!same_matching(#[trigger] a[i], b[i]) || may_compare(
            a[i].info,
            b[i].info,
            false,
        ))
}

/// The two contexts are the same wherever no provider is looked at, and each comparison of their
/// providers may answer yes.
pub open spec fn found_same_context<I: PartialEq>(a: ContextModel<I>, b: ContextModel<I>) -> bool {
    &&& a.selected == b.selected
    &&& a.target == b.target
    &&& a.resolved.dom() == b.resolved.dom()
    &&& forall|t: Seq<char>| #[trigger]
        a.resolved.dom().contains(t) ==> may_compare(a.resolved[t], b.resolved[t], true)
}

/// The two contexts differ where no provider is looked at, or some comparison of their providers
/// may answer no.
pub open spec fn found_other_context<I: PartialEq>(a: ContextModel<I>, b: ContextModel<I>) -> bool {
    ||| a.selected != b.selected
    ||| a.target != b.target
    ||| a.resolved.dom() != b.resolved.dom()
    ||| exists|t: Seq<char>| #[trigger]
        a.resolved.dom().contains(t) && may_compare(a.resolved[t], b.resolved[t], false)
}

/// Whether the two lists hold the same constraints in the same order.
fn same_constraints(a: &Vec<crate::types::Constraint>, b: &Vec<crate::types::Constraint>) -> (r: bool)
    ensures
        r == (crate::types::labels(a@) == crate::types::labels(b@)),
{
    if a.len() != b.len() {
        assert(crate::types::labels(a@).len() != crate::types::labels(b@).len());
        return false;
    }
    let mut k: usize = 0;
    while k < a.len()
        invariant
            k <= a@.len(),
            a@.len() == b@.len(),
            forall|j: int| 0 <= j < k ==> a@[j]@ == b@[j]@,
        decreases a@.len() - k,
    {
        if a[k].0 != b[k].0 {
            assert(crate::types::labels(a@)[k as int] != crate::types::labels(b@)[k as int]);
            return false;
        }
        k += 1;
    }
    assert(crate::types::labels(a@) =~= crate::types::labels(b@));
    true
}

impl<I> RegisteredToolchainsValue<I> {
    /// How the engine may treat this value.
    pub fn policy(&self) -> (r: ValuePolicy)
        ensures
            r == plain_data(),
    {
        plain_data_policy()
    }

    /// Whether `other` is a set of registered toolchains, and the same one.
    pub fn value_eq(&self, other: &NodeValue<I>) -> (r: bool) where I: PartialEq
        ensures
            match other {
                NodeValue::RegisteredToolchains(o) => if r {
                    found_same_toolchains(self@, o@)
                } else {
                    found_other_toolchains(self@, o@)
                },
                _ => !r,
            },
            I::obeys_eq_spec() ==> r == (other matches NodeValue::RegisteredToolchains(o)
                && same_toolchains(self@, o@)),
    {
        let o = match other {
            NodeValue::RegisteredToolchains(o) => o,
            _ => return false,
        };
        if self.toolchains.len() != o.toolchains.len() {
            return false;
        }
        let mut k: usize = 0;
        while k < self.toolchains.len()
            invariant
                k <= self.toolchains@.len(),
                self.toolchains@.len() == o.toolchains@.len(),
                *other == NodeValue::RegisteredToolchains(*o),
                forall|j: int|
                    0 <= j < k ==> same_matching(#[trigger] self@[j], o@[j]) && may_compare(
                        self@[j].info,
                        o@[j].info,
                        true,
                    ),
                I::obeys_eq_spec() ==> forall|j: int|
                    0 <= j < k ==> (#[trigger] self@[j]).info.eq_spec(&o@[j].info),
            decreases self.toolchains@.len() - k,
        {
            let a = &self.toolchains[k];
            let b = &o.toolchains[k];
            assert(self@[k as int] == a@ && o@[k as int] == b@);
            if a.toolchain_type.0 != b.toolchain_type.0 || !same_constraints(
                &a.target_compatible_with,
                &b.target_compatible_with,
            ) || !same_constraints(&a.exec_compatible_with, &b.exec_compatible_with) || !a.info.eq(
                &b.info,
            ) {
                return false;
            }
            k += 1;
        }
        true
    }
}

impl RegisteredExecutionPlatformsValue {
    /// How the engine may treat this value.
    pub fn policy(&self) -> (r: ValuePolicy)
        ensures
            r == plain_data(),
    {
        plain_data_policy()
    }

    /// Whether `other` is a set of registered execution platforms, and the same one.
    pub fn value_eq<I>(&self, other: &NodeValue<I>) -> (r: bool)
        ensures
            r == (other matches NodeValue::RegisteredExecutionPlatforms(o) && self@ == o@),
    {
        let o = match other {
            NodeValue::RegisteredExecutionPlatforms(o) => o,
            _ => return false,
        };
        if self.platforms.len() != o.platforms.len() {
            assert(self@.len() != o@.len());
            return false;
        }
        let mut k: usize = 0;
        while k < self.platforms.len()
            invariant
                k <= self.platforms@.len(),
                self.platforms@.len() == o.platforms@.len(),
                *other == NodeValue::<I>::RegisteredExecutionPlatforms(*o),
                forall|j: int| 0 <= j < k ==> #[trigger] self@[j] == o@[j],
            decreases self.platforms@.len() - k,
        {
            let a = &self.platforms[k];
            let b = &o.platforms[k];
            assert(self@[k as int] == a@ && o@[k as int] == b@);
            if a.name != b.name || !same_constraints(&a.constraints, &b.constraints) {
                return false;
            }
            k += 1;
        }
        assert(self@ =~= o@);
        true
    }
}

impl<I> ResolvedToolchainContextValue<I> {
    /// How the engine may treat this value.
    pub fn policy(&self) -> (r: ValuePolicy)
        ensures
            r == plain_data(),
    {
        plain_data_policy()
    }

    /// Whether `other` is a resolved context, and the same one.
    pub fn value_eq(&self, other: &NodeValue<I>) -> (r: bool) where I: PartialEq
        ensures
            match other {
                NodeValue::ResolvedToolchainContext(o) => if r {
                    found_same_context(self@, o@)
                } else {
                    found_other_context(self@, o@)
                },
                _ => !r,
            },
            I::obeys_eq_spec() ==> r == (other matches NodeValue::ResolvedToolchainContext(o)
                && same_context(self@, o@)),
    {
        let o = match other {
            NodeValue::ResolvedToolchainContext(o) => o,
            _ => return false,
        };
        let xs = self.type_to_resolved.entries();
        let ys = o.type_to_resolved.entries();
        let ghost (m, n) = (self@.resolved, o@.resolved);
        let ghost (s, t) = (crate::typemap::entry_types(xs@), crate::typemap::entry_types(ys@));
        proof {
            if m.dom() == n.dom() {
                crate::typemap::lemma_listing_types(m, xs@, n, ys@);
            }
        }
        if self.selected_exec_platform != o.selected_exec_platform || self.target_platform
            != o.target_platform || xs.len() != ys.len() {
            return false;
        }
        let mut k: usize = 0;
        while k < xs.len()
            invariant
                k <= xs@.len(),
                xs@.len() == ys@.len(),
                m == self@.resolved,
                n == o@.resolved,
                self@.selected == o@.selected,
                self@.target == o@.target,
                s == crate::typemap::entry_types(xs@),
                t == crate::typemap::entry_types(ys@),
                crate::typemap::lists(m, xs@),
                crate::typemap::lists(n, ys@),
                *other == NodeValue::ResolvedToolchainContext(*o),
                m.dom() == n.dom() ==> s == t,
                forall|j: int| 0 <= j < k ==> #[trigger] s[j] == t[j],
                forall|j: int| 0 <= j < k ==> may_compare((#[trigger] xs@[j]).1, ys@[j].1, true),
                I::obeys_eq_spec() ==> forall|j: int|
                    0 <= j < k ==> (#[trigger] xs@[j]).1.eq_spec(&ys@[j].1),
            decreases xs@.len() - k,
        {
            if xs[k].0.0 != ys[k].0.0 {
                assert(s[k as int] != t[k as int]);
                return false;
            }
            if !xs[k].1.eq(&ys[k].1) {
                proof {
                    assert(s[k as int] == xs@[k as int].0@ && t[k as int] == ys@[k as int].0@);
                    assert(s.contains(s[k as int]));
                    assert(m.dom().contains(s[k as int]));
                }
                return false;
            }
            k += 1;
        }
        proof {
            assert(s =~= t);
            assert(m.dom() =~= n.dom()) by {
                assert forall|x: Seq<char>| m.dom().contains(x) <==> n.dom().contains(x) by {
                    assert(m.dom().contains(x) <==> s.contains(x));
                    assert(n.dom().contains(x) <==> t.contains(x));
                }
            }
            assert forall|x: Seq<char>| #[trigger] m.dom().contains(x) implies may_compare(
                m[x],
                n[x],
                true,
            ) && (I::obeys_eq_spec() ==> m[x].eq_spec(&n[x])) by {
                let j = choose|j: int| 0 <= j < s.len() && s[j] == x;
                assert(xs@[j].0@ == x && ys@[j].0@ == x);
            }
        }
        true
    }
}

// ---------------------------------------------------------------------------------------------
// What the content digests are taken over
// ---------------------------------------------------------------------------------------------

/// The toolchain `t` with `info` in place of its provider.
pub open spec fn with_info<I>(t: ToolchainModel<I>, info: Seq<u8>) -> ToolchainModel<Seq<u8>> {
    ToolchainModel { ty: t.ty, target: t.target, runs_on: t.runs_on, info }
}

/// The toolchains `list` with the byte strings `infos` in place of their providers.
pub open spec fn with_infos<I>(
    list: Seq<ToolchainModel<I>>,
    infos: Seq<Vec<u8>>,
) -> Seq<ToolchainModel<Seq<u8>>> {
    Seq::new(list.len(), |i: int| with_info(list[i], infos[i]@))
}

/// A toolchain as it is written: its type, the constraints that it requires of the target and of
/// the execution platform, then the byte form of its provider, which ends by itself.
pub open spec fn toolchain_bytes(t: ToolchainModel<Seq<u8>>) -> Seq<u8> {
    crate::codec::text_bytes(t.ty) + (crate::codec::text_list_bytes(t.target) + (
    crate::codec::text_list_bytes(t.runs_on) + t.info))
}

/// The toolchains of `list` as they are written, one after the other.
pub open spec fn toolchains_bytes(list: Seq<ToolchainModel<Seq<u8>>>) -> Seq<u8>
    decreases list.len(),
{
    if list.len() == 0 {
        seq![]
    } else {
        toolchains_bytes(list.drop_last()) + toolchain_bytes(list.last())
    }
}

/// What the digest of a set of registered toolchains is taken over: their number, then each.
pub open spec fn toolchains_content(list: Seq<ToolchainModel<Seq<u8>>>) -> Seq<u8> {
    crate::codec::count_bytes(list.len()) + toolchains_bytes(list)
}

/// Each length that is written with the toolchain fits into the eight bytes that it has.
pub open spec fn toolchain_fits<I>(t: ToolchainModel<I>) -> bool {
    &&& vstd::utf8::encode_utf8(t.ty).len() <= u64::MAX
    &&& t.target.len() <= u64::MAX
    &&& crate::codec::texts_fit(t.target)
    &&& t.runs_on.len() <= u64::MAX
    &&& crate::codec::texts_fit(t.runs_on)
}

/// Each length that is written with the toolchains fits into the eight bytes that it has.
pub open spec fn toolchains_fit<I>(list: Seq<ToolchainModel<I>>) -> bool {
    &&& list.len() <= u64::MAX
    &&& forall|i: int| 0 <= i < list.len() ==> toolchain_fits(#[trigger] list[i])
}

/// An execution platform as it is written: its name, then its constraints.
pub open spec fn platform_bytes(p: ExecPlatformModel) -> Seq<u8> {
    crate::codec::text_bytes(p.name) + crate::codec::text_list_bytes(p.constraints)
}

/// The platforms of `list` as they are written, one after the other.
pub open spec fn platforms_bytes(list: Seq<ExecPlatformModel>) -> Seq<u8>
    decreases list.len(),
{
    if list.len() == 0 {
        seq![]
    } else {
        platforms_bytes(list.drop_last()) + platform_bytes(list.last())
    }
}

/// What the digest of a set of registered platforms is taken over: their number, then each.
pub open spec fn platforms_content(list: Seq<ExecPlatformModel>) -> Seq<u8> {
    crate::codec::count_bytes(list.len()) + platforms_bytes(list)
}

/// Each length that is written with the platform fits into the eight bytes that it has.
pub open spec fn platform_fits(p: ExecPlatformModel) -> bool {
    &&& vstd::utf8::encode_utf8(p.name).len() <= u64::MAX
    &&& p.constraints.len() <= u64::MAX
    &&& crate::codec::texts_fit(p.constraints)
}

/// Each length that is written with the platforms fits into the eight bytes that it has.
pub open spec fn platforms_fit(list: Seq<ExecPlatformModel>) -> bool {
    &&& list.len() <= u64::MAX
    &&& forall|i: int| 0 <= i < list.len() ==> platform_fits(#[trigger] list[i])
}

/// One resolved type: its id, and the byte form of the provider that was chosen for it.
#[verifier::ext_equal]
pub struct ChoiceModel {
    pub ty: Seq<char>,
    pub info: Seq<u8>,
}

/// The types `types` with the byte forms `infos` of their providers.
pub open spec fn choices(types: Seq<Seq<char>>, infos: Seq<Vec<u8>>) -> Seq<ChoiceModel> {
    Seq::new(types.len(), |i: int| ChoiceModel { ty: types[i], info: infos[i]@ })
}

/// A resolved type as it is written: its id, then the byte form of the provider, which ends by
/// itself.
pub open spec fn choice_bytes(c: ChoiceModel) -> Seq<u8> {
    crate::codec::text_bytes(c.ty) + c.info
}

/// The resolved types of `list` as they are written, one after the other.
pub open spec fn choices_bytes(list: Seq<ChoiceModel>) -> Seq<u8>
    decreases list.len(),
{
    if list.len() == 0 {
        seq![]
    } else {
        choices_bytes(list.drop_last()) + choice_bytes(list.last())
    }
}

/// What the digest of a resolved context is taken over: the names of the two platforms, the
/// number of resolved types, then each of them.
pub open spec fn context_content(
    selected: Seq<char>,
    target: Seq<char>,
    list: Seq<ChoiceModel>,
) -> Seq<u8> {
    crate::codec::text_bytes(selected) + (crate::codec::text_bytes(target) + (
    crate::codec::count_bytes(list.len()) + choices_bytes(list)))
}

/// Each length that is written with the context fits into the eight bytes that it has.
pub open spec fn context_fits(
    selected: Seq<char>,
    target: Seq<char>,
    types: Seq<Seq<char>>,
) -> bool {
    &&& vstd::utf8::encode_utf8(selected).len() <= u64::MAX
    &&& vstd::utf8::encode_utf8(target).len() <= u64::MAX
    &&& types.len() <= u64::MAX
    &&& crate::codec::texts_fit(types)
}

/// `types` are the types that have a value in `m`, each once, in the order of their ids.
pub open spec fn types_in_order<V>(m: Map<Seq<char>, V>, types: Seq<Seq<char>>) -> bool {
    &&& crate::order::strictly_sorted(types)
    &&& forall|t: Seq<char>| #[trigger] m.dom().contains(t) <==> types.contains(t)
}

/// Appends the toolchain `t`, with `info` as the byte form of its provider.
pub fn encode_registered_toolchain<I>(t: &RegisteredToolchain<I>, info: &[u8], b: &mut Vec<u8>)
    ensures
        final(b)@ == old(b)@ + toolchain_bytes(with_info(t@, info@)),
        toolchain_fits(t@),
{
    enc_str(b, t.toolchain_type.0.as_str());
    enc_constraints(b, t.target_compatible_with.as_slice());
    enc_constraints(b, t.exec_compatible_with.as_slice());
    enc_raw(b, info);
    assert(b@ =~= old(b)@ + toolchain_bytes(with_info(t@, info@)));
}

impl<I> RegisteredToolchainsValue<I> {
    /// What the content digest is taken over. `infos` are the byte forms of the providers, in the
    /// order of the toolchains.
    pub fn digest_input(&self, infos: &[Vec<u8>]) -> (r: Vec<u8>)
        requires
            infos@.len() == self@.len(),
        ensures
            r@ == toolchains_content(with_infos(self@, infos@)),
            toolchains_fit(self@),
    {
        let mut b: Vec<u8> = Vec::new();
        enc_count(&mut b, self.toolchains.len() as u64);
        let ghost start = b@;
        let ghost list = with_infos(self@, infos@);
        let mut k: usize = 0;
        proof {
            assert(start =~= crate::codec::count_bytes(list.len()));
            assert(list.take(0) =~= seq![]);
            assert(start + toolchains_bytes(list.take(0)) =~= start);
        }
        while k < self.toolchains.len()
            invariant
                k <= self.toolchains@.len(),
                infos@.len() == self.toolchains@.len(),
                list == with_infos(self@, infos@),
                b@ == start + toolchains_bytes(list.take(k as int)),
                forall|j: int| 0 <= j < k ==> toolchain_fits(#[trigger] self@[j]),
            decreases self.toolchains@.len() - k,
        {
            encode_registered_toolchain(&self.toolchains[k], infos[k].as_slice(), &mut b);
            proof {
                let next = list.take(k + 1);
                assert(next.drop_last() =~= list.take(k as int));
                assert(self@[k as int] == self.toolchains@[k as int]@);
                assert(next.last() == with_info(self@[k as int], infos@[k as int]@));
                assert(b@ =~= start + toolchains_bytes(next));
            }
            k += 1;
        }
        assert(list.take(k as int) =~= list);
        b
    }
}

impl RegisteredExecutionPlatformsValue {
    /// What the content digest is taken over.
    pub fn digest_input(&self) -> (r: Vec<u8>)
        ensures
            r@ == platforms_content(self@),
            platforms_fit(self@),
    {
        let mut b: Vec<u8> = Vec::new();
        enc_count(&mut b, self.platforms.len() as u64);
        let ghost start = b@;
        let ghost list = self@;
        let mut k: usize = 0;
        proof {
            assert(start =~= crate::codec::count_bytes(list.len()));
            assert(list.take(0) =~= seq![]);
            assert(start + platforms_bytes(list.take(0)) =~= start);
        }
        while k < self.platforms.len()
            invariant
                k <= self.platforms@.len(),
                list == self@,
                b@ == start + platforms_bytes(list.take(k as int)),
                forall|j: int| 0 <= j < k ==> platform_fits(#[trigger] list[j]),
            decreases self.platforms@.len() - k,
        {
            let p = &self.platforms[k];
            enc_str(&mut b, p.name.as_str());
            enc_constraints(&mut b, p.constraints.as_slice());
            proof {
                let next = list.take(k + 1);
                assert(next.drop_last() =~= list.take(k as int));
                assert(list[k as int] == p@);
                assert(b@ =~= start + platforms_bytes(next));
            }
            k += 1;
        }
        assert(list.take(k as int) =~= list);
        b
    }
}

impl<I> ResolvedToolchainContextValue<I> {
    /// What the content digest is taken over. `infos` are the byte forms of the providers, in the
    /// order of the ids of their types.
    pub fn digest_input(&self, infos: &[Vec<u8>]) -> (r: Vec<u8>)
        requires
            infos@.len() == self@.resolved.len(),
        ensures
            exists|types: Seq<Seq<char>>| #[trigger]
                types_in_order(self@.resolved, types) && r@ == context_content(
                    self@.selected,
                    self@.target,
                    choices(types, infos@),
                ) && context_fits(self@.selected, self@.target, types),
    {
        let entries = self.type_to_resolved.entries();
        let ghost types = crate::typemap::entry_types(entries@);
        proof {
            crate::typemap::lemma_listing_len(self@.resolved, entries@);
        }
        let mut b: Vec<u8> = Vec::new();
        enc_str(&mut b, self.selected_exec_platform.as_str());
        enc_str(&mut b, self.target_platform.as_str());
        enc_count(&mut b, entries.len() as u64);
        let ghost start = b@;
        let ghost list = choices(types, infos@);
        let mut k: usize = 0;
        proof {
            assert(list.take(0) =~= seq![]);
            assert(start + choices_bytes(list.take(0)) =~= start);
        }
        while k < entries.len()
            invariant
                k <= entries@.len(),
                infos@.len() == entries@.len(),
                types == crate::typemap::entry_types(entries@),
                list == choices(types, infos@),
                b@ == start + choices_bytes(list.take(k as int)),
                forall|j: int|
                    0 <= j < k ==> vstd::utf8::encode_utf8(#[trigger] types[j]).len() <= u64::MAX,
            decreases entries@.len() - k,
        {
            enc_str(&mut b, entries[k].0.0.as_str());
            enc_raw(&mut b, infos[k].as_slice());
            proof {
                let next = list.take(k + 1);
                assert(next.drop_last() =~= list.take(k as int));
                assert(types[k as int] == entries@[k as int].0@);
                assert(b@ =~= start + choices_bytes(next));
            }
            k += 1;
        }
        proof {
            assert(list.take(k as int) =~= list);
            assert(b@ =~= context_content(self@.selected, self@.target, list));
            assert(types_in_order(self@.resolved, types));
        }
        b
    }
}

// ---------------------------------------------------------------------------------------------
// The store of registrations
// ---------------------------------------------------------------------------------------------

/// The registrations, by configuration.
#[verifier::reject_recursive_types(I)]
pub struct ToolchainRegistry<I> {
    toolchains: StringHashMap<Vec<RegisteredToolchain<I>>>,
    exec_platforms: StringHashMap<Vec<RegisteredExecPlatform>>,
}

/// The value of a [`ToolchainRegistry`].
#[verifier::ext_equal]
pub struct RegistryModel<I> {
    pub toolchains: Map<Seq<char>, Seq<ToolchainModel<I>>>,
    pub exec_platforms: Map<Seq<char>, Seq<ExecPlatformModel>>,
}

/// What is registered for a configuration. Nothing registered is the empty set, no error.
pub open spec fn registered<T>(m: Map<Seq<char>, Seq<T>>, configuration: Seq<char>) -> Seq<T> {
    if m.dom().contains(configuration) {
        m[configuration]
    } else {
        seq![]
    }
}

impl<I> View for ToolchainRegistry<I> {
    type V = RegistryModel<I>;

    closed spec fn view(&self) -> RegistryModel<I> {
        RegistryModel {
            toolchains: self.toolchains@.map_values(
                |v: Vec<RegisteredToolchain<I>>| crate::types::toolchains(v@),
            ),
            exec_platforms: self.exec_platforms@.map_values(
                |v: Vec<RegisteredExecPlatform>| crate::types::exec_platforms(v@),
            ),
        }
    }
}

impl<I> Default for ToolchainRegistry<I> {
    fn default() -> (r: Self)
        ensures
            r@ == (RegistryModel::<I> {
                toolchains: Map::empty(),
                exec_platforms: Map::empty(),
            }),
    {
        let r = ToolchainRegistry {
            toolchains: StringHashMap::new(),
            exec_platforms: StringHashMap::new(),
        };
        assert(r@.toolchains =~= Map::empty());
        assert(r@.exec_platforms =~= Map::empty());
        r
    }
}

impl<I> ToolchainRegistry<I> {
    /// A store in which nothing is registered.
    pub fn new() -> (r: Self)
        ensures
            r@ == (RegistryModel::<I> {
                toolchains: Map::empty(),
                exec_platforms: Map::empty(),
            }),
    {
        Self::default()
    }

    /// Registers `toolchains` for the configuration, in place of those that it had.
    pub fn set_toolchains(
        &mut self,
        configuration: &ConfigId,
        toolchains: Vec<RegisteredToolchain<I>>,
    )
        ensures
            final(self)@.toolchains == old(self)@.toolchains.insert(
                configuration@,
                crate::types::toolchains(toolchains@),
            ),
            final(self)@.exec_platforms == old(self)@.exec_platforms,
    {
        self.toolchains.insert(configuration.0.clone(), toolchains);
        assert(self@.toolchains =~= old(self)@.toolchains.insert(
            configuration@,
            crate::types::toolchains(toolchains@),
        ));
    }

    /// Registers `platforms` for the configuration, in place of those that it had.
    pub fn set_exec_platforms(
        &mut self,
        configuration: &ConfigId,
        platforms: Vec<RegisteredExecPlatform>,
    )
        ensures
            final(self)@.exec_platforms == old(self)@.exec_platforms.insert(
                configuration@,
                crate::types::exec_platforms(platforms@),
            ),
            final(self)@.toolchains == old(self)@.toolchains,
    {
        self.exec_platforms.insert(configuration.0.clone(), platforms);
        assert(self@.exec_platforms =~= old(self)@.exec_platforms.insert(
            configuration@,
            crate::types::exec_platforms(platforms@),
        ));
    }

    /// A copy of the toolchains that are registered for the configuration.
    pub fn toolchains_for(&self, configuration: &ConfigId) -> (r: Vec<RegisteredToolchain<I>>) where
        I: Clone,

        ensures
            crate::types::toolchains_cloned(
                registered(self@.toolchains, configuration@),
                crate::types::toolchains(r@),
            ),
    {
        match self.toolchains.get(configuration.0.as_str()) {
            Some(v) => clone_toolchains(v),
            None => Vec::new(),
        }
    }

    /// A copy of the execution platforms that are registered for the configuration.
    pub fn exec_platforms_for(&self, configuration: &ConfigId) -> (r: Vec<RegisteredExecPlatform>)
        ensures
            crate::types::exec_platforms(r@) == registered(self@.exec_platforms, configuration@),
    {
        match self.exec_platforms.get(configuration.0.as_str()) {
            Some(v) => clone_platforms(v),
            None => {
                let r: Vec<RegisteredExecPlatform> = Vec::new();
                assert(crate::types::exec_platforms(r@) =~= seq![]);
                r
            },
        }
    }
}

// ---------------------------------------------------------------------------------------------
// The nodes that serve the registered sets
// ---------------------------------------------------------------------------------------------

/// What a node computes to.
#[derive(PartialEq, Eq, Debug)]
pub enum ComputeResult<I> {
    /// The value of the node.
    Ready(NodeValue<I>),
    /// These nodes have to be computed first.
    Missing { recorded_dep_keys: Vec<NodeKey> },
    /// The node has no value.
    Error(Error),
}

/// The node that serves the registered toolchains of the configuration in its key.
#[verifier::reject_recursive_types(I)]
pub struct RegisteredToolchainsFn<'a, I> {
    pub store: &'a ToolchainRegistry<I>,
}

impl<'a, I> RegisteredToolchainsFn<'a, I> {
    /// The registered toolchains of the configuration in `key`; a malformed key is an error.
    pub fn compute(&self, key: &NodeKey) -> (r: ComputeResult<I>) where I: Clone
        ensures
            match crate::keys::read_configuration_key(key@.canonical) {
                Ok(configuration) => r matches ComputeResult::Ready(
                    NodeValue::RegisteredToolchains(v),
                ) && crate::types::toolchains_cloned(
                    registered(self.store@.toolchains, configuration),
                    v@,
                ),
                Err(detail) => r matches ComputeResult::Error(e) && e@ == (ErrorModel::Invalid {
                    what: "REGISTERED_TOOLCHAINS key"@,
                    detail,
                }),
            },
    {
        match decode_registered_toolchains_key(key.canonical()) {
            Ok(k) => ComputeResult::Ready(
                NodeValue::RegisteredToolchains(
                    RegisteredToolchainsValue {
                        toolchains: self.store.toolchains_for(&k.configuration),
                    },
                ),
            ),
            Err(e) => ComputeResult::Error(e),
        }
    }
}

/// The node that serves the registered execution platforms of the configuration in its key.
#[verifier::reject_recursive_types(I)]
pub struct RegisteredExecutionPlatformsFn<'a, I> {
    pub store: &'a ToolchainRegistry<I>,
}

impl<'a, I> RegisteredExecutionPlatformsFn<'a, I> {
    /// The registered execution platforms of the configuration in `key`; a malformed key is an
    /// error.
    pub fn compute(&self, key: &NodeKey) -> (r: ComputeResult<I>)
        ensures
            match crate::keys::read_configuration_key(key@.canonical) {
                Ok(configuration) => r matches ComputeResult::Ready(
                    NodeValue::RegisteredExecutionPlatforms(v),
                ) && v@ == registered(self.store@.exec_platforms, configuration),
                Err(detail) => r matches ComputeResult::Error(e) && e@ == (ErrorModel::Invalid {
                    what: "REGISTERED_EXECUTION_PLATFORMS key"@,
                    detail,
                }),
            },
    {
        match decode_registered_exec_platforms_key(key.canonical()) {
            Ok(k) => ComputeResult::Ready(
                NodeValue::RegisteredExecutionPlatforms(
                    RegisteredExecutionPlatformsValue {
                        platforms: self.store.exec_platforms_for(&k.configuration),
                    },
                ),
            ),
            Err(e) => ComputeResult::Error(e),
        }
    }
}

} // verus!
