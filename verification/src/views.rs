//! What the mathematical values of this library's types hold: every field, and nothing else.

use crate::error::{Error, ErrorModel};
use crate::keys::{NodeKey, ToolchainContextKey};
use crate::nodes::{
    RegisteredExecutionPlatformsValue, RegisteredToolchainsValue, ResolvedToolchainContextValue,
};
use crate::types::{
    ConfigId, Constraint, Platform, RegisteredExecPlatform, RegisteredToolchain, ToolchainType,
    ToolchainTypeReq,
};
use vstd::prelude::*;

verus! {

/// Ids and labels stand for their text.
pub proof fn law_text_values(configuration: ConfigId, label: Constraint, ty: ToolchainType)
    ensures
        configuration@ == configuration.0@,
        label@ == label.0@,
        ty@ == ty.0@,
{
}

/// A platform stands for its constraints, in order.
pub proof fn law_platform_value(p: Platform)
    ensures
        p@.len() == p.constraints@.len(),
        forall|i: int| 0 <= i < p@.len() ==> #[trigger] p@[i] == p.constraints@[i].0@,
{
}

/// A request stands for its type and its flag.
pub proof fn law_request_value(r: ToolchainTypeReq)
    ensures
        r@.ty == r.toolchain_type.0@,
        r@.mandatory == r.mandatory,
{
}

/// A toolchain stands for its type, both lists of constraints, in order, and its provider.
pub proof fn law_toolchain_value<I>(t: RegisteredToolchain<I>)
    ensures
        t@.ty == t.toolchain_type.0@,
        t@.target.len() == t.target_compatible_with@.len(),
        forall|i: int|
            0 <= i < t@.target.len() ==> #[trigger] t@.target[i] == t.target_compatible_with@[i].0@,
        t@.runs_on.len() == t.exec_compatible_with@.len(),
        forall|i: int|
            0 <= i < t@.runs_on.len() ==> #[trigger] t@.runs_on[i] == t.exec_compatible_with@[i].0@,
        t@.info == t.info,
{
}

/// An execution platform stands for its name and its constraints, in order.
pub proof fn law_exec_platform_value(p: RegisteredExecPlatform)
    ensures
        p@.name == p.name@,
        p@.constraints.len() == p.constraints@.len(),
        forall|i: int|
            0 <= i < p@.constraints.len() ==> #[trigger] p@.constraints[i] == p.constraints@[i].0@,
{
}

/// Lists stand for the values of their items, in order.
pub proof fn law_list_values<I>(
    labels: Seq<Constraint>,
    reqs: Seq<ToolchainTypeReq>,
    toolchains: Seq<RegisteredToolchain<I>>,
    platforms: Seq<RegisteredExecPlatform>,
    keys: Seq<NodeKey>,
)
    ensures
        crate::types::labels(labels).len() == labels.len(),
        forall|i: int|
            0 <= i < labels.len() ==> #[trigger] crate::types::labels(labels)[i] == labels[i].0@,
        crate::types::reqs(reqs).len() == reqs.len(),
        forall|i: int| 0 <= i < reqs.len() ==> #[trigger] crate::types::reqs(reqs)[i] == reqs[i]@,
        crate::types::toolchains(toolchains).len() == toolchains.len(),
        forall|i: int|
            0 <= i < toolchains.len() ==> #[trigger] crate::types::toolchains(toolchains)[i]
                == toolchains[i]@,
        crate::types::exec_platforms(platforms).len() == platforms.len(),
        forall|i: int|
            0 <= i < platforms.len() ==> #[trigger] crate::types::exec_platforms(platforms)[i]
                == platforms[i]@,
        crate::context::node_keys(keys).len() == keys.len(),
        forall|i: int|
            0 <= i < keys.len() ==> #[trigger] crate::context::node_keys(keys)[i] == keys[i]@,
{
}

/// A node key stands for its kind and its bytes.
pub proof fn law_node_key_value(k: NodeKey)
    ensures
        k@.kind == k.kind,
        k@.canonical == k.canonical@,
{
}

/// A context key stands for its five dimensions, the lists in order.
pub proof fn law_context_key_value(k: ToolchainContextKey)
    ensures
        k@.configuration == k.configuration.0@,
        k@.types.len() == k.toolchain_types@.len(),
        forall|i: int|
            0 <= i < k@.types.len() ==> (#[trigger] k@.types[i]).ty
                == k.toolchain_types@[i].toolchain_type.0@ && k@.types[i].mandatory
                == k.toolchain_types@[i].mandatory,
        k@.labels.len() == k.exec_constraint_labels@.len(),
        forall|i: int|
            0 <= i < k@.labels.len() ==> #[trigger] k@.labels[i]
                == k.exec_constraint_labels@[i].0@,
        k@.forced is Some <==> k.force_exec_platform is Some,
        k@.forced matches Some(name) ==> name == k.force_exec_platform->Some_0@,
        k@.debug == k.debug_target,
{
}

/// The values of nodes stand for all that they hold.
pub proof fn law_node_values<I>(
    toolchains: RegisteredToolchainsValue<I>,
    platforms: RegisteredExecutionPlatformsValue,
    context: ResolvedToolchainContextValue<I>,
)
    ensures
        toolchains@.len() == toolchains.toolchains@.len(),
        forall|i: int|
            0 <= i < toolchains@.len() ==> #[trigger] toolchains@[i] == toolchains.toolchains@[i]@,
        platforms@.len() == platforms.platforms@.len(),
        forall|i: int|
            0 <= i < platforms@.len() ==> #[trigger] platforms@[i] == platforms.platforms@[i]@,
        context@.selected == context.selected_exec_platform@,
        context@.target == context.target_platform@,
        context@.resolved == context.type_to_resolved@,
{
}

/// An error stands for its kind and both of its texts.
pub proof fn law_error_value(e: Error)
    ensures
        match e {
            Error::NotFound { what, detail } => e@ == (ErrorModel::NotFound {
                what: what@,
                detail: detail@,
            }),
            Error::Invalid { what, detail } => e@ == (ErrorModel::Invalid {
                what: what@,
                detail: detail@,
            }),
        },
{
}

} // verus!
