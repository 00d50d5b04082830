//! Toolchain resolution for a demand-driven build engine.
//!
//! A build target asks for a set of toolchain types under a configuration. Resolution answers with
//! one context for the whole set: the execution platform that was chosen, the target platform that
//! the configuration stands for, and the provider of the toolchain that was chosen for each type.
//! It is driven by what is registered and by nothing else, and it is fail-closed: where nothing
//! matches the answer is a typed error, never a default.
//!
//! * [`types`]: the vocabulary, and `resolve`, the constraint match for one type.
//! * [`keys`]: the identity of the three kinds of nodes, and its canonical byte form.
//! * [`nodes`]: the values of the nodes, what their digests are taken over, the store of
//!   registrations and the nodes that serve it. The registered sets are dependencies of a context;
//!   nothing about them enters a key.
//! * [`context`]: the node that resolves a context.
//! * [`laws`]: what holds across these modules.
//! * [`promises`], [`answers`] and [`effects`]: what calls answer and leave behind, said of what is
//!   handed in.
//! * [`layout`] and [`decoding`]: the byte forms, and what reading them answers.
//! * [`views`]: what the mathematical values of the types hold.
//!
//! The provider of a toolchain is a type parameter throughout: resolution carries it along and
//! never looks inside.

pub mod answers;
pub mod codec;
pub mod context;
pub mod decoding;
pub mod effects;
pub mod error;
pub mod keys;
pub mod laws;
pub mod layout;
pub mod nodes;
pub mod order;
pub mod promises;
pub mod text;
pub mod typemap;
pub mod types;
pub mod views;

pub use codec::{enc_str, Cur};
pub use context::{
    derive_target_platform, req_is_mandatory, Demand, PlatformDefinitions, ToolchainContextFn,
};
pub use error::Error;
pub use keys::{
    decode_ctx_key, decode_registered_exec_platforms_key, decode_registered_toolchains_key, Key,
    NodeKey, RegisteredExecutionPlatformsKey, RegisteredToolchainsKey, ToolchainContextKey,
};
pub use nodes::{
    encode_registered_toolchain, ComputeResult, NodeValue, RegisteredExecutionPlatformsFn,
    RegisteredExecutionPlatformsValue, RegisteredToolchainsFn, RegisteredToolchainsValue,
    ResolvedToolchainContextValue, ToolchainRegistry, ValuePolicy,
};
pub use typemap::TypeMap;
pub use types::{
    resolve, ConfigId, Constraint, KindId, Platform, RegisteredExecPlatform, RegisteredToolchain,
    ToolchainType, ToolchainTypeReq, REGISTERED_EXECUTION_PLATFORMS, REGISTERED_TOOLCHAINS,
    TOOLCHAIN_CONTEXT,
};
