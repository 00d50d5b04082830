//! Resolution for one type, and the context node.

use razel_toolchain::{
    resolve, ComputeResult, ConfigId, Constraint, Demand, Error, NodeKey, NodeValue, Platform,
    PlatformDefinitions, RegisteredExecPlatform, RegisteredExecutionPlatformsKey,
    RegisteredExecutionPlatformsValue, RegisteredToolchain, RegisteredToolchainsKey,
    RegisteredToolchainsValue, ResolvedToolchainContextValue, ToolchainContextFn,
    ToolchainContextKey, ToolchainType, ToolchainTypeReq,
};
use std::collections::HashMap;

/// A value of a provider field.
#[derive(Clone, PartialEq, Eq, Debug)]
enum BzlValue {
    Str(String),
}

/// The provider that these tests let toolchains carry.
#[derive(Clone, PartialEq, Eq, Debug)]
struct ProviderInstance {
    provider: String,
    fields: Vec<(String, BzlValue)>,
}
impl ProviderInstance {
    fn get(&self, name: &str) -> Option<&BzlValue> {
        self.fields.iter().find(|f| f.0 == name).map(|f| &f.1)
    }
}

fn cc(tag: &str, os: &str) -> RegisteredToolchain<ProviderInstance> {
    RegisteredToolchain {
        toolchain_type: ToolchainType("//cc:toolchain_type".into()),
        target_compatible_with: vec![Constraint(format!("os:{os}"))],
        exec_compatible_with: vec![],
        info: ProviderInstance {
            provider: "CcToolchainInfo".into(),
            fields: vec![("id".to_string(), BzlValue::Str(tag.into()))],
        },
    }
}
fn platform(os: &str) -> Platform {
    Platform { constraints: vec![Constraint(format!("os:{os}"))] }
}
fn ty() -> ToolchainType {
    ToolchainType("//cc:toolchain_type".into())
}
fn req(t: &str, mandatory: bool) -> ToolchainTypeReq {
    ToolchainTypeReq { toolchain_type: ToolchainType(t.into()), mandatory }
}
fn host() -> RegisteredExecPlatform {
    RegisteredExecPlatform { name: "host".into(), constraints: vec![] }
}

#[test]
fn resolves_by_constraint_no_fixture() {
    let registered = vec![cc("linux-cc", "linux"), cc("macos-cc", "macos")];
    let pick = |os| resolve(&platform(os), &ty(), &registered).unwrap().get("id").cloned();
    assert_eq!(pick("linux"), Some(BzlValue::Str("linux-cc".into())));
    assert_eq!(
        pick("macos"),
        Some(BzlValue::Str("macos-cc".into())),
        "flipping the target platform flips the resolved toolchain (data-driven, no fixture)"
    );
}

#[test]
fn no_matching_toolchain_is_fail_closed() {
    let registered = vec![cc("linux-cc", "linux")];
    assert!(
        matches!(resolve(&platform("windows"), &ty(), &registered), Err(Error::NotFound { .. })),
        "an unsatisfiable platform must fail closed (no compatible toolchain), never resolve to a default"
    );
}

#[test]
fn wrong_type_is_fail_closed() {
    let registered = vec![cc("linux-cc", "linux")];
    assert!(
        resolve(&platform("linux"), &ToolchainType("//rust:toolchain_type".into()), &registered).is_err(),
        "a required type with no registered toolchain must fail closed"
    );
}

// The context node over a stub engine that serves the registered sets.

type Served = HashMap<NodeKey, NodeValue<ProviderInstance>>;

fn serve(
    cfg: &str,
    toolchains: Vec<RegisteredToolchain<ProviderInstance>>,
    eps: Vec<RegisteredExecPlatform>,
) -> Served {
    let mut m: Served = HashMap::new();
    m.insert(
        NodeKey::from_key(&RegisteredToolchainsKey { configuration: ConfigId(cfg.into()) }),
        NodeValue::RegisteredToolchains(RegisteredToolchainsValue { toolchains }),
    );
    m.insert(
        NodeKey::from_key(&RegisteredExecutionPlatformsKey { configuration: ConfigId(cfg.into()) }),
        NodeValue::RegisteredExecutionPlatforms(RegisteredExecutionPlatformsValue { platforms: eps }),
    );
    m
}

/// Requests the dependencies of the node from `served`, then computes it.
fn compute(f: &ToolchainContextFn, key: &NodeKey, served: &mut Served) -> ComputeResult<ProviderInstance> {
    let deps = match f.dependencies(key) {
        Ok(deps) => deps,
        Err(e) => return ComputeResult::Error(e),
    };
    assert_eq!(deps.len(), 2);
    let mut request = |k: &NodeKey| match served.remove(k) {
        Some(v) => Demand::Ready(v),
        None => Demand::Missing,
    };
    let toolchains = request(&deps[0]);
    let exec_platforms = request(&deps[1]);
    f.compute(key, toolchains, exec_platforms)
}

fn ctx_fn(platforms: &[(&str, &str)]) -> ToolchainContextFn {
    let mut m = PlatformDefinitions::new();
    for (name, os) in platforms {
        m.insert(name.to_string(), platform(os));
    }
    ToolchainContextFn::new(m, host())
}
fn ctx_key(cfg: &str, types: Vec<ToolchainTypeReq>) -> NodeKey {
    NodeKey::from_key(&ToolchainContextKey::new(ConfigId(cfg.into()), types, vec![], None, false))
}
fn resolved(r: ComputeResult<ProviderInstance>) -> ResolvedToolchainContextValue<ProviderInstance> {
    match r {
        ComputeResult::Ready(NodeValue::ResolvedToolchainContext(v)) => v,
        ComputeResult::Error(e) => panic!("expected Ready, got Error({e:?})"),
        _ => panic!("expected Ready"),
    }
}

#[test]
fn context_requests_registries_restart_style() {
    let f = ctx_fn(&[("p_linux", "linux")]);
    let r = compute(&f, &ctx_key("p_linux", vec![req("//cc:toolchain_type", true)]), &mut HashMap::new());
    match r {
        ComputeResult::Missing { recorded_dep_keys } => {
            assert_eq!(
                recorded_dep_keys,
                vec![
                    NodeKey::from_key(&RegisteredToolchainsKey { configuration: ConfigId("p_linux".into()) }),
                    NodeKey::from_key(&RegisteredExecutionPlatformsKey { configuration: ConfigId("p_linux".into()) }),
                ],
                "both config-keyed registry deps are recorded before restart"
            );
        }
        _ => panic!("expected Missing with the two registry dep keys"),
    }
}

#[test]
fn context_reads_registered_set_through_the_dep_edge() {
    let f = ctx_fn(&[("p_linux", "linux")]);
    let mut ctx = serve("p_linux", vec![cc("linux-cc", "linux")], vec![]);
    let v = resolved(compute(&f, &ctx_key("p_linux", vec![req("//cc:toolchain_type", true)]), &mut ctx));
    assert_eq!(
        v.type_to_resolved.get(&ty()).and_then(|i| i.get("id").cloned()),
        Some(BzlValue::Str("linux-cc".into()))
    );
    assert_eq!(v.target_platform, "p_linux", "the target platform is DERIVED from the configuration");
    assert_eq!(v.selected_exec_platform, "host", "no registered exec platform → the appended host is selected");
}

#[test]
fn context_resolves_by_derived_platform() {
    let f = ctx_fn(&[("p_linux", "linux"), ("p_macos", "macos")]);
    let registered = vec![cc("linux-cc", "linux"), cc("macos-cc", "macos")];
    let pick = |cfg: &str| {
        let mut ctx = serve(cfg, registered.clone(), vec![]);
        resolved(compute(&f, &ctx_key(cfg, vec![req("//cc:toolchain_type", true)]), &mut ctx))
            .type_to_resolved
            .get(&ty())
            .and_then(|i| i.get("id").cloned())
    };
    assert_eq!(pick("p_linux"), Some(BzlValue::Str("linux-cc".into())));
    assert_eq!(pick("p_macos"), Some(BzlValue::Str("macos-cc".into())), "config flip ⇒ resolution flip");
}

#[test]
fn missing_mandatory_type_fails_closed_naming_it() {
    let f = ctx_fn(&[("p_linux", "linux")]);
    let mut ctx = serve("p_linux", vec![cc("linux-cc", "linux")], vec![]);
    let r = compute(
        &f,
        &ctx_key("p_linux", vec![req("//cc:toolchain_type", true), req("//rust:toolchain_type", true)]),
        &mut ctx,
    );
    match r {
        ComputeResult::Error(Error::NotFound { detail, .. }) => {
            assert!(detail.contains("//rust:toolchain_type"), "the error must NAME the missing mandatory type: {detail}");
        }
        _ => panic!("a missing mandatory type must be a typed NotFound"),
    }
}

#[test]
fn missing_optional_type_is_absent_not_an_error() {
    let f = ctx_fn(&[("p_linux", "linux")]);
    let mut ctx = serve("p_linux", vec![cc("linux-cc", "linux")], vec![]);
    let v = resolved(compute(
        &f,
        &ctx_key("p_linux", vec![req("//cc:toolchain_type", true), req("//rust:toolchain_type", false)]),
        &mut ctx,
    ));
    assert!(v.type_to_resolved.contains_key(&ty()), "the mandatory type resolved");
    assert!(
        !v.type_to_resolved.contains_key(&ToolchainType("//rust:toolchain_type".into())),
        "the missing OPTIONAL type is absent from the map — not an error, not a default"
    );
}

#[test]
fn exec_selection_requires_all_mandatory_types() {
    let f = ctx_fn(&[("p_linux", "linux")]);
    let mut tc = cc("linux-cc", "linux");
    tc.exec_compatible_with = vec![Constraint("exec:cap".into())];
    let eps = vec![
        RegisteredExecPlatform { name: "ep_plain".into(), constraints: vec![] },
        RegisteredExecPlatform { name: "ep_cap".into(), constraints: vec![Constraint("exec:cap".into())] },
    ];
    let mut ctx = serve("p_linux", vec![tc], eps);
    let v = resolved(compute(&f, &ctx_key("p_linux", vec![req("//cc:toolchain_type", true)]), &mut ctx));
    assert_eq!(
        v.selected_exec_platform, "ep_cap",
        "selection must pick the platform supplying ALL mandatory types, not the first candidate"
    );
}

#[test]
fn exec_selection_is_registration_order_first() {
    let f = ctx_fn(&[("p_linux", "linux")]);
    let eps = vec![
        RegisteredExecPlatform { name: "ep_first".into(), constraints: vec![] },
        RegisteredExecPlatform { name: "ep_second".into(), constraints: vec![] },
    ];
    let mut ctx = serve("p_linux", vec![cc("linux-cc", "linux")], eps);
    let v = resolved(compute(&f, &ctx_key("p_linux", vec![req("//cc:toolchain_type", true)]), &mut ctx));
    assert_eq!(v.selected_exec_platform, "ep_first", "registration order breaks the tie");
}

#[test]
fn exec_selection_tiebreaks_by_optional_count() {
    let f = ctx_fn(&[("p_linux", "linux")]);
    let rust = RegisteredToolchain {
        toolchain_type: ToolchainType("//rust:toolchain_type".into()),
        target_compatible_with: vec![Constraint("os:linux".into())],
        exec_compatible_with: vec![Constraint("exec:cap".into())],
        info: ProviderInstance { provider: "RustInfo".into(), fields: vec![] },
    };
    let eps = vec![
        RegisteredExecPlatform { name: "ep_plain".into(), constraints: vec![] },
        RegisteredExecPlatform { name: "ep_cap".into(), constraints: vec![Constraint("exec:cap".into())] },
    ];
    let mut ctx = serve("p_linux", vec![cc("linux-cc", "linux"), rust], eps);
    let v = resolved(compute(
        &f,
        &ctx_key("p_linux", vec![req("//cc:toolchain_type", true), req("//rust:toolchain_type", false)]),
        &mut ctx,
    ));
    assert_eq!(v.selected_exec_platform, "ep_cap", "the platform resolving MORE optional types wins");
    assert!(v.type_to_resolved.contains_key(&ToolchainType("//rust:toolchain_type".into())));
}

#[test]
fn exec_constraint_labels_filter_candidates() {
    let f = ctx_fn(&[("p_linux", "linux")]);
    let eps = vec![
        RegisteredExecPlatform { name: "ep_plain".into(), constraints: vec![] },
        RegisteredExecPlatform { name: "ep_gpu".into(), constraints: vec![Constraint("exec:gpu".into())] },
    ];
    let mut ctx = serve("p_linux", vec![cc("linux-cc", "linux")], eps);
    let key = NodeKey::from_key(&ToolchainContextKey::new(
        ConfigId("p_linux".into()),
        vec![req("//cc:toolchain_type", true)],
        vec![Constraint("exec:gpu".into())],
        None,
        false,
    ));
    let v = resolved(compute(&f, &key, &mut ctx));
    assert_eq!(v.selected_exec_platform, "ep_gpu", "candidates lacking the keyed exec constraint are filtered");
}

#[test]
fn unknown_derived_platform_fails_closed() {
    let f = ctx_fn(&[("p_linux", "linux")]);
    let mut ctx = serve("p_unknown", vec![cc("linux-cc", "linux")], vec![]);
    assert!(
        matches!(
            compute(&f, &ctx_key("p_unknown", vec![req("//cc:toolchain_type", true)]), &mut ctx),
            ComputeResult::Error(Error::NotFound { .. })
        ),
        "an unknown derived target platform → fail closed"
    );
}
