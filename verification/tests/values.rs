//! The values of the nodes, what their digests are taken over, and the store of registrations.

use razel_toolchain::{
    derive_target_platform, encode_registered_toolchain, req_is_mandatory, resolve, ComputeResult, ConfigId,
    Constraint, Demand, Error, Key, NodeKey, NodeValue, Platform, PlatformDefinitions,
    RegisteredExecPlatform, RegisteredExecutionPlatformsFn, RegisteredExecutionPlatformsKey,
    RegisteredExecutionPlatformsValue, RegisteredToolchain, RegisteredToolchainsFn,
    RegisteredToolchainsKey, RegisteredToolchainsValue, ResolvedToolchainContextValue,
    ToolchainContextFn, ToolchainContextKey, ToolchainRegistry, ToolchainType, ToolchainTypeReq,
    TypeMap, ValuePolicy,
};

/// A value of a provider field.
#[derive(Clone, PartialEq, Eq, Debug)]
enum BzlValue {
    Str(String),
    Int(i64),
}

/// The provider that these tests let toolchains carry.
#[derive(Clone, PartialEq, Eq, Debug)]
struct ProviderInstance {
    provider: String,
    fields: Vec<(String, BzlValue)>,
}

fn put(b: &mut Vec<u8>, s: &str) {
    b.extend_from_slice(&(s.len() as u64).to_be_bytes());
    b.extend_from_slice(s.as_bytes());
}

/// A byte form of the provider that ends by itself.
fn encode(info: &ProviderInstance) -> Vec<u8> {
    let mut b = Vec::new();
    put(&mut b, &info.provider);
    b.extend_from_slice(&(info.fields.len() as u64).to_be_bytes());
    for (name, value) in &info.fields {
        put(&mut b, name);
        match value {
            BzlValue::Str(s) => {
                b.push(0);
                put(&mut b, s);
            }
            BzlValue::Int(n) => {
                b.push(1);
                b.extend_from_slice(&n.to_be_bytes());
            }
        }
    }
    b
}

fn cc(tag: &str, os: &str) -> RegisteredToolchain<ProviderInstance> {
    RegisteredToolchain {
        toolchain_type: ToolchainType("//cc:toolchain_type".into()),
        target_compatible_with: vec![Constraint(format!("os:{os}"))],
        exec_compatible_with: vec![],
        info: ProviderInstance {
            provider: "CcToolchainInfo".into(),
            fields: vec![("id".to_string(), BzlValue::Str(tag.into()))],
        },
    }
}
fn ty() -> ToolchainType {
    ToolchainType("//cc:toolchain_type".into())
}
fn toolchains_input(v: &RegisteredToolchainsValue<ProviderInstance>) -> Vec<u8> {
    let infos: Vec<Vec<u8>> = v.toolchains.iter().map(|t| encode(&t.info)).collect();
    v.digest_input(&infos)
}
fn context_input(v: &ResolvedToolchainContextValue<ProviderInstance>) -> Vec<u8> {
    let infos: Vec<Vec<u8>> = v.type_to_resolved.entries().iter().map(|e| encode(&e.1)).collect();
    v.digest_input(&infos)
}

#[test]
fn content_digest_distinguishes_non_string_fields() {
    let mk = |n: i64| {
        let mut type_to_resolved = TypeMap::new();
        type_to_resolved.insert(
            ty(),
            ProviderInstance { provider: "CcInfo".into(), fields: vec![("v".to_string(), BzlValue::Int(n))] },
        );
        ResolvedToolchainContextValue {
            selected_exec_platform: "host".into(),
            target_platform: "p".into(),
            type_to_resolved,
        }
    };
    assert_ne!(context_input(&mk(1)), context_input(&mk(2)), "Int-only difference must change the digest");
    assert_eq!(context_input(&mk(7)), context_input(&mk(7)), "equal values → equal digest (determinism)");
    let base = mk(1);
    let mut other_platform = base.clone();
    other_platform.selected_exec_platform = "ep1".into();
    assert_ne!(context_input(&base), context_input(&other_platform), "the selected exec platform is in the digest");
}

#[test]
fn registered_set_digest_covers_every_field() {
    let base = RegisteredToolchainsValue { toolchains: vec![cc("linux-cc", "linux")] };
    let mut diff_exec = base.clone();
    diff_exec.toolchains[0].exec_compatible_with = vec![Constraint("exec:cap".into())];
    assert_ne!(toolchains_input(&base), toolchains_input(&diff_exec), "exec_compatible_with is digested");
    let mut diff_target = base.clone();
    diff_target.toolchains[0].target_compatible_with = vec![Constraint("os:macos".into())];
    assert_ne!(toolchains_input(&base), toolchains_input(&diff_target), "target_compatible_with is digested");
    let eps = RegisteredExecutionPlatformsValue {
        platforms: vec![RegisteredExecPlatform { name: "ab".into(), constraints: vec![Constraint("c".into())] }],
    };
    let eps2 = RegisteredExecutionPlatformsValue {
        platforms: vec![RegisteredExecPlatform { name: "a".into(), constraints: vec![Constraint("bc".into())] }],
    };
    assert_ne!(eps.digest_input(), eps2.digest_input(), "name/constraint boundary is framed, not concatenated");
}

#[test]
fn digest_inputs_are_framed() {
    let t = RegisteredToolchain {
        toolchain_type: ToolchainType("t".into()),
        target_compatible_with: vec![Constraint("x".into())],
        exec_compatible_with: vec![],
        info: 0u8,
    };
    let item: Vec<u8> = vec![
        0, 0, 0, 0, 0, 0, 0, 1, b't', // type
        0, 0, 0, 0, 0, 0, 0, 1, 0, 0, 0, 0, 0, 0, 0, 1, b'x', // target constraints
        0, 0, 0, 0, 0, 0, 0, 0, // execution constraints
        8, 9, // provider
    ];
    let mut b = vec![7];
    encode_registered_toolchain(&t, &[8, 9], &mut b);
    assert_eq!(b[0], 7);
    assert_eq!(b[1..], item[..]);
    let mut want = vec![0, 0, 0, 0, 0, 0, 0, 1];
    want.extend_from_slice(&item);
    assert_eq!(RegisteredToolchainsValue { toolchains: vec![t] }.digest_input(&[vec![8, 9]]), want);

    let eps = RegisteredExecutionPlatformsValue {
        platforms: vec![RegisteredExecPlatform { name: "n".into(), constraints: vec![] }],
    };
    assert_eq!(
        eps.digest_input(),
        vec![0, 0, 0, 0, 0, 0, 0, 1, 0, 0, 0, 0, 0, 0, 0, 1, b'n', 0, 0, 0, 0, 0, 0, 0, 0]
    );

    let mut type_to_resolved = TypeMap::new();
    type_to_resolved.insert(ToolchainType("b".into()), 2u8);
    type_to_resolved.insert(ToolchainType("a".into()), 1u8);
    let v = ResolvedToolchainContextValue {
        selected_exec_platform: "s".into(),
        target_platform: "".into(),
        type_to_resolved,
    };
    assert_eq!(
        v.digest_input(&[vec![1], vec![2]]),
        vec![
            0, 0, 0, 0, 0, 0, 0, 1, b's', 0, 0, 0, 0, 0, 0, 0, 0, // platforms
            0, 0, 0, 0, 0, 0, 0, 2, // two types, in order
            0, 0, 0, 0, 0, 0, 0, 1, b'a', 1, 0, 0, 0, 0, 0, 0, 0, 1, b'b', 2,
        ]
    );
}

#[test]
fn type_map_keeps_the_order_of_ids() {
    let mut m = TypeMap::new();
    assert_eq!(m.len(), 0);
    for (id, v) in [("b", 1), ("a", 2), ("c", 3), ("b", 4)] {
        m.insert(ToolchainType(id.into()), v);
    }
    assert_eq!(m.len(), 3);
    assert_eq!(m.get(&ToolchainType("b".into())), Some(&4), "a later value takes the place of an earlier one");
    assert_eq!(m.get(&ToolchainType("d".into())), None);
    assert!(m.contains_key(&ToolchainType("a".into())));
    assert!(!m.contains_key(&ToolchainType("".into())));
    let ids: Vec<String> = m.entries().iter().map(|e| e.0.0.clone()).collect();
    assert_eq!(ids, vec!["a", "b", "c"]);
    assert_eq!(m.clone(), m);
    let values: Vec<i32> = m.into_entries().into_iter().map(|e| e.1).collect();
    assert_eq!(values, vec![2, 4, 3]);
}

#[test]
fn values_are_compared_by_content() {
    let a = RegisteredToolchainsValue { toolchains: vec![cc("linux-cc", "linux")] };
    assert!(a.value_eq(&NodeValue::RegisteredToolchains(a.clone())));
    let mut other_info = a.clone();
    other_info.toolchains[0].info.provider = "Other".into();
    assert!(!a.value_eq(&NodeValue::RegisteredToolchains(other_info)));
    let mut other_target = a.clone();
    other_target.toolchains[0].target_compatible_with.clear();
    assert!(!a.value_eq(&NodeValue::RegisteredToolchains(other_target)));
    assert!(!a.value_eq(&NodeValue::RegisteredToolchains(RegisteredToolchainsValue { toolchains: vec![] })));
    assert!(!a.value_eq(&NodeValue::Other));

    let p = RegisteredExecutionPlatformsValue {
        platforms: vec![RegisteredExecPlatform { name: "n".into(), constraints: vec![Constraint("c".into())] }],
    };
    assert!(p.value_eq::<u8>(&NodeValue::RegisteredExecutionPlatforms(p.clone())));
    let mut renamed = p.clone();
    renamed.platforms[0].name = "m".into();
    assert!(!p.value_eq::<u8>(&NodeValue::RegisteredExecutionPlatforms(renamed)));
    assert!(!p.value_eq(&NodeValue::RegisteredToolchains(a.clone())));

    let mut type_to_resolved = TypeMap::new();
    type_to_resolved.insert(ty(), 1);
    let c = ResolvedToolchainContextValue {
        selected_exec_platform: "host".into(),
        target_platform: "p".into(),
        type_to_resolved,
    };
    assert!(c.value_eq(&NodeValue::ResolvedToolchainContext(c.clone())));
    let mut other = c.clone();
    other.type_to_resolved.insert(ty(), 2);
    assert!(!c.value_eq(&NodeValue::ResolvedToolchainContext(other)));
    let mut more = c.clone();
    more.type_to_resolved.insert(ToolchainType("x".into()), 1);
    assert!(!c.value_eq(&NodeValue::ResolvedToolchainContext(more)));
    let mut elsewhere = c.clone();
    elsewhere.target_platform = "q".into();
    assert!(!c.value_eq(&NodeValue::ResolvedToolchainContext(elsewhere)));

    let plain = ValuePolicy {
        comparable: true,
        always_dirty: false,
        shareable: true,
        serializable: true,
        process_local: false,
    };
    assert_eq!((a.policy(), p.policy(), c.policy()), (plain, plain, plain));
}

#[test]
fn registrations_are_kept_by_configuration() {
    let (a, b) = (ConfigId("a".into()), ConfigId("b".into()));
    let eps = vec![RegisteredExecPlatform { name: "ep".into(), constraints: vec![] }];
    let mut store = ToolchainRegistry::new();
    assert!(store.toolchains_for(&a).is_empty() && store.exec_platforms_for(&a).is_empty());
    store.set_toolchains(&a, vec![cc("one", "linux")]);
    store.set_exec_platforms(&b, eps.clone());
    assert_eq!(store.toolchains_for(&a), vec![cc("one", "linux")]);
    assert!(store.toolchains_for(&b).is_empty());
    assert!(store.exec_platforms_for(&a).is_empty());
    assert_eq!(store.exec_platforms_for(&b), eps);
    store.set_toolchains(&a, vec![cc("two", "macos"), cc("one", "linux")]);
    assert_eq!(store.toolchains_for(&a), vec![cc("two", "macos"), cc("one", "linux")]);

    let key = NodeKey::from_key(&RegisteredToolchainsKey { configuration: a });
    match (RegisteredToolchainsFn { store: &store }).compute(&key) {
        ComputeResult::Ready(NodeValue::RegisteredToolchains(v)) => assert_eq!(v.toolchains.len(), 2),
        _ => panic!("the registered toolchains are served"),
    }
    let key = NodeKey::from_key(&RegisteredExecutionPlatformsKey { configuration: b });
    match (RegisteredExecutionPlatformsFn { store: &store }).compute(&key) {
        ComputeResult::Ready(NodeValue::RegisteredExecutionPlatforms(v)) => assert_eq!(v.platforms, eps),
        _ => panic!("the registered platforms are served"),
    }
    let bad = NodeKey { kind: 51, canonical: vec![1] };
    assert_eq!(
        (RegisteredToolchainsFn { store: &store }).compute(&bad),
        ComputeResult::Error(Error::Invalid { what: "REGISTERED_TOOLCHAINS key".into(), detail: "truncated".into() })
    );
    assert_eq!(
        (RegisteredExecutionPlatformsFn { store: &store }).compute(&bad),
        ComputeResult::Error(Error::Invalid {
            what: "REGISTERED_EXECUTION_PLATFORMS key".into(),
            detail: "truncated".into()
        })
    );
}

// The context node, on providers that are numbers.

fn tool(id: &str, runs_on: &[&str], info: u32) -> RegisteredToolchain<u32> {
    RegisteredToolchain {
        toolchain_type: ToolchainType(id.into()),
        target_compatible_with: vec![],
        exec_compatible_with: runs_on.iter().map(|c| Constraint(c.to_string())).collect(),
        info,
    }
}
fn ep(name: &str, constraints: &[&str]) -> RegisteredExecPlatform {
    RegisteredExecPlatform {
        name: name.into(),
        constraints: constraints.iter().map(|c| Constraint(c.to_string())).collect(),
    }
}
fn req(t: &str, mandatory: bool) -> ToolchainTypeReq {
    ToolchainTypeReq { toolchain_type: ToolchainType(t.into()), mandatory }
}
fn node() -> ToolchainContextFn {
    let mut defs = PlatformDefinitions::new();
    defs.insert("p".into(), Platform { constraints: vec![] });
    ToolchainContextFn::new(defs, ep("host", &[]))
}
fn not_found(what: &str, detail: &str) -> Error {
    Error::NotFound { what: what.into(), detail: detail.into() }
}

#[test]
fn resolve_names_the_type_that_it_does_not_find() {
    let p = Platform { constraints: vec![] };
    assert_eq!(
        resolve(&p, &ToolchainType("t".into()), &[tool("u", &[], 1)]),
        Err(not_found(
            "toolchain",
            "no registered toolchain of type 't' is compatible with the target platform"
        ))
    );
    assert_eq!(resolve(&p, &ToolchainType("t".into()), &[tool("t", &["x"], 1), tool("t", &[], 2)]), Ok(1));
}

#[test]
fn a_forced_platform_is_the_only_candidate() {
    let mut k = ToolchainContextKey::new(ConfigId("p".into()), vec![], vec![], Some("b".into()), false);
    let eps = vec![ep("a", &[]), ep("b", &[])];
    let v = node().resolve_context::<u32>(&k, &[], eps.clone()).unwrap();
    assert_eq!(v.selected_exec_platform, "b");
    k.force_exec_platform = Some("host".into());
    assert_eq!(node().resolve_context::<u32>(&k, &[], eps.clone()).unwrap().selected_exec_platform, "host");
    k.force_exec_platform = Some("z".into());
    assert_eq!(
        node().resolve_context::<u32>(&k, &[], eps),
        Err(not_found("forced exec platform", "'z' is not a registered execution platform (nor the host)"))
    );
}

#[test]
fn an_unserved_request_names_all_mandatory_types() {
    let k = ToolchainContextKey::new(
        ConfigId("p".into()),
        vec![req("c", true), req("a", true), req("b", false)],
        vec![],
        None,
        false,
    );
    assert_eq!(
        node().resolve_context(&k, &[tool("a", &[], 1)], vec![]),
        Err(not_found(
            "toolchain",
            "no execution platform supplies all mandatory toolchain type(s) [a, c] for target platform 'p'"
        ))
    );
    let labelled =
        ToolchainContextKey::new(ConfigId("p".into()), vec![], vec![Constraint("gpu".into())], None, false);
    assert_eq!(
        node().resolve_context::<u32>(&labelled, &[], vec![]),
        Err(not_found(
            "toolchain",
            "no execution platform supplies all mandatory toolchain type(s) [] for target platform 'p'"
        )),
        "no candidate satisfies the label"
    );
    let nowhere = ToolchainContextKey::new(ConfigId("q".into()), vec![], vec![], None, false);
    assert_eq!(node().resolve_context::<u32>(&nowhere, &[], vec![]), Err(not_found("platform", "q")));
}

#[test]
fn the_host_wins_only_with_more_types() {
    let k = ToolchainContextKey::new(
        ConfigId("p".into()),
        vec![req("a", true), req("b", false)],
        vec![],
        None,
        false,
    );
    let tools = [tool("a", &[], 1), tool("b", &["fast"], 2), tool("b", &[], 3)];
    let v = node().resolve_context(&k, &tools, vec![ep("fast", &["fast"])]).unwrap();
    assert_eq!(v.selected_exec_platform, "fast", "the host does not win a tie");
    assert_eq!(v.type_to_resolved.get(&ToolchainType("b".into())), Some(&2), "the first that fits");
    let mut defs = PlatformDefinitions::new();
    defs.insert("p".into(), Platform { constraints: vec![] });
    let f = ToolchainContextFn::new(defs, ep("host", &["fast"]));
    let v = f.resolve_context(&k, &tools[..2], vec![ep("plain", &[])]).unwrap();
    assert_eq!(v.selected_exec_platform, "host");
}

#[test]
fn the_node_answers_for_each_pair_of_demands() {
    let f = node();
    let key = NodeKey::from_key(&ToolchainContextKey::new(ConfigId("p".into()), vec![], vec![], None, false));
    let deps = f.dependencies(&key).unwrap();
    let tools = || Demand::Ready(NodeValue::RegisteredToolchains(RegisteredToolchainsValue::<u32> { toolchains: vec![] }));
    let platforms =
        || Demand::Ready(NodeValue::RegisteredExecutionPlatforms(RegisteredExecutionPlatformsValue { platforms: vec![] }));
    assert_eq!(
        f.compute::<u32>(&key, Demand::Missing, Demand::Ready(NodeValue::Other)),
        ComputeResult::Missing { recorded_dep_keys: vec![deps[0].clone()] }
    );
    assert_eq!(
        f.compute(&key, tools(), Demand::Missing),
        ComputeResult::Missing { recorded_dep_keys: vec![deps[1].clone()] }
    );
    assert_eq!(
        f.compute(&key, platforms(), tools()),
        ComputeResult::Error(Error::Invalid {
            what: "REGISTERED_TOOLCHAINS value".into(),
            detail: "not a RegisteredToolchainsValue".into()
        })
    );
    assert_eq!(
        f.compute(&key, tools(), tools()),
        ComputeResult::Error(Error::Invalid {
            what: "REGISTERED_EXECUTION_PLATFORMS value".into(),
            detail: "not a RegisteredExecutionPlatformsValue".into()
        })
    );
    assert!(matches!(
        f.compute(&key, tools(), platforms()),
        ComputeResult::Ready(NodeValue::ResolvedToolchainContext(_))
    ));
    let bad = NodeKey { kind: 50, canonical: vec![] };
    let truncated = Error::Invalid { what: "TOOLCHAIN_CONTEXT key".into(), detail: "truncated".into() };
    assert_eq!(f.dependencies(&bad), Err(truncated.clone()));
    assert_eq!(f.compute(&bad, tools(), platforms()), ComputeResult::Error(truncated));
}

#[test]
fn small_rules() {
    assert_eq!(derive_target_platform(&ConfigId("cfg".into())), "cfg");
    assert!(req_is_mandatory(&req("t", true)));
    assert!(!req_is_mandatory(&req("t", false)));
    let k = ToolchainContextKey::new(ConfigId("p".into()), vec![], vec![], None, false);
    assert_eq!(NodeKey::from_key(&k).canonical(), &k.encode()[..]);
}

#[test]
fn the_dependencies_are_the_registered_sets_and_are_served() {
    let f = node();
    let c = || ConfigId("p".into());
    let key = NodeKey::from_key(&ToolchainContextKey::new(c(), vec![req("a", true)], vec![], None, true));
    let deps = f.dependencies(&key).unwrap();
    assert_eq!(
        deps,
        vec![
            NodeKey::from_key(&RegisteredToolchainsKey { configuration: c() }),
            NodeKey::from_key(&RegisteredExecutionPlatformsKey { configuration: c() }),
        ]
    );
    let mut store = ToolchainRegistry::new();
    store.set_toolchains(&c(), vec![tool("a", &[], 7)]);
    store.set_exec_platforms(&c(), vec![ep("ep", &[])]);
    store.set_toolchains(&ConfigId("q".into()), vec![tool("a", &[], 8)]);
    let serve = |r: ComputeResult<u32>| match r {
        ComputeResult::Ready(v) => Demand::Ready(v),
        _ => panic!("a dependency is served"),
    };
    let tools = serve((RegisteredToolchainsFn { store: &store }).compute(&deps[0]));
    let platforms = serve((RegisteredExecutionPlatformsFn { store: &store }).compute(&deps[1]));
    match f.compute(&key, tools, platforms) {
        ComputeResult::Ready(NodeValue::ResolvedToolchainContext(v)) => {
            assert_eq!(v.selected_exec_platform, "ep");
            assert_eq!(v.target_platform, "p");
            assert_eq!(v.type_to_resolved.get(&ToolchainType("a".into())), Some(&7));
        }
        _ => panic!("the context resolves"),
    }
}

#[test]
fn canonical_form_keeps_the_context() {
    let plain = ToolchainContextKey {
        configuration: ConfigId("p".into()),
        toolchain_types: vec![req("b", false), req("a", true), req("b", true)],
        exec_constraint_labels: vec![Constraint("y".into()), Constraint("x".into()), Constraint("y".into())],
        force_exec_platform: None,
        debug_target: false,
    };
    let k = plain.clone();
    let canonical = ToolchainContextKey::new(
        k.configuration,
        k.toolchain_types,
        k.exec_constraint_labels,
        k.force_exec_platform,
        k.debug_target,
    );
    assert_ne!(plain, canonical);
    let tools = [tool("a", &[], 1), tool("b", &["x"], 2)];
    let eps = vec![ep("one", &["x"]), ep("two", &["x", "y"])];
    let v = node().resolve_context(&plain, &tools, eps.clone()).unwrap();
    assert_eq!(v.selected_exec_platform, "two");
    assert_eq!(v, node().resolve_context(&canonical, &tools, eps.clone()).unwrap());
    assert!(node().resolve_context(&plain, &tools[..1], eps.clone()).is_err());
    assert!(node().resolve_context(&canonical, &tools[..1], eps).is_err());
}

#[test]
fn a_context_matches_as_resolve_does_on_what_can_run() {
    let k = ToolchainContextKey::new(ConfigId("p".into()), vec![req("a", true)], vec![], None, false);
    let tools = [tool("a", &["gpu"], 1), tool("b", &[], 2), tool("a", &["x"], 3), tool("a", &[], 4)];
    let v = node().resolve_context(&k, &tools, vec![ep("ep", &["x"])]).unwrap();
    let eligible = [tool("b", &[], 2), tool("a", &["x"], 3), tool("a", &[], 4)];
    let platform = Platform { constraints: vec![] };
    let ty = ToolchainType("a".into());
    assert_eq!(resolve(&platform, &ty, &eligible).ok().as_ref(), v.type_to_resolved.get(&ty));
    assert_eq!(v.type_to_resolved.get(&ty), Some(&3));
}

#[test]
fn requests_without_mandatory_types_resolve() {
    let k = ToolchainContextKey::new(ConfigId("p".into()), vec![req("a", false)], vec![], None, false);
    let v = node().resolve_context::<u32>(&k, &[], vec![]).unwrap();
    assert_eq!(v.selected_exec_platform, "host");
    assert_eq!(v.type_to_resolved.len(), 0);
}
