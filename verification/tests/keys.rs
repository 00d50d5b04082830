//! The keys: canonical form, byte form and fail-closed decoding.

use razel_toolchain::order::less;
use razel_toolchain::{
    decode_ctx_key, decode_registered_exec_platforms_key, decode_registered_toolchains_key, enc_str,
    ConfigId, Constraint, Cur, Error, Key, NodeKey, RegisteredExecutionPlatformsKey,
    RegisteredToolchainsKey, ToolchainContextKey, ToolchainType, ToolchainTypeReq,
    REGISTERED_EXECUTION_PLATFORMS, REGISTERED_TOOLCHAINS, TOOLCHAIN_CONTEXT,
};

fn req(t: &str, mandatory: bool) -> ToolchainTypeReq {
    ToolchainTypeReq { toolchain_type: ToolchainType(t.into()), mandatory }
}

fn base_key() -> ToolchainContextKey {
    ToolchainContextKey::new(
        ConfigId("cfg-a".into()),
        vec![req("//cc:toolchain_type", true), req("//rust:toolchain_type", false)],
        vec![Constraint("exec:gpu".into())],
        None,
        false,
    )
}

fn invalid(what: &str, detail: &str) -> Error {
    Error::Invalid { what: what.into(), detail: detail.into() }
}

#[test]
fn ctx_key_round_trips() {
    let k = base_key();
    assert_eq!(decode_ctx_key(&k.encode()).unwrap(), k, "the key must survive encode → decode");
    let k2 = ToolchainContextKey::new(
        ConfigId("cfg-b".into()),
        vec![req("//cc:toolchain_type", true)],
        vec![],
        Some("ep1".into()),
        true,
    );
    assert_eq!(decode_ctx_key(&k2.encode()).unwrap(), k2);
}

#[test]
fn ctx_key_distinct_per_dimension() {
    let base = base_key().encode();
    let mut k = base_key();
    k.configuration = ConfigId("cfg-b".into());
    assert_ne!(k.encode(), base, "configuration is keyed");
    let mut k = base_key();
    k.toolchain_types = vec![req("//cc:toolchain_type", true)];
    assert_ne!(k.encode(), base, "the requested type SET is keyed");
    let mut k = base_key();
    k.toolchain_types = vec![req("//cc:toolchain_type", true), req("//rust:toolchain_type", true)];
    assert_ne!(k.encode(), base, "a type's MANDATORY flag is keyed (optional vs mandatory sets differ)");
    let mut k = base_key();
    k.exec_constraint_labels = vec![];
    assert_ne!(k.encode(), base, "the exec-constraint labels are keyed (empty vs non-empty differ)");
    let mut k = base_key();
    k.force_exec_platform = Some("ep1".into());
    assert_ne!(k.encode(), base, "force_exec_platform is keyed (None sentinel vs Some differ)");
    let mut k = base_key();
    k.debug_target = true;
    assert_ne!(k.encode(), base, "debug_target is keyed");
}

#[test]
fn ctx_key_canonicalizes_set_and_constraints() {
    let a = ToolchainContextKey::new(
        ConfigId("c".into()),
        vec![req("//b:t", false), req("//a:t", true), req("//b:t", true)],
        vec![Constraint("x".into()), Constraint("x".into()), Constraint("a".into())],
        None,
        false,
    );
    let b = ToolchainContextKey::new(
        ConfigId("c".into()),
        vec![req("//b:t", true), req("//a:t", true)],
        vec![Constraint("a".into()), Constraint("x".into())],
        None,
        false,
    );
    assert_eq!(a.encode(), b.encode(), "sorted + strictest-deduped: dup type ⇒ mandatory wins");
    assert_eq!(a.toolchain_types, vec![req("//a:t", true), req("//b:t", true)]);
    assert_eq!(a.exec_constraint_labels, vec![Constraint("a".into()), Constraint("x".into())]);
}

#[test]
fn ctx_key_decode_is_fail_closed() {
    let k = base_key().encode();
    assert!(matches!(decode_ctx_key(&k[..k.len() - 1]), Err(Error::Invalid { .. })), "truncated → typed error");
    let mut trailing = k.clone();
    trailing.push(0);
    assert!(matches!(decode_ctx_key(&trailing), Err(Error::Invalid { .. })), "trailing bytes → typed error");
    let mut bad_tag = k;
    let last = bad_tag.len() - 1;
    bad_tag[last] = 7; // debug_target byte must be 0|1
    assert!(matches!(decode_ctx_key(&bad_tag), Err(Error::Invalid { .. })), "bad bool tag → typed error");
}

#[test]
fn ctx_key_decode_says_why_it_fails() {
    let what = "TOOLCHAIN_CONTEXT key";
    let k = base_key().encode();
    let last = k.len() - 1;
    assert_eq!(decode_ctx_key(&k[..last]), Err(invalid(what, "truncated")));
    let mut trailing = k.clone();
    trailing.push(0);
    assert_eq!(decode_ctx_key(&trailing), Err(invalid(what, "trailing bytes")));
    let mut bad_bool = k.clone();
    bad_bool[last] = 7;
    assert_eq!(decode_ctx_key(&bad_bool), Err(invalid(what, "bad bool tag 7")));
    let mut bad_option = k.clone();
    bad_option[last - 1] = 255;
    assert_eq!(decode_ctx_key(&bad_option), Err(invalid(what, "bad option tag 255")));
    let mut not_text = k;
    not_text[8] = 0xff;
    assert_eq!(decode_ctx_key(&not_text), Err(invalid(what, "non-utf8")));
    assert_eq!(decode_ctx_key(&[]), Err(invalid(what, "truncated")));
}

#[test]
fn every_cut_of_a_key_is_refused() {
    let k = base_key().encode();
    for n in 0..k.len() {
        assert!(decode_ctx_key(&k[..n]).is_err());
    }
    assert!(decode_ctx_key(&k).is_ok());
}

#[test]
fn a_huge_count_is_refused() {
    let mut b = Vec::new();
    enc_str(&mut b, "c");
    b.extend_from_slice(&u64::MAX.to_be_bytes());
    assert_eq!(decode_ctx_key(&b), Err(invalid("TOOLCHAIN_CONTEXT key", "truncated")));
    assert_eq!(decode_ctx_key(&u64::MAX.to_be_bytes()), Err(invalid("TOOLCHAIN_CONTEXT key", "truncated")));
}

#[test]
fn ctx_key_bytes_are_framed() {
    let k = ToolchainContextKey::new(
        ConfigId("c".into()),
        vec![req("t", true)],
        vec![Constraint("é".into())],
        Some("p".into()),
        true,
    );
    let want: Vec<u8> = vec![
        0, 0, 0, 0, 0, 0, 0, 1, b'c', // configuration
        0, 0, 0, 0, 0, 0, 0, 1, // one type
        0, 0, 0, 0, 0, 0, 0, 1, b't', 1, // mandatory
        0, 0, 0, 0, 0, 0, 0, 1, // one label
        0, 0, 0, 0, 0, 0, 0, 2, 0xc3, 0xa9, // of two bytes
        1, 0, 0, 0, 0, 0, 0, 0, 1, b'p', // forced platform
        1, // debug
    ];
    assert_eq!(k.encode(), want);
    assert_eq!(decode_ctx_key(&want).unwrap(), k);
    assert_eq!(k.kind(), TOOLCHAIN_CONTEXT);
    assert_eq!(TOOLCHAIN_CONTEXT, 50);
}

#[test]
fn a_key_that_is_not_canonical_round_trips_as_it_is() {
    let k = ToolchainContextKey {
        configuration: ConfigId("c".into()),
        toolchain_types: vec![req("b", false), req("a", true), req("b", true)],
        exec_constraint_labels: vec![Constraint("y".into()), Constraint("x".into())],
        force_exec_platform: Some("".into()),
        debug_target: false,
    };
    assert_eq!(decode_ctx_key(&k.encode()).unwrap(), k);
}

#[test]
fn canonical_form_is_stable() {
    let a = ToolchainContextKey::new(
        ConfigId("c".into()),
        vec![req("b", false), req("a", false), req("a", true), req("ab", false)],
        vec![Constraint("b".into()), Constraint("".into()), Constraint("b".into())],
        None,
        false,
    );
    assert_eq!(a.toolchain_types, vec![req("a", true), req("ab", false), req("b", false)]);
    assert_eq!(a.exec_constraint_labels, vec![Constraint("".into()), Constraint("b".into())]);
    let b = ToolchainContextKey::new(
        a.configuration.clone(),
        a.toolchain_types.clone(),
        a.exec_constraint_labels.clone(),
        a.force_exec_platform.clone(),
        a.debug_target,
    );
    assert_eq!(a, b);
}

#[test]
fn order_is_that_of_str() {
    let texts = ["", "a", "ab", "b", "B", "é", "z", "\u{ffff}", "\u{10000}", "//a:t", "//b:t"];
    for a in texts {
        for b in texts {
            assert_eq!(less(a, b), a < b, "{a:?} {b:?}");
        }
    }
}

#[test]
fn registered_keys_round_trip_and_are_distinct_nodes() {
    let t = RegisteredToolchainsKey { configuration: ConfigId("cfg".into()) };
    let p = RegisteredExecutionPlatformsKey { configuration: ConfigId("cfg".into()) };
    assert_eq!(t.encode(), vec![0, 0, 0, 0, 0, 0, 0, 3, b'c', b'f', b'g']);
    assert_eq!(decode_registered_toolchains_key(&t.encode()).unwrap(), t);
    assert_eq!(decode_registered_exec_platforms_key(&p.encode()).unwrap(), p);
    assert_eq!(NodeKey::from_key(&t).kind, REGISTERED_TOOLCHAINS);
    assert_eq!(NodeKey::from_key(&p).kind, REGISTERED_EXECUTION_PLATFORMS);
    assert_eq!((REGISTERED_TOOLCHAINS, REGISTERED_EXECUTION_PLATFORMS), (51, 52));
    assert_ne!(NodeKey::from_key(&t), NodeKey::from_key(&p));
    let other = RegisteredToolchainsKey { configuration: ConfigId("cf".into()) };
    assert_ne!(NodeKey::from_key(&t), NodeKey::from_key(&other));
}

#[test]
fn registered_keys_decode_fail_closed() {
    let b = RegisteredToolchainsKey { configuration: ConfigId("cfg".into()) }.encode();
    assert_eq!(
        decode_registered_toolchains_key(&b[..5]),
        Err(invalid("REGISTERED_TOOLCHAINS key", "truncated"))
    );
    let mut more = b.clone();
    more.push(1);
    assert_eq!(
        decode_registered_exec_platforms_key(&more),
        Err(invalid("REGISTERED_EXECUTION_PLATFORMS key", "trailing bytes"))
    );
}

#[test]
fn the_cursor_reads_what_was_written() {
    let mut b = Vec::new();
    enc_str(&mut b, "grüße");
    b.extend_from_slice(&0x0102_0304_0506_0708u64.to_be_bytes());
    b.push(1);
    b.push(9);
    let mut c = Cur::new(&b, "test");
    assert_eq!(c.str().unwrap(), "grüße");
    assert_eq!(c.u64().unwrap(), 0x0102_0304_0506_0708);
    assert_eq!(c.bool(), Ok(true));
    assert_eq!(c.done(), Err(invalid("test", "trailing bytes")));
    assert_eq!(c.byte(), Ok(9));
    assert_eq!(c.done(), Ok(()));
    assert_eq!(c.take(0), Ok(&[][..]));
    assert_eq!(c.take(1), Err(invalid("test", "truncated")));
    assert_eq!(c.take(usize::MAX), Err(invalid("test", "truncated")));
    assert_eq!(c.err("why"), invalid("test", "why"));
}
