//! The byte forms, byte by byte, and what reading them answers.

use crate::keys::ContextKeyModel;
use crate::nodes::{
    ChoiceModel, RegisteredExecutionPlatformsValue, RegisteredToolchainsValue,
    ResolvedToolchainContextValue,
};
use crate::types::{ExecPlatformModel, ReqModel, ToolchainModel};
use vstd::prelude::*;

verus! {

// ---------------------------------------------------------------------------------------------
// What is written
// ---------------------------------------------------------------------------------------------

/// A length or count is written in eight bytes, most significant first.
pub proof fn law_count_bytes(n: nat)
    requires
        n <= u64::MAX,
    ensures
        crate::codec::count_bytes(n) == seq![
            (n / 0x100_0000_0000_0000) as u8,
            (n / 0x1_0000_0000_0000 % 0x100) as u8,
            (n / 0x100_0000_0000 % 0x100) as u8,
            (n / 0x1_0000_0000 % 0x100) as u8,
            (n / 0x100_0000 % 0x100) as u8,
            (n / 0x1_0000 % 0x100) as u8,
            (n / 0x100 % 0x100) as u8,
            (n % 0x100) as u8,
        ],
{
    let n1 = n / 256;
    let n2 = n1 / 256;
    let n3 = n2 / 256;
    let n4 = n3 / 256;
    let n5 = n4 / 256;
    let n6 = n5 / 256;
    let n7 = n6 / 256;
    let none: Seq<u8> = seq![];
    let s1 = crate::codec::big_endian(n7, 1);
    assert(crate::codec::big_endian(n7 / 256, 0) == none);
    assert(s1 == none.push((n7 % 256) as u8));
    let s2 = crate::codec::big_endian(n6, 2);
    assert(s2 == s1.push((n6 % 256) as u8));
    let s3 = crate::codec::big_endian(n5, 3);
    assert(s3 == s2.push((n5 % 256) as u8));
    let s4 = crate::codec::big_endian(n4, 4);
    assert(s4 == s3.push((n4 % 256) as u8));
    let s5 = crate::codec::big_endian(n3, 5);
    assert(s5 == s4.push((n3 % 256) as u8));
    let s6 = crate::codec::big_endian(n2, 6);
    assert(s6 == s5.push((n2 % 256) as u8));
    let s7 = crate::codec::big_endian(n1, 7);
    assert(s7 == s6.push((n1 % 256) as u8));
    assert(crate::codec::count_bytes(n) == s7.push((n % 256) as u8));
    assert(n7 == n / 0x100_0000_0000_0000 && n7 < 256);
    assert(n6 == n / 0x1_0000_0000_0000 && n5 == n / 0x100_0000_0000 && n4 == n / 0x1_0000_0000);
    assert(n3 == n / 0x100_0000 && n2 == n / 0x1_0000);
}

/// A string is written as the length of its UTF-8 encoding, then that encoding; a flag as 0 or 1.
pub proof fn law_text_bytes(s: Seq<char>)
    ensures
        crate::codec::text_bytes(s).len() == 8 + vstd::utf8::encode_utf8(s).len(),
        crate::codec::text_bytes(s).take(8) == crate::codec::count_bytes(
            vstd::utf8::encode_utf8(s).len(),
        ),
        crate::codec::text_bytes(s).skip(8) == vstd::utf8::encode_utf8(s),
        crate::codec::flag_bytes(false) == seq![0u8],
        crate::codec::flag_bytes(true) == seq![1u8],
{
    crate::codec::lemma_big_endian(vstd::utf8::encode_utf8(s).len(), 8);
    let b = crate::codec::text_bytes(s);
    assert(b.take(8) =~= crate::codec::count_bytes(vstd::utf8::encode_utf8(s).len()));
    assert(b.skip(8) =~= vstd::utf8::encode_utf8(s));
}

/// A list of strings is written as its length, then its strings in order, none left out.
pub proof fn law_text_list_bytes(list: Seq<Seq<char>>)
    ensures
        crate::codec::text_list_bytes(list) == crate::codec::count_bytes(list.len())
            + list.map_values(|s: Seq<char>| crate::codec::text_bytes(s)).flatten(),
{
    lemma_texts_bytes(list);
}

/// Strings in a row are written one after the other.
proof fn lemma_texts_bytes(list: Seq<Seq<char>>)
    ensures
        crate::codec::texts_bytes(list) == list.map_values(
            |s: Seq<char>| crate::codec::text_bytes(s),
        ).flatten(),
    decreases list.len(),
{
    let parts = list.map_values(|s: Seq<char>| crate::codec::text_bytes(s));
    if list.len() > 0 {
        let front = list.drop_last();
        lemma_texts_bytes(front);
        let before = front.map_values(|s: Seq<char>| crate::codec::text_bytes(s));
        assert(parts =~= before.push(crate::codec::text_bytes(list.last())));
        before.lemma_flatten_push(crate::codec::text_bytes(list.last()));
    }
}

/// The five dimensions of a context key, each as it is written: the configuration; the number of
/// requests, then each one's type and flag; the labels; 0, or 1 and the forced platform; the flag.
pub proof fn law_context_key_layout(k: ContextKeyModel)
    ensures
        crate::keys::context_key_bytes(k) == crate::codec::text_bytes(k.configuration)
            + crate::codec::count_bytes(k.types.len()) + k.types.map_values(
            |r: ReqModel|
                crate::codec::text_bytes(r.ty) + seq![
                    if r.mandatory {
                        1u8
                    } else {
                        0u8
                    },
                ],
        ).flatten() + crate::codec::text_list_bytes(k.labels) + (match k.forced {
            None => seq![0u8],
            Some(name) => seq![1u8] + crate::codec::text_bytes(name),
        }) + seq![
            if k.debug {
                1u8
            } else {
                0u8
            },
        ],
{
    lemma_reqs_bytes(k.types);
    let parts = k.types.map_values(
        |r: ReqModel|
            crate::codec::text_bytes(r.ty) + seq![
                if r.mandatory {
                    1u8
                } else {
                    0u8
                },
            ],
    ).flatten();
    assert(crate::keys::reqs_bytes(k.types) == parts);
    let tag = match k.forced {
        None => seq![0u8],
        Some(name) => seq![1u8] + crate::codec::text_bytes(name),
    };
    assert(crate::keys::option_bytes(k.forced) == tag);
    assert(crate::keys::context_key_bytes(k) =~= crate::codec::text_bytes(k.configuration)
        + crate::codec::count_bytes(k.types.len()) + parts + crate::codec::text_list_bytes(k.labels)
        + tag + seq![
        if k.debug {
            1u8
        } else {
            0u8
        },
    ]);
}

/// Requests in a row are written one after the other.
proof fn lemma_reqs_bytes(list: Seq<ReqModel>)
    ensures
        crate::keys::reqs_bytes(list) == list.map_values(
            |r: ReqModel|
                crate::codec::text_bytes(r.ty) + seq![
                    if r.mandatory {
                        1u8
                    } else {
                        0u8
                    },
                ],
        ).flatten(),
    decreases list.len(),
{
    let f = |r: ReqModel|
        crate::codec::text_bytes(r.ty) + seq![
            if r.mandatory {
                1u8
            } else {
                0u8
            },
        ];
    let parts = list.map_values(f);
    if list.len() > 0 {
        let front = list.drop_last();
        lemma_reqs_bytes(front);
        let before = front.map_values(f);
        assert(crate::keys::req_bytes(list.last()) =~= f(list.last()));
        assert(parts =~= before.push(f(list.last())));
        before.lemma_flatten_push(f(list.last()));
    }
}

// ---------------------------------------------------------------------------------------------
// What digests are taken over
// ---------------------------------------------------------------------------------------------

/// The digest of a set of toolchains is taken over their number, then of each its type, both lists
/// of constraints and the byte form of its own provider.
pub proof fn law_toolchains_digest<I>(
    v: &RegisteredToolchainsValue<I>,
    infos: &[Vec<u8>],
    r: Vec<u8>,
)
    requires
        infos@.len() == v@.len(),
        call_ensures(RegisteredToolchainsValue::<I>::digest_input, (v, infos), r),
    ensures
        r@ == crate::codec::count_bytes(v@.len()) + Seq::new(
            v@.len(),
            |i: int|
                crate::codec::text_bytes(v@[i].ty) + crate::codec::text_list_bytes(v@[i].target)
                    + crate::codec::text_list_bytes(v@[i].runs_on) + infos@[i]@,
        ).flatten(),
{
    let list = crate::nodes::with_infos(v@, infos@);
    lemma_toolchains_bytes_are(list);
    assert(Seq::new(
        v@.len(),
        |i: int|
            crate::codec::text_bytes(v@[i].ty) + crate::codec::text_list_bytes(v@[i].target)
                + crate::codec::text_list_bytes(v@[i].runs_on) + infos@[i]@,
    ) =~= Seq::new(
        list.len(),
        |i: int|
            crate::codec::text_bytes(list[i].ty) + crate::codec::text_list_bytes(list[i].target)
                + crate::codec::text_list_bytes(list[i].runs_on) + list[i].info,
    ));
}

/// Toolchains in a row are written one after the other.
proof fn lemma_toolchains_bytes_are(list: Seq<ToolchainModel<Seq<u8>>>)
    ensures
        crate::nodes::toolchains_bytes(list) == Seq::new(
            list.len(),
            |i: int|
                crate::codec::text_bytes(list[i].ty) + crate::codec::text_list_bytes(list[i].target)
                    + crate::codec::text_list_bytes(list[i].runs_on) + list[i].info,
        ).flatten(),
    decreases list.len(),
{
    let f = |t: ToolchainModel<Seq<u8>>|
        crate::codec::text_bytes(t.ty) + crate::codec::text_list_bytes(t.target)
            + crate::codec::text_list_bytes(t.runs_on) + t.info;
    let parts = Seq::new(
        list.len(),
        |i: int|
            crate::codec::text_bytes(list[i].ty) + crate::codec::text_list_bytes(list[i].target)
                + crate::codec::text_list_bytes(list[i].runs_on) + list[i].info,
    );
    if list.len() > 0 {
        let front = list.drop_last();
        lemma_toolchains_bytes_are(front);
        let before = Seq::new(
            front.len(),
            |i: int|
                crate::codec::text_bytes(front[i].ty) + crate::codec::text_list_bytes(
                    front[i].target,
                ) + crate::codec::text_list_bytes(front[i].runs_on) + front[i].info,
        );
        assert(crate::nodes::toolchain_bytes(list.last()) =~= f(list.last()));
        assert(parts =~= before.push(f(list.last())));
        before.lemma_flatten_push(f(list.last()));
    }
}

/// Where the byte forms of providers end by themselves, two sets of toolchains have the same
/// digest input exactly if they agree in every type, every constraint and every provider.
pub proof fn law_toolchains_digest_covers_all<I>(
    v: &RegisteredToolchainsValue<I>,
    p: &[Vec<u8>],
    r: Vec<u8>,
    w: &RegisteredToolchainsValue<I>,
    q: &[Vec<u8>],
    s: Vec<u8>,
)
    requires
        p@.len() == v@.len(),
        q@.len() == w@.len(),
        call_ensures(RegisteredToolchainsValue::<I>::digest_input, (v, p), r),
        call_ensures(RegisteredToolchainsValue::<I>::digest_input, (w, q), s),
        forall|i: int, j: int|
            0 <= i < p@.len() && 0 <= j < q@.len() && ((#[trigger] p@[i])@.is_prefix_of((
            #[trigger] q@[j])@) || q@[j]@.is_prefix_of(p@[i]@)) ==> p@[i]@ == q@[j]@,
    ensures
        r@ == s@ <==> v@.len() == w@.len() && forall|i: int|
            0 <= i < v@.len() ==> (#[trigger] v@[i]).ty == w@[i].ty && v@[i].target == w@[i].target
                && v@[i].runs_on == w@[i].runs_on && p@[i]@ == q@[i]@,
{
    let a = crate::nodes::with_infos(v@, p@);
    let b = crate::nodes::with_infos(w@, q@);
    assert forall|i: int| 0 <= i < a.len() implies crate::nodes::toolchain_fits(
        #[trigger] a[i],
    ) && a[i].info == p@[i]@ by {
        assert(crate::nodes::toolchain_fits(v@[i]));
    }
    assert forall|i: int| 0 <= i < b.len() implies crate::nodes::toolchain_fits(
        #[trigger] b[i],
    ) && b[i].info == q@[i]@ by {
        assert(crate::nodes::toolchain_fits(w@[i]));
    }
    assert forall|i: int, j: int|
        0 <= i < a.len() && 0 <= j < b.len() implies crate::laws::prefix_free(
        (#[trigger] a[i]).info,
        (#[trigger] b[j]).info,
    ) by {
        assert(a[i].info == p@[i]@ && b[j].info == q@[j]@);
    }
    crate::laws::law_toolchains_content(a, b);
    if r@ == s@ {
        assert forall|i: int| 0 <= i < v@.len() implies (#[trigger] v@[i]).ty == w@[i].ty
            && v@[i].target == w@[i].target && v@[i].runs_on == w@[i].runs_on && p@[i]@
            == q@[i]@ by {
            assert(a[i] == b[i]);
        }
    }
    if v@.len() == w@.len() && forall|i: int|
        0 <= i < v@.len() ==> (#[trigger] v@[i]).ty == w@[i].ty && v@[i].target == w@[i].target
            && v@[i].runs_on == w@[i].runs_on && p@[i]@ == q@[i]@ {
        assert forall|i: int| 0 <= i < a.len() implies a[i] == b[i] by {
            assert(v@[i].ty == w@[i].ty);
        }
        assert(a =~= b);
    }
}

/// The digest of a set of execution platforms is taken over their number, then of each its name and
/// its constraints.
pub proof fn law_platforms_digest(v: &RegisteredExecutionPlatformsValue, r: Vec<u8>)
    requires
        call_ensures(RegisteredExecutionPlatformsValue::digest_input, (v,), r),
    ensures
        r@ == crate::codec::count_bytes(v@.len()) + v@.map_values(
            |p: ExecPlatformModel|
                crate::codec::text_bytes(p.name) + crate::codec::text_list_bytes(p.constraints),
        ).flatten(),
{
    lemma_platforms_bytes_are(v@);
}

/// Platforms in a row are written one after the other.
proof fn lemma_platforms_bytes_are(list: Seq<ExecPlatformModel>)
    ensures
        crate::nodes::platforms_bytes(list) == list.map_values(
            |p: ExecPlatformModel|
                crate::codec::text_bytes(p.name) + crate::codec::text_list_bytes(p.constraints),
        ).flatten(),
    decreases list.len(),
{
    let f = |p: ExecPlatformModel|
        crate::codec::text_bytes(p.name) + crate::codec::text_list_bytes(p.constraints);
    let parts = list.map_values(f);
    if list.len() > 0 {
        let front = list.drop_last();
        lemma_platforms_bytes_are(front);
        let before = front.map_values(f);
        assert(parts =~= before.push(f(list.last())));
        before.lemma_flatten_push(f(list.last()));
    }
}

/// Two sets of execution platforms have the same digest input exactly if they agree in every name
/// and every constraint.
pub proof fn law_platforms_digest_covers_all(
    v: &RegisteredExecutionPlatformsValue,
    r: Vec<u8>,
    w: &RegisteredExecutionPlatformsValue,
    s: Vec<u8>,
)
    requires
        call_ensures(RegisteredExecutionPlatformsValue::digest_input, (v,), r),
        call_ensures(RegisteredExecutionPlatformsValue::digest_input, (w,), s),
    ensures
        r@ == s@ <==> v@.len() == w@.len() && forall|i: int|
            0 <= i < v@.len() ==> (#[trigger] v@[i]).name == w@[i].name && v@[i].constraints
                == w@[i].constraints,
{
    crate::laws::law_platforms_content(v@, w@);
    if v@.len() == w@.len() && forall|i: int|
        0 <= i < v@.len() ==> (#[trigger] v@[i]).name == w@[i].name && v@[i].constraints
            == w@[i].constraints {
        assert(v@ =~= w@);
    }
}

/// The digest of a context is taken over the names of the selected and the target platform, the
/// number of its types, then of each type, in the order of the ids, its id and the byte form of
/// its own provider. `types` are these ids.
pub proof fn law_context_digest<I>(
    v: &ResolvedToolchainContextValue<I>,
    infos: &[Vec<u8>],
    r: Vec<u8>,
) -> (types: Seq<Seq<char>>)
    requires
        infos@.len() == v@.resolved.len(),
        call_ensures(ResolvedToolchainContextValue::<I>::digest_input, (v, infos), r),
    ensures
        forall|i: int, j: int|
            0 <= i < j < types.len() ==> crate::order::text_less(
                #[trigger] types[i],
                #[trigger] types[j],
            ),
        forall|t: Seq<char>| #[trigger] v@.resolved.dom().contains(t) <==> types.contains(t),
        types.len() == infos@.len(),
        r@ == crate::codec::text_bytes(v@.selected) + crate::codec::text_bytes(v@.target)
            + crate::codec::count_bytes(types.len()) + Seq::new(
            types.len(),
            |i: int| crate::codec::text_bytes(types[i]) + infos@[i]@,
        ).flatten(),
        vstd::utf8::encode_utf8(v@.selected).len() <= u64::MAX,
        vstd::utf8::encode_utf8(v@.target).len() <= u64::MAX,
        types.len() <= u64::MAX,
        forall|i: int|
            0 <= i < types.len() ==> vstd::utf8::encode_utf8(#[trigger] types[i]).len() <= u64::MAX,
{
    let types = choose|types: Seq<Seq<char>>| #[trigger]
        crate::nodes::types_in_order(v@.resolved, types) && r@ == crate::nodes::context_content(
            v@.selected,
            v@.target,
            crate::nodes::choices(types, infos@),
        ) && crate::nodes::context_fits(v@.selected, v@.target, types);
    let list = crate::nodes::choices(types, infos@);
    lemma_choices_bytes_are(list);
    crate::order::lemma_sorted_no_duplicates(types);
    types.unique_seq_to_set();
    assert(v@.resolved.dom() =~= types.to_set());
    let parts = Seq::new(
        types.len(),
        |i: int| crate::codec::text_bytes(types[i]) + infos@[i]@,
    );
    assert(parts =~= Seq::new(
        list.len(),
        |i: int| crate::codec::text_bytes(list[i].ty) + list[i].info,
    ));
    assert(r@ =~= crate::codec::text_bytes(v@.selected) + crate::codec::text_bytes(v@.target)
        + crate::codec::count_bytes(types.len()) + parts.flatten());
    types
}

/// Resolved types in a row are written one after the other.
proof fn lemma_choices_bytes_are(list: Seq<ChoiceModel>)
    ensures
        crate::nodes::choices_bytes(list) == Seq::new(
            list.len(),
            |i: int| crate::codec::text_bytes(list[i].ty) + list[i].info,
        ).flatten(),
    decreases list.len(),
{
    let parts = Seq::new(
        list.len(),
        |i: int| crate::codec::text_bytes(list[i].ty) + list[i].info,
    );
    if list.len() > 0 {
        let front = list.drop_last();
        lemma_choices_bytes_are(front);
        let before = Seq::new(
            front.len(),
            |i: int| crate::codec::text_bytes(front[i].ty) + front[i].info,
        );
        let last = crate::codec::text_bytes(list.last().ty) + list.last().info;
        assert(parts =~= before.push(last));
        before.lemma_flatten_push(last);
    }
}

/// Where the byte forms of providers end by themselves, two contexts have the same digest input
/// exactly if they agree in both platforms, in their types and in every provider.
pub proof fn law_context_digest_covers_all<I>(
    v: &ResolvedToolchainContextValue<I>,
    p: &[Vec<u8>],
    r: Vec<u8>,
    w: &ResolvedToolchainContextValue<I>,
    q: &[Vec<u8>],
    s: Vec<u8>,
)
    requires
        p@.len() == v@.resolved.len(),
        q@.len() == w@.resolved.len(),
        call_ensures(ResolvedToolchainContextValue::<I>::digest_input, (v, p), r),
        call_ensures(ResolvedToolchainContextValue::<I>::digest_input, (w, q), s),
        forall|i: int, j: int|
            0 <= i < p@.len() && 0 <= j < q@.len() && ((#[trigger] p@[i])@.is_prefix_of((
            #[trigger] q@[j])@) || q@[j]@.is_prefix_of(p@[i]@)) ==> p@[i]@ == q@[j]@,
    ensures
        r@ == s@ <==> {
            &&& v@.selected == w@.selected
            &&& v@.target == w@.target
            &&& v@.resolved.dom() == w@.resolved.dom()
            &&& p@.len() == q@.len()
            &&& forall|i: int| 0 <= i < p@.len() ==> (#[trigger] p@[i])@ == q@[i]@
        },
{
    let x = choose|x: Seq<Seq<char>>| #[trigger]
        crate::nodes::types_in_order(v@.resolved, x) && r@ == crate::nodes::context_content(
            v@.selected,
            v@.target,
            crate::nodes::choices(x, p@),
        ) && crate::nodes::context_fits(v@.selected, v@.target, x);
    let y = choose|y: Seq<Seq<char>>| #[trigger]
        crate::nodes::types_in_order(w@.resolved, y) && s@ == crate::nodes::context_content(
            w@.selected,
            w@.target,
            crate::nodes::choices(y, q@),
        ) && crate::nodes::context_fits(w@.selected, w@.target, y);
    crate::laws::law_context_content_is_determined(v@.resolved, x, w@.resolved, y);
    lemma_types_len(v@.resolved, x);
    lemma_types_len(w@.resolved, y);
    let (a, b) = (crate::nodes::choices(x, p@), crate::nodes::choices(y, q@));
    assert(crate::laws::choice_types(a) =~= x);
    assert(crate::laws::choice_types(b) =~= y);
    assert forall|i: int, j: int|
        0 <= i < a.len() && 0 <= j < b.len() implies crate::laws::prefix_free(
        (#[trigger] a[i]).info,
        (#[trigger] b[j]).info,
    ) by {
        assert(a[i].info == p@[i]@ && b[j].info == q@[j]@);
    }
    crate::laws::law_context_content(v@.selected, v@.target, a, w@.selected, w@.target, b);
    if r@ == s@ {
        assert(x == y);
        assert forall|i: int| 0 <= i < p@.len() implies (#[trigger] p@[i])@ == q@[i]@ by {
            assert(a[i] == b[i]);
        }
    }
    if v@.selected == w@.selected && v@.target == w@.target && v@.resolved.dom()
        == w@.resolved.dom() && p@.len() == q@.len() && forall|i: int|
        0 <= i < p@.len() ==> (#[trigger] p@[i])@ == q@[i]@ {
        assert(a =~= b);
    }
}

/// As many types are listed as there are.
proof fn lemma_types_len<V>(m: Map<Seq<char>, V>, types: Seq<Seq<char>>)
    requires
        crate::nodes::types_in_order(m, types),
    ensures
        types.len() == m.len(),
{
    crate::order::lemma_sorted_no_duplicates(types);
    types.unique_seq_to_set();
    assert(m.dom() =~= types.to_set());
}

} // verus!
