//! The keys of the three kinds of nodes: what identifies them, how they are written down as
//! bytes, and the fail-closed decoders.

use crate::codec::{enc_bool, enc_constraints, enc_count, enc_str, Cur, Read};
use crate::error::{Error, ErrorModel};
use crate::typemap::TypeMap;
use crate::types::{
    ConfigId, Constraint, KindId, ReqModel, ToolchainType, ToolchainTypeReq,
    REGISTERED_EXECUTION_PLATFORMS, REGISTERED_TOOLCHAINS, TOOLCHAIN_CONTEXT,
};
use vstd::prelude::*;

verus! {

/// The key of a node of the build graph: its kind, and bytes that identify it within the kind.
pub trait Key {
    /// The kind of node that this key is for.
    spec fn node_kind(&self) -> KindId;

    /// The bytes that identify the node.
    spec fn node_bytes(&self) -> Seq<u8>;

    /// Each length that is written with the key fits into the eight bytes that it has. This holds
    /// of every key that is in memory.
    spec fn node_fits(&self) -> bool;

    /// The kind of node that this key is for.
    fn kind(&self) -> (r: KindId)
        ensures
            r == self.node_kind(),
    ;

    /// The bytes that identify the node.
    fn encode(&self) -> (r: Vec<u8>)
        ensures
            r@ == self.node_bytes(),
            self.node_fits(),
    ;
}

/// A key in the form in which the engine handles it.
#[derive(PartialEq, Eq, Hash, PartialOrd, Ord, Debug)]
pub struct NodeKey {
    pub kind: KindId,
    pub canonical: Vec<u8>,
}

/// The value of a [`NodeKey`].
#[verifier::ext_equal]
pub struct NodeKeyModel {
    pub kind: KindId,
    pub canonical: Seq<u8>,
}

impl View for NodeKey {
    type V = NodeKeyModel;

    open spec fn view(&self) -> NodeKeyModel {
        NodeKeyModel { kind: self.kind, canonical: self.canonical@ }
    }
}

/// The value of the node key of `k`.
pub open spec fn node_key_of<K: Key>(k: K) -> NodeKeyModel {
    NodeKeyModel { kind: k.node_kind(), canonical: k.node_bytes() }
}

impl Clone for NodeKey {
    fn clone(&self) -> (r: Self)
        ensures
            r@ == self@,
    {
        let canonical = self.canonical.clone();
        assert(canonical@ =~= self.canonical@);
        NodeKey { kind: self.kind, canonical }
    }
}

impl NodeKey {
    /// The node key of `k`.
    pub fn from_key<K: Key>(k: &K) -> (r: NodeKey)
        ensures
            r@ == node_key_of(*k),
            k.node_fits(),
    {
        NodeKey { kind: k.kind(), canonical: k.encode() }
    }

    /// The bytes that identify the node within its kind.
    pub fn canonical(&self) -> (r: &[u8])
        ensures
            r@ == self@.canonical,
    {
        self.canonical.as_slice()
    }
}

// ---------------------------------------------------------------------------------------------
// The key of a resolved toolchain context
// ---------------------------------------------------------------------------------------------

/// The key of a toolchain context. The one dimension that says what is built for is the
/// `configuration`: the target platform is derived from it and is no dimension of its own.
///
/// [`ToolchainContextKey::new`] brings a request into canonical form, so that equal requests have
/// identical keys.
#[derive(PartialEq, Eq, Hash, PartialOrd, Ord, Debug)]
pub struct ToolchainContextKey {
    /// The configuration, from which the target platform is derived.
    pub configuration: ConfigId,
    /// The requested types, in canonical form sorted by type id, each once.
    pub toolchain_types: Vec<ToolchainTypeReq>,
    /// Constraints that the execution platform must satisfy, in canonical form sorted, each once.
    pub exec_constraint_labels: Vec<Constraint>,
    /// The name of the only execution platform that may be chosen.
    pub force_exec_platform: Option<String>,
    /// Reserved: it tells keys apart and has no part in resolution.
    pub debug_target: bool,
}

/// The value of a [`ToolchainContextKey`].
#[verifier::ext_equal]
pub struct ContextKeyModel {
    pub configuration: Seq<char>,
    pub types: Seq<ReqModel>,
    pub labels: Seq<Seq<char>>,
    pub forced: Option<Seq<char>>,
    pub debug: bool,
}

/// The text of an optional string.
pub open spec fn optional_text(s: Option<String>) -> Option<Seq<char>> {
    match s {
        Some(s) => Some(s@),
        None => None,
    }
}

impl View for ToolchainContextKey {
    type V = ContextKeyModel;

    open spec fn view(&self) -> ContextKeyModel {
        ContextKeyModel {
            configuration: self.configuration@,
            types: crate::types::reqs(self.toolchain_types@),
            labels: crate::types::labels(self.exec_constraint_labels@),
            forced: optional_text(self.force_exec_platform),
            debug: self.debug_target,
        }
    }
}

impl Clone for ToolchainContextKey {
    fn clone(&self) -> (r: Self)
        ensures
            r@ == self@,
    {
        let toolchain_types = self.toolchain_types.clone();
        let exec_constraint_labels = self.exec_constraint_labels.clone();
        assert(toolchain_types@ =~= self.toolchain_types@);
        assert(exec_constraint_labels@ =~= self.exec_constraint_labels@);
        ToolchainContextKey {
            configuration: self.configuration.clone(),
            toolchain_types,
            exec_constraint_labels,
            force_exec_platform: match &self.force_exec_platform {
                Some(p) => Some(p.clone()),
                None => None,
            },
            debug_target: self.debug_target,
        }
    }
}

// Canonical form.

/// The type `t` is among the requests.
pub open spec fn requested(list: Seq<ReqModel>, t: Seq<char>) -> bool {
    exists|i: int| 0 <= i < list.len() && (#[trigger] list[i]).ty == t
}

/// The type `t` is requested as mandatory at least once.
pub open spec fn requested_mandatory(list: Seq<ReqModel>, t: Seq<char>) -> bool {
    exists|i: int| 0 <= i < list.len() && (#[trigger] list[i]).ty == t && list[i].mandatory
}

/// The type ids of a list of requests.
pub open spec fn requested_types(list: Seq<ReqModel>) -> Seq<Seq<char>> {
    list.map_values(|r: ReqModel| r.ty)
}

/// `out` is the canonical form of the requests `list`: the same types, each once, in the order of
/// their ids, and mandatory exactly if some request for the type was.
pub open spec fn canonical_reqs(out: Seq<ReqModel>, list: Seq<ReqModel>) -> bool {
    &&& crate::order::strictly_sorted(requested_types(out))
    &&& forall|t: Seq<char>| #[trigger] requested(out, t) <==> requested(list, t)
    &&& forall|i: int|
        0 <= i < out.len() ==> (#[trigger] out[i]).mandatory == requested_mandatory(
            list,
            out[i].ty,
        )
}

/// `out` is the canonical form of the labels `list`: the same labels, each once, sorted.
pub open spec fn canonical_labels(out: Seq<Seq<char>>, list: Seq<Seq<char>>) -> bool {
    &&& crate::order::strictly_sorted(out)
    &&& forall|x: Seq<char>| #[trigger] out.contains(x) <==> list.contains(x)
}

/// The labels of `list` in canonical form.
fn sort_and_dedup(list: Vec<Constraint>) -> (out: Vec<Constraint>)
    ensures
        canonical_labels(crate::types::labels(out@), crate::types::labels(list@)),
{
    let ghost texts = crate::types::labels(list@);
    let mut out: Vec<Constraint> = Vec::new();
    let mut k: usize = 0;
    while k < list.len()
        invariant
            k <= list@.len(),
            texts == crate::types::labels(list@),
            canonical_labels(crate::types::labels(out@), texts.take(k as int)),
        decreases list@.len() - k,
    {
        let c = list[k].clone();
        let ghost before = crate::types::labels(out@);
        proof {
            let next = texts.take(k + 1);
            assert(next =~= texts.take(k as int).push(c@));
            assert forall|x: Seq<char>| #[trigger] next.contains(x) <==> x == c@ || texts.take(
                k as int,
            ).contains(x) by {
                if x == c@ {
                    assert(next[k as int] == x);
                } else if texts.take(k as int).contains(x) {
                    let i = choose|i: int| 0 <= i < k && texts.take(k as int)[i] == x;
                    assert(next[i] == x);
                }
            }
        }
        let mut p: usize = 0;
        while p < out.len() && crate::order::less(out[p].0.as_str(), c.0.as_str())
            invariant
                p <= out@.len(),
                before == crate::types::labels(out@),
                forall|j: int| 0 <= j < p ==> crate::order::text_less(#[trigger] before[j], c@),
            decreases out@.len() - p,
        {
            p += 1;
        }
        if p < out.len() && out[p].0 == c.0 {
            assert(before[p as int] == c@);
        } else {
            proof {
                assert forall|j: int| p <= j < before.len() implies crate::order::text_less(
                    c@,
                    #[trigger] before[j],
                ) by {
                    crate::order::lemma_text_total(before[p as int], c@);
                    if p < j {
                        assert(crate::order::text_less(before[p as int], before[j]));
                        crate::order::lemma_text_transitive(c@, before[p as int], before[j]);
                    }
                }
                crate::order::lemma_sorted_insert(before, p as int, c@);
            }
            out.insert(p, c);
            assert(crate::types::labels(out@) =~= before.insert(p as int, c@));
        }
        k += 1;
    }
    assert(texts.take(k as int) =~= texts);
    out
}

impl ToolchainContextKey {
    /// The key of a request, in canonical form: the types sorted by type id, each once, a type
    /// mandatory if any request for it was (the strictest wins); the labels sorted, each once.
    pub fn new(
        configuration: ConfigId,
        toolchain_types: Vec<ToolchainTypeReq>,
        exec_constraint_labels: Vec<Constraint>,
        force_exec_platform: Option<String>,
        debug_target: bool,
    ) -> (k: Self)
        ensures
            k@.configuration == configuration@,
            canonical_reqs(k@.types, crate::types::reqs(toolchain_types@)),
            canonical_labels(k@.labels, crate::types::labels(exec_constraint_labels@)),
            k@.forced == optional_text(force_exec_platform),
            k@.debug == debug_target,
    {
        let ghost list = crate::types::reqs(toolchain_types@);
        let mut by_type: TypeMap<bool> = TypeMap::new();
        let mut k: usize = 0;
        while k < toolchain_types.len()
            invariant
                k <= toolchain_types@.len(),
                list == crate::types::reqs(toolchain_types@),
                forall|t: Seq<char>| #[trigger]
                    by_type@.dom().contains(t) <==> requested(list.take(k as int), t),
                forall|t: Seq<char>|
                    by_type@.dom().contains(t) ==> #[trigger] by_type@[t] == requested_mandatory(
                        list.take(k as int),
                        t,
                    ),
            decreases toolchain_types@.len() - k,
        {
            let req = &toolchain_types[k];
            let mandatory = match by_type.get(&req.toolchain_type) {
                Some(m) => *m || req.mandatory,
                None => req.mandatory,
            };
            proof {
                lemma_requests_push(list, k as int);
            }
            by_type.insert(req.toolchain_type.clone(), mandatory);
            k += 1;
        }
        assert(list.take(k as int) =~= list);
        let entries = by_type.into_entries();
        let mut types: Vec<ToolchainTypeReq> = Vec::new();
        let mut j: usize = 0;
        while j < entries.len()
            invariant
                j <= entries@.len(),
                types@.len() == j,
                forall|i: int|
                    0 <= i < j ==> (#[trigger] types@[i])@.ty == entries@[i].0@ && types@[i]@.mandatory
                        == entries@[i].1,
            decreases entries@.len() - j,
        {
            types.push(
                ToolchainTypeReq { toolchain_type: entries[j].0.clone(), mandatory: entries[j].1 },
            );
            j += 1;
        }
        proof {
            let out = crate::types::reqs(types@);
            assert(requested_types(out) =~= crate::typemap::entry_types(entries@));
            assert forall|t: Seq<char>| #[trigger] requested(out, t) <==> requested(list, t) by {
                let ids = crate::typemap::entry_types(entries@);
                if requested(out, t) {
                    let i = choose|i: int| 0 <= i < out.len() && (#[trigger] out[i]).ty == t;
                    assert(ids[i] == t);
                    assert(by_type@.dom().contains(t));
                }
                if requested(list, t) {
                    assert(by_type@.dom().contains(t));
                    let i = choose|i: int| 0 <= i < ids.len() && ids[i] == t;
                    assert(out[i].ty == t);
                }
            }
            assert forall|i: int| 0 <= i < out.len() implies (#[trigger] out[i]).mandatory
                == requested_mandatory(list, out[i].ty) by {
                assert(types@[i]@ == out[i]);
                assert(by_type@[entries@[i].0@] == entries@[i].1);
                assert(requested(out, out[i].ty));
                assert(by_type@.dom().contains(out[i].ty));
            }
        }
        Self {
            configuration,
            toolchain_types: types,
            exec_constraint_labels: sort_and_dedup(exec_constraint_labels),
            force_exec_platform,
            debug_target,
        }
    }
}

/// What one more request changes.
pub proof fn lemma_requests_push(list: Seq<ReqModel>, k: int)
    requires
        0 <= k < list.len(),
    ensures
        forall|t: Seq<char>| #[trigger]
            requested(list.take(k + 1), t) <==> t == list[k].ty || requested(list.take(k), t),
        forall|t: Seq<char>| #[trigger]
            requested_mandatory(list.take(k + 1), t) <==> (t == list[k].ty && list[k].mandatory)
                || requested_mandatory(list.take(k), t),
{
    let (a, b) = (list.take(k), list.take(k + 1));
    assert forall|t: Seq<char>| #[trigger]
        requested(b, t) <==> t == list[k].ty || requested(a, t) by {
        if t == list[k].ty {
            assert(b[k].ty == t);
        }
        if requested(a, t) {
            let i = choose|i: int| 0 <= i < a.len() && (#[trigger] a[i]).ty == t;
            assert(b[i].ty == t);
        }
        if requested(b, t) && t != list[k].ty {
            let i = choose|i: int| 0 <= i < b.len() && (#[trigger] b[i]).ty == t;
            assert(a[i].ty == t);
        }
    }
    assert forall|t: Seq<char>| #[trigger]
        requested_mandatory(b, t) <==> (t == list[k].ty && list[k].mandatory)
            || requested_mandatory(a, t) by {
        if t == list[k].ty && list[k].mandatory {
            assert(b[k].ty == t);
        }
        if requested_mandatory(a, t) {
            let i = choose|i: int|
                0 <= i < a.len() && (#[trigger] a[i]).ty == t && a[i].mandatory;
            assert(b[i].ty == t);
        }
        if requested_mandatory(b, t) && !(t == list[k].ty && list[k].mandatory) {
            let i = choose|i: int|
                0 <= i < b.len() && (#[trigger] b[i]).ty == t && b[i].mandatory;
            assert(a[i].ty == t);
        }
    }
}

// The byte form.

/// A requested type as it is written: its id, then its mandatory flag.
pub open spec fn req_bytes(r: ReqModel) -> Seq<u8> {
    crate::codec::text_bytes(r.ty) + crate::codec::flag_bytes(r.mandatory)
}

/// The requests of `list` as they are written, one after the other.
pub open spec fn reqs_bytes(list: Seq<ReqModel>) -> Seq<u8>
    decreases list.len(),
{
    if list.len() == 0 {
        seq![]
    } else {
        reqs_bytes(list.drop_last()) + req_bytes(list.last())
    }
}

/// A list of requests as it is written: its length, then the requests.
pub open spec fn req_list_bytes(list: Seq<ReqModel>) -> Seq<u8> {
    crate::codec::count_bytes(list.len()) + reqs_bytes(list)
}

/// An optional string as it is written: 0 where there is none, else 1 and the string.
pub open spec fn option_bytes(s: Option<Seq<char>>) -> Seq<u8> {
    match s {
        None => seq![0u8],
        Some(s) => seq![1u8] + crate::codec::text_bytes(s),
    }
}

/// A context key as it is written: its five dimensions, one after the other.
pub open spec fn context_key_bytes(k: ContextKeyModel) -> Seq<u8> {
    crate::codec::text_bytes(k.configuration) + (req_list_bytes(k.types) + (
    crate::codec::text_list_bytes(k.labels) + (option_bytes(k.forced) + crate::codec::flag_bytes(
        k.debug,
    ))))
}

/// Each length that is written with the key fits into the eight bytes that it has.
pub open spec fn key_fits(k: ContextKeyModel) -> bool {
    &&& vstd::utf8::encode_utf8(k.configuration).len() <= u64::MAX
    &&& k.types.len() <= u64::MAX
    &&& crate::codec::texts_fit(requested_types(k.types))
    &&& k.labels.len() <= u64::MAX
    &&& crate::codec::texts_fit(k.labels)
    &&& k.forced matches Some(p) ==> vstd::utf8::encode_utf8(p).len() <= u64::MAX
}

/// The request that stands in `b` at `i`.
pub open spec fn read_req(b: Seq<u8>, i: int) -> Read<ReqModel> {
    let ty = crate::codec::read_text(b, i);
    let mandatory = crate::codec::read_flag(b, ty.end);
    match (ty.result, mandatory.result) {
        (Err(e), _) => Read { result: Err(e), end: ty.end },
        (_, Err(e)) => Read { result: Err(e), end: mandatory.end },
        (Ok(ty), Ok(m)) => Read {
            result: Ok(ReqModel { ty, mandatory: m }),
            end: mandatory.end,
        },
    }
}

/// The first `n` of the requests that stand in `b` from `i` on.
pub open spec fn read_reqs(b: Seq<u8>, i: int, n: nat) -> Read<Seq<ReqModel>>
    decreases n,
{
    if n == 0 {
        Read { result: Ok(seq![]), end: i }
    } else {
        let before = read_reqs(b, i, (n - 1) as nat);
        match before.result {
            Ok(list) => {
                let next = read_req(b, before.end);
                match next.result {
                    Ok(r) => Read { result: Ok(list.push(r)), end: next.end },
                    Err(e) => Read { result: Err(e), end: next.end },
                }
            },
            Err(e) => before,
        }
    }
}

/// The list of requests that stands in `b` at `i`.
pub open spec fn read_req_list(b: Seq<u8>, i: int) -> Read<Seq<ReqModel>> {
    let len = crate::codec::read_count(b, i);
    match len.result {
        Ok(n) => read_reqs(b, len.end, n),
        Err(e) => Read { result: Err(e), end: len.end },
    }
}

/// The optional string that stands in `b` at `i`.
pub open spec fn read_option(b: Seq<u8>, i: int) -> Read<Option<Seq<char>>> {
    let tag = crate::codec::read_byte(b, i);
    match tag.result {
        Ok(t) => if t == 0 {
            Read { result: Ok(None), end: tag.end }
        } else if t == 1 {
            let text = crate::codec::read_text(b, tag.end);
            match text.result {
                Ok(s) => Read { result: Ok(Some(s)), end: text.end },
                Err(e) => Read { result: Err(e), end: text.end },
            }
        } else {
            Read {
                result: Err("bad option tag "@ + crate::text::decimal(t as nat)),
                end: tag.end,
            }
        },
        Err(e) => Read { result: Err(e), end: tag.end },
    }
}

/// The context key that `b` is the byte form of, or the first reason why there is none.
pub open spec fn read_context_key(b: Seq<u8>) -> Result<ContextKeyModel, Seq<char>> {
    let configuration = crate::codec::read_text(b, 0);
    let types = read_req_list(b, configuration.end);
    let labels = crate::codec::read_text_list(b, types.end);
    let forced = read_option(b, labels.end);
    let debug = crate::codec::read_flag(b, forced.end);
    let rest = crate::codec::read_end(b, debug.end);
    if let Err(e) = configuration.result {
        Err(e)
    } else if let Err(e) = types.result {
        Err(e)
    } else if let Err(e) = labels.result {
        Err(e)
    } else if let Err(e) = forced.result {
        Err(e)
    } else if let Err(e) = debug.result {
        Err(e)
    } else if let Err(e) = rest {
        Err(e)
    } else {
        Ok(
            ContextKeyModel {
                configuration: configuration.result->Ok_0,
                types: types.result->Ok_0,
                labels: labels.result->Ok_0,
                forced: forced.result->Ok_0,
                debug: debug.result->Ok_0,
            },
        )
    }
}

/// The configuration that `b` is the byte form of, or the first reason why there is none.
pub open spec fn read_configuration_key(b: Seq<u8>) -> Result<Seq<char>, Seq<char>> {
    let configuration = crate::codec::read_text(b, 0);
    match (configuration.result, crate::codec::read_end(b, configuration.end)) {
        (Err(e), _) => Err(e),
        (_, Err(e)) => Err(e),
        (Ok(s), Ok(_)) => Ok(s),
    }
}

// Reading gives back what was written, and accepts nothing else.

/// A request that stands at `i` is read there; what is read as a request stands there.
pub proof fn lemma_read_req(b: Seq<u8>, i: int)
    requires
        0 <= i <= b.len(),
    ensures
        forall|r: ReqModel|
            vstd::utf8::encode_utf8(r.ty).len() <= u64::MAX && #[trigger] crate::codec::stands_at(
                b,
                i,
                req_bytes(r),
            ) ==> read_req(b, i).result == Ok::<ReqModel, Seq<char>>(r) && read_req(b, i).end == i
                + req_bytes(r).len(),
        read_req(b, i).result matches Ok(r) ==> vstd::utf8::encode_utf8(r.ty).len() <= u64::MAX
            && read_req(b, i).end == i + req_bytes(r).len() && crate::codec::stands_at(
            b,
            i,
            req_bytes(r),
        ),
        i <= read_req(b, i).end <= b.len(),
{
    crate::codec::lemma_read_text(b, i);
    let ty = crate::codec::read_text(b, i);
    crate::codec::lemma_read_flag(b, ty.end);
    assert forall|r: ReqModel|
        vstd::utf8::encode_utf8(r.ty).len() <= u64::MAX && #[trigger] crate::codec::stands_at(
            b,
            i,
            req_bytes(r),
        ) implies read_req(b, i).result == Ok::<ReqModel, Seq<char>>(r) && read_req(b, i).end == i
        + req_bytes(r).len() by {
        crate::codec::lemma_stands_concat(
            b,
            i,
            crate::codec::text_bytes(r.ty),
            crate::codec::flag_bytes(r.mandatory),
        );
    }
    if let Ok(r) = read_req(b, i).result {
        crate::codec::lemma_stands_concat(
            b,
            i,
            crate::codec::text_bytes(r.ty),
            crate::codec::flag_bytes(r.mandatory),
        );
    }
}

/// Requests that stand at `i` one after the other are read there.
pub proof fn lemma_read_reqs_written(b: Seq<u8>, i: int, list: Seq<ReqModel>)
    requires
        0 <= i <= b.len(),
        crate::codec::texts_fit(requested_types(list)),
        crate::codec::stands_at(b, i, reqs_bytes(list)),
    ensures
        read_reqs(b, i, list.len()).result == Ok::<Seq<ReqModel>, Seq<char>>(list),
        read_reqs(b, i, list.len()).end == i + reqs_bytes(list).len(),
    decreases list.len(),
{
    if list.len() == 0 {
        assert(list =~= seq![]);
    } else {
        let front = list.drop_last();
        crate::codec::lemma_stands_concat(b, i, reqs_bytes(front), req_bytes(list.last()));
        assert forall|k: int| 0 <= k < front.len() implies vstd::utf8::encode_utf8(
            #[trigger] requested_types(front)[k],
        ).len() <= u64::MAX by {
            assert(requested_types(front)[k] == requested_types(list)[k]);
        }
        lemma_read_reqs_written(b, i, front);
        lemma_read_req(b, i + reqs_bytes(front).len());
        assert(front.push(list.last()) =~= list);
        assert(requested_types(list)[list.len() - 1] == list.last().ty);
    }
}

/// What is read as a run of requests stands there.
pub proof fn lemma_read_reqs_accepted(b: Seq<u8>, i: int, n: nat)
    requires
        0 <= i <= b.len(),
    ensures
        i <= read_reqs(b, i, n).end <= b.len(),
        read_reqs(b, i, n).result matches Ok(list) ==> list.len() == n && crate::codec::texts_fit(
            requested_types(list),
        ) && read_reqs(b, i, n).end == i + reqs_bytes(list).len() && crate::codec::stands_at(
            b,
            i,
            reqs_bytes(list),
        ),
    decreases n,
{
    if n == 0 {
        assert(b.subrange(i, i) =~= seq![]);
    } else {
        lemma_read_reqs_accepted(b, i, (n - 1) as nat);
        let before = read_reqs(b, i, (n - 1) as nat);
        lemma_read_req(b, before.end);
        if let Ok(front) = before.result {
            if let Ok(r) = read_req(b, before.end).result {
                let list = front.push(r);
                assert(list.drop_last() =~= front);
                assert(requested_types(list) =~= requested_types(front).push(r.ty));
                crate::codec::lemma_stands_concat(b, i, reqs_bytes(front), req_bytes(r));
            }
        }
    }
}

/// Once a run of requests cannot be read, no longer run from there can be read.
pub proof fn lemma_read_reqs_stuck(b: Seq<u8>, i: int, n: nat, m: nat)
    requires
        n <= m,
        read_reqs(b, i, n).result is Err,
    ensures
        read_reqs(b, i, m) == read_reqs(b, i, n),
    decreases m,
{
    if n < m {
        lemma_read_reqs_stuck(b, i, n, (m - 1) as nat);
    }
}

/// A list of requests that stands at `i` is read there; what is read as one stands there.
pub proof fn lemma_read_req_list(b: Seq<u8>, i: int)
    requires
        0 <= i <= b.len(),
    ensures
        forall|list: Seq<ReqModel>|
            list.len() <= u64::MAX && crate::codec::texts_fit(requested_types(list))
                && #[trigger] crate::codec::stands_at(b, i, req_list_bytes(list)) ==> read_req_list(
                b,
                i,
            ).result == Ok::<Seq<ReqModel>, Seq<char>>(list) && read_req_list(b, i).end == i
                + req_list_bytes(list).len(),
        read_req_list(b, i).result matches Ok(list) ==> list.len() <= u64::MAX
            && crate::codec::texts_fit(requested_types(list)) && read_req_list(b, i).end == i
            + req_list_bytes(list).len() && crate::codec::stands_at(b, i, req_list_bytes(list)),
        i <= read_req_list(b, i).end <= b.len(),
{
    crate::codec::lemma_read_count(b, i);
    assert forall|list: Seq<ReqModel>|
        list.len() <= u64::MAX && crate::codec::texts_fit(requested_types(list))
            && #[trigger] crate::codec::stands_at(b, i, req_list_bytes(list)) implies read_req_list(
        b,
        i,
    ).result == Ok::<Seq<ReqModel>, Seq<char>>(list) && read_req_list(b, i).end == i
        + req_list_bytes(list).len() by {
        crate::codec::lemma_big_endian(list.len(), 8);
        crate::codec::lemma_stands_concat(
            b,
            i,
            crate::codec::count_bytes(list.len()),
            reqs_bytes(list),
        );
        lemma_read_reqs_written(b, i + 8, list);
    }
    if let Ok(n) = crate::codec::read_count(b, i).result {
        crate::codec::lemma_big_endian(n, 8);
        lemma_read_reqs_accepted(b, i + 8, n);
        if let Ok(list) = read_reqs(b, i + 8, n).result {
            crate::codec::lemma_stands_concat(
                b,
                i,
                crate::codec::count_bytes(n),
                reqs_bytes(list),
            );
        }
    }
}

/// An optional string that stands at `i` is read there; what is read as one stands there.
pub proof fn lemma_read_option(b: Seq<u8>, i: int)
    requires
        0 <= i <= b.len(),
    ensures
        forall|s: Option<Seq<char>>|
            (s matches Some(p) ==> vstd::utf8::encode_utf8(p).len() <= u64::MAX)
                && #[trigger] crate::codec::stands_at(b, i, option_bytes(s)) ==> read_option(
                b,
                i,
            ).result == Ok::<Option<Seq<char>>, Seq<char>>(s) && read_option(b, i).end == i
                + option_bytes(s).len(),
        read_option(b, i).result matches Ok(s) ==> (s matches Some(p) ==> vstd::utf8::encode_utf8(
            p,
        ).len() <= u64::MAX) && read_option(b, i).end == i + option_bytes(s).len()
            && crate::codec::stands_at(b, i, option_bytes(s)),
        i <= read_option(b, i).end <= b.len(),
{
    if i < b.len() {
        crate::codec::lemma_read_text(b, i + 1);
    }
    assert forall|s: Option<Seq<char>>|
        (s matches Some(p) ==> vstd::utf8::encode_utf8(p).len() <= u64::MAX)
            && #[trigger] crate::codec::stands_at(b, i, option_bytes(s)) implies read_option(
        b,
        i,
    ).result == Ok::<Option<Seq<char>>, Seq<char>>(s) && read_option(b, i).end == i + option_bytes(
        s,
    ).len() by {
        assert(b.subrange(i, i + option_bytes(s).len())[0] == option_bytes(s)[0]);
        assert(b.subrange(i, i + 1)[0] == option_bytes(s)[0]);
        if let Some(p) = s {
            crate::codec::lemma_stands_concat(b, i, seq![1u8], crate::codec::text_bytes(p));
        }
    }
    if let Ok(s) = read_option(b, i).result {
        match s {
            None => {
                assert(b.subrange(i, i + 1) =~= seq![0u8]);
            },
            Some(p) => {
                assert(b.subrange(i, i + 1) =~= seq![1u8]);
                crate::codec::lemma_stands_concat(b, i, seq![1u8], crate::codec::text_bytes(p));
            },
        }
    }
}

/// The positions in a byte form of `k` at which its second to fifth dimension start.
spec fn part_starts(k: ContextKeyModel) -> (int, int, int, int) {
    let i1 = crate::codec::text_bytes(k.configuration).len() as int;
    let i2 = i1 + req_list_bytes(k.types).len();
    let i3 = i2 + crate::codec::text_list_bytes(k.labels).len();
    let i4 = i3 + option_bytes(k.forced).len();
    (i1, i2, i3, i4)
}

/// The five dimensions of `k` stand in `b` one after the other, from its start on.
spec fn parts_stand(b: Seq<u8>, k: ContextKeyModel) -> bool {
    let (i1, i2, i3, i4) = part_starts(k);
    &&& crate::codec::stands_at(b, 0, crate::codec::text_bytes(k.configuration))
    &&& crate::codec::stands_at(b, i1, req_list_bytes(k.types))
    &&& crate::codec::stands_at(b, i2, crate::codec::text_list_bytes(k.labels))
    &&& crate::codec::stands_at(b, i3, option_bytes(k.forced))
    &&& crate::codec::stands_at(b, i4, crate::codec::flag_bytes(k.debug))
}

/// `b` starts with the byte form of `k` exactly if the five dimensions stand there.
proof fn lemma_context_key_parts(b: Seq<u8>, k: ContextKeyModel)
    ensures
        crate::codec::stands_at(b, 0, context_key_bytes(k)) <==> parts_stand(b, k),
        context_key_bytes(k).len() == part_starts(k).3 + 1,
        b == context_key_bytes(k) <==> parts_stand(b, k) && b.len() == part_starts(k).3 + 1,
{
    let p1 = crate::codec::text_bytes(k.configuration);
    let p2 = req_list_bytes(k.types);
    let p3 = crate::codec::text_list_bytes(k.labels);
    let p4 = option_bytes(k.forced);
    let p5 = crate::codec::flag_bytes(k.debug);
    crate::codec::lemma_stands_whole(b, p1 + (p2 + (p3 + (p4 + p5))));
    crate::codec::lemma_stands_concat(b, 0, p1, p2 + (p3 + (p4 + p5)));
    crate::codec::lemma_stands_concat(b, p1.len() as int, p2, p3 + (p4 + p5));
    crate::codec::lemma_stands_concat(b, (p1.len() + p2.len()) as int, p3, p4 + p5);
    crate::codec::lemma_stands_concat(b, (p1.len() + p2.len() + p3.len()) as int, p4, p5);
}

/// The five dimensions that stand in `b` are the ones that are read there, and reading stops
/// behind them.
proof fn lemma_parts_read(b: Seq<u8>, k: ContextKeyModel)
    requires
        key_fits(k),
        parts_stand(b, k),
    ensures
        ({
            let configuration = crate::codec::read_text(b, 0);
            let types = read_req_list(b, configuration.end);
            let labels = crate::codec::read_text_list(b, types.end);
            let forced = read_option(b, labels.end);
            let debug = crate::codec::read_flag(b, forced.end);
            &&& configuration.result == Ok::<Seq<char>, Seq<char>>(k.configuration)
            &&& types.result == Ok::<Seq<ReqModel>, Seq<char>>(k.types)
            &&& labels.result == Ok::<Seq<Seq<char>>, Seq<char>>(k.labels)
            &&& forced.result == Ok::<Option<Seq<char>>, Seq<char>>(k.forced)
            &&& debug.result == Ok::<bool, Seq<char>>(k.debug)
            &&& debug.end == part_starts(k).3 + 1
        }),
{
    crate::codec::lemma_read_text(b, 0);
    let configuration = crate::codec::read_text(b, 0);
    assert(configuration.result == Ok::<Seq<char>, Seq<char>>(k.configuration));
    lemma_read_req_list(b, configuration.end);
    let types = read_req_list(b, configuration.end);
    assert(types.result == Ok::<Seq<ReqModel>, Seq<char>>(k.types));
    crate::codec::lemma_read_text_list(b, types.end);
    let labels = crate::codec::read_text_list(b, types.end);
    assert(labels.result == Ok::<Seq<Seq<char>>, Seq<char>>(k.labels));
    lemma_read_option(b, labels.end);
    let forced = read_option(b, labels.end);
    assert(forced.result == Ok::<Option<Seq<char>>, Seq<char>>(k.forced));
    crate::codec::lemma_read_flag(b, forced.end);
    let debug = crate::codec::read_flag(b, forced.end);
    assert(debug.result == Ok::<bool, Seq<char>>(k.debug));
}

/// Where `b` starts with the byte form of `k`, reading it finds the five dimensions and stops
/// behind them.
pub proof fn lemma_context_key_reads(b: Seq<u8>, k: ContextKeyModel)
    requires
        key_fits(k),
        crate::codec::stands_at(b, 0, context_key_bytes(k)),
    ensures
        ({
            let configuration = crate::codec::read_text(b, 0);
            let types = read_req_list(b, configuration.end);
            let labels = crate::codec::read_text_list(b, types.end);
            let forced = read_option(b, labels.end);
            let debug = crate::codec::read_flag(b, forced.end);
            &&& configuration.result == Ok::<Seq<char>, Seq<char>>(k.configuration)
            &&& types.result == Ok::<Seq<ReqModel>, Seq<char>>(k.types)
            &&& labels.result == Ok::<Seq<Seq<char>>, Seq<char>>(k.labels)
            &&& forced.result == Ok::<Option<Seq<char>>, Seq<char>>(k.forced)
            &&& debug.result == Ok::<bool, Seq<char>>(k.debug)
            &&& debug.end == context_key_bytes(k).len()
        }),
{
    lemma_context_key_parts(b, k);
    lemma_parts_read(b, k);
}

/// Two keys whose byte forms both start `b` are the same.
pub proof fn lemma_context_key_start(b: Seq<u8>, k: ContextKeyModel, j: ContextKeyModel)
    requires
        key_fits(k),
        key_fits(j),
        crate::codec::stands_at(b, 0, context_key_bytes(k)),
        crate::codec::stands_at(b, 0, context_key_bytes(j)),
    ensures
        k == j,
{
    lemma_context_key_parts(b, k);
    lemma_context_key_parts(b, j);
    lemma_parts_read(b, k);
    lemma_parts_read(b, j);
}

/// The byte form of a context key is read as that key.
proof fn lemma_context_key_written(k: ContextKeyModel)
    requires
        key_fits(k),
    ensures
        read_context_key(context_key_bytes(k)) == Ok::<ContextKeyModel, Seq<char>>(k),
{
    let b = context_key_bytes(k);
    lemma_context_key_parts(b, k);
    lemma_parts_read(b, k);
}

/// What is read as a context key is its byte form.
proof fn lemma_context_key_accepted(b: Seq<u8>, k: ContextKeyModel)
    requires
        read_context_key(b) == Ok::<ContextKeyModel, Seq<char>>(k),
    ensures
        key_fits(k),
        b == context_key_bytes(k),
{
    let configuration = crate::codec::read_text(b, 0);
    let types = read_req_list(b, configuration.end);
    let labels = crate::codec::read_text_list(b, types.end);
    let forced = read_option(b, labels.end);
    crate::codec::lemma_read_text(b, 0);
    lemma_read_req_list(b, configuration.end);
    crate::codec::lemma_read_text_list(b, types.end);
    lemma_read_option(b, labels.end);
    crate::codec::lemma_read_flag(b, forced.end);
    lemma_context_key_parts(b, k);
}

/// A byte form of a context key is read as that key, and what is read as a key is its byte form.
pub proof fn lemma_context_key_bytes(b: Seq<u8>, k: ContextKeyModel)
    ensures
        read_context_key(b) == Ok::<ContextKeyModel, Seq<char>>(k) <==> key_fits(k) && b
            == context_key_bytes(k),
{
    if read_context_key(b) == Ok::<ContextKeyModel, Seq<char>>(k) {
        lemma_context_key_accepted(b, k);
    }
    if key_fits(k) && b == context_key_bytes(k) {
        lemma_context_key_written(k);
    }
}

/// The byte form of a configuration is read as that configuration, and what is read as one is
/// its byte form.
pub proof fn lemma_configuration_key_bytes(b: Seq<u8>, configuration: Seq<char>)
    ensures
        read_configuration_key(b) == Ok::<Seq<char>, Seq<char>>(configuration)
            <==> vstd::utf8::encode_utf8(configuration).len() <= u64::MAX && b
            == crate::codec::text_bytes(configuration),
{
    crate::codec::lemma_read_text(b, 0);
    crate::codec::lemma_stands_whole(b, crate::codec::text_bytes(configuration));
}

// Encoders and decoders.

impl Key for ToolchainContextKey {
    open spec fn node_kind(&self) -> KindId {
        TOOLCHAIN_CONTEXT
    }

    open spec fn node_bytes(&self) -> Seq<u8> {
        context_key_bytes(self@)
    }

    open spec fn node_fits(&self) -> bool {
        key_fits(self@)
    }

    fn kind(&self) -> (r: KindId) {
        TOOLCHAIN_CONTEXT
    }

    fn encode(&self) -> (r: Vec<u8>) {
        let mut b: Vec<u8> = Vec::new();
        enc_str(&mut b, self.configuration.0.as_str());
        let ghost p1 = crate::codec::text_bytes(self@.configuration);
        assert(b@ =~= p1);
        enc_count(&mut b, self.toolchain_types.len() as u64);
        let ghost start = b@;
        let ghost list = self@.types;
        let mut k: usize = 0;
        proof {
            assert(list.take(0) =~= seq![]);
            assert(start + reqs_bytes(list.take(0)) =~= start);
        }
        while k < self.toolchain_types.len()
            invariant
                k <= self.toolchain_types@.len(),
                list == crate::types::reqs(self.toolchain_types@),
                b@ == start + reqs_bytes(list.take(k as int)),
                forall|j: int|
                    0 <= j < k ==> vstd::utf8::encode_utf8(#[trigger] requested_types(list)[j]).len()
                        <= u64::MAX,
            decreases self.toolchain_types@.len() - k,
        {
            let req = &self.toolchain_types[k];
            enc_str(&mut b, req.toolchain_type.0.as_str());
            enc_bool(&mut b, req.mandatory);
            proof {
                let next = list.take(k + 1);
                assert(next.drop_last() =~= list.take(k as int));
                assert(next.last() == req@);
                assert(b@ =~= start + reqs_bytes(next));
            }
            k += 1;
        }
        proof {
            assert(list.take(k as int) =~= list);
            assert(b@ =~= p1 + req_list_bytes(list));
        }
        enc_constraints(&mut b, self.exec_constraint_labels.as_slice());
        match &self.force_exec_platform {
            None => b.push(0),
            Some(p) => {
                b.push(1);
                enc_str(&mut b, p.as_str());
            },
        }
        enc_bool(&mut b, self.debug_target);
        assert(b@ =~= context_key_bytes(self@));
        b
    }
}

/// The error of a decoder for `what` on bytes that read as `read`.
pub open spec fn decode_failure<T>(what: Seq<char>, read: Result<T, Seq<char>>) -> Option<ErrorModel> {
    match read {
        Ok(_) => None,
        Err(detail) => Some(ErrorModel::Invalid { what, detail }),
    }
}

/// Reads a list of requests.
fn decode_reqs(c: &mut Cur) -> (r: Result<Vec<ToolchainTypeReq>, Error>)
    ensures
        crate::codec::answers(
            *old(c),
            *final(c),
            read_req_list(old(c).b@, old(c).i as int),
            crate::codec::failure(r),
        ),
        r matches Ok(list) ==> read_req_list(old(c).b@, old(c).i as int).result == Ok::<
            Seq<ReqModel>,
            Seq<char>,
        >(crate::types::reqs(list@)),
{
    let n = match c.u64() {
        Ok(n) => n,
        Err(e) => return Err(e),
    };
    let ghost start = c.i as int;
    let mut list: Vec<ToolchainTypeReq> = Vec::new();
    let mut k: u64 = 0;
    assert(crate::types::reqs(list@) =~= seq![]);
    while k < n
        invariant
            k <= n,
            c.b == old(c).b,
            c.what == old(c).what,
            crate::codec::read_count(old(c).b@, old(c).i as int).result == Ok::<nat, Seq<char>>(
                n as nat,
            ),
            crate::codec::read_count(old(c).b@, old(c).i as int).end == start,
            read_reqs(c.b@, start, k as nat).result == Ok::<Seq<ReqModel>, Seq<char>>(
                crate::types::reqs(list@),
            ),
            read_reqs(c.b@, start, k as nat).end == c.i,
        decreases n - k,
    {
        let ghost read = crate::types::reqs(list@);
        let ty = match c.str() {
            Ok(s) => s,
            Err(e) => {
                proof {
                    lemma_read_reqs_stuck(c.b@, start, (k + 1) as nat, n as nat);
                }
                return Err(e);
            },
        };
        let mandatory = match c.bool() {
            Ok(m) => m,
            Err(e) => {
                proof {
                    lemma_read_reqs_stuck(c.b@, start, (k + 1) as nat, n as nat);
                }
                return Err(e);
            },
        };
        list.push(ToolchainTypeReq { toolchain_type: ToolchainType(ty), mandatory });
        assert(crate::types::reqs(list@) =~= read.push(ReqModel { ty: ty@, mandatory }));
        k += 1;
    }
    Ok(list)
}

/// Decodes the byte form of a [`ToolchainContextKey`]. Fail-closed: bytes that are not the byte
/// form of a key are refused with the first reason.
pub fn decode_ctx_key(bytes: &[u8]) -> (r: Result<ToolchainContextKey, Error>)
    ensures
        crate::codec::failure(r) == decode_failure(
            "TOOLCHAIN_CONTEXT key"@,
            read_context_key(bytes@),
        ),
        r matches Ok(k) ==> read_context_key(bytes@) == Ok::<ContextKeyModel, Seq<char>>(k@) && bytes@
            == context_key_bytes(k@),
{
    let mut c = Cur::new(bytes, "TOOLCHAIN_CONTEXT key");
    let configuration = match c.str() {
        Ok(s) => ConfigId(s),
        Err(e) => return Err(e),
    };
    let toolchain_types = match decode_reqs(&mut c) {
        Ok(list) => list,
        Err(e) => return Err(e),
    };
    let exec_constraint_labels = match c.constraints() {
        Ok(list) => list,
        Err(e) => return Err(e),
    };
    let tag = match c.byte() {
        Ok(t) => t,
        Err(e) => return Err(e),
    };
    let force_exec_platform = match tag {
        0 => None,
        1 => match c.str() {
            Ok(s) => Some(s),
            Err(e) => return Err(e),
        },
        t => {
            let detail = crate::text::with_number("bad option tag ", t);
            return Err(c.err(detail.as_str()));
        },
    };
    let debug_target = match c.bool() {
        Ok(f) => f,
        Err(e) => return Err(e),
    };
    match c.done() {
        Ok(_) => {},
        Err(e) => return Err(e),
    }
    let k = ToolchainContextKey {
        configuration,
        toolchain_types,
        exec_constraint_labels,
        force_exec_platform,
        debug_target,
    };
    proof {
        lemma_context_key_bytes(bytes@, k@);
    }
    Ok(k)
}

// ---------------------------------------------------------------------------------------------
// The keys of the registered sets
// ---------------------------------------------------------------------------------------------

/// The key of the registered toolchains: the configuration alone.
#[derive(PartialEq, Eq, Hash, PartialOrd, Ord, Debug)]
pub struct RegisteredToolchainsKey {
    pub configuration: ConfigId,
}

/// The key of the registered execution platforms: the configuration alone.
#[derive(PartialEq, Eq, Hash, PartialOrd, Ord, Debug)]
pub struct RegisteredExecutionPlatformsKey {
    pub configuration: ConfigId,
}

impl Clone for RegisteredToolchainsKey {
    fn clone(&self) -> (r: Self)
        ensures
            r == *self,
    {
        RegisteredToolchainsKey { configuration: self.configuration.clone() }
    }
}

impl Clone for RegisteredExecutionPlatformsKey {
    fn clone(&self) -> (r: Self)
        ensures
            r == *self,
    {
        RegisteredExecutionPlatformsKey { configuration: self.configuration.clone() }
    }
}

/// The byte form of a configuration.
fn encode_configuration(configuration: &ConfigId) -> (r: Vec<u8>)
    ensures
        r@ == crate::codec::text_bytes(configuration@),
        vstd::utf8::encode_utf8(configuration@).len() <= u64::MAX,
{
    let mut b: Vec<u8> = Vec::new();
    enc_str(&mut b, configuration.0.as_str());
    assert(b@ =~= crate::codec::text_bytes(configuration@));
    b
}

/// Decodes the byte form of a configuration; `what` names the key that it is the form of.
fn decode_configuration(bytes: &[u8], what: &'static str) -> (r: Result<ConfigId, Error>)
    ensures
        crate::codec::failure(r) == decode_failure(what@, read_configuration_key(bytes@)),
        r matches Ok(c) ==> read_configuration_key(bytes@) == Ok::<Seq<char>, Seq<char>>(c@)
            && bytes@ == crate::codec::text_bytes(c@),
{
    let mut c = Cur::new(bytes, what);
    let configuration = match c.str() {
        Ok(s) => ConfigId(s),
        Err(e) => return Err(e),
    };
    match c.done() {
        Ok(_) => {},
        Err(e) => return Err(e),
    }
    proof {
        lemma_configuration_key_bytes(bytes@, configuration@);
    }
    Ok(configuration)
}

impl Key for RegisteredToolchainsKey {
    open spec fn node_kind(&self) -> KindId {
        REGISTERED_TOOLCHAINS
    }

    open spec fn node_bytes(&self) -> Seq<u8> {
        crate::codec::text_bytes(self.configuration@)
    }

    open spec fn node_fits(&self) -> bool {
        vstd::utf8::encode_utf8(self.configuration@).len() <= u64::MAX
    }

    fn kind(&self) -> (r: KindId) {
        REGISTERED_TOOLCHAINS
    }

    fn encode(&self) -> (r: Vec<u8>) {
        encode_configuration(&self.configuration)
    }
}

impl Key for RegisteredExecutionPlatformsKey {
    open spec fn node_kind(&self) -> KindId {
        REGISTERED_EXECUTION_PLATFORMS
    }

    open spec fn node_bytes(&self) -> Seq<u8> {
        crate::codec::text_bytes(self.configuration@)
    }

    open spec fn node_fits(&self) -> bool {
        vstd::utf8::encode_utf8(self.configuration@).len() <= u64::MAX
    }

    fn kind(&self) -> (r: KindId) {
        REGISTERED_EXECUTION_PLATFORMS
    }

    fn encode(&self) -> (r: Vec<u8>) {
        encode_configuration(&self.configuration)
    }
}

/// Decodes the byte form of a [`RegisteredToolchainsKey`], fail-closed.
pub fn decode_registered_toolchains_key(bytes: &[u8]) -> (r: Result<RegisteredToolchainsKey, Error>)
    ensures
        crate::codec::failure(r) == decode_failure(
            "REGISTERED_TOOLCHAINS key"@,
            read_configuration_key(bytes@),
        ),
        r matches Ok(k) ==> read_configuration_key(bytes@) == Ok::<Seq<char>, Seq<char>>(
            k.configuration@,
        ) && bytes@ == k.node_bytes(),
{
    match decode_configuration(bytes, "REGISTERED_TOOLCHAINS key") {
        Ok(configuration) => Ok(RegisteredToolchainsKey { configuration }),
        Err(e) => Err(e),
    }
}

/// Decodes the byte form of a [`RegisteredExecutionPlatformsKey`], fail-closed.
pub fn decode_registered_exec_platforms_key(bytes: &[u8]) -> (r: Result<
    RegisteredExecutionPlatformsKey,
    Error,
>)
    ensures
        crate::codec::failure(r) == decode_failure(
            "REGISTERED_EXECUTION_PLATFORMS key"@,
            read_configuration_key(bytes@),
        ),
        r matches Ok(k) ==> read_configuration_key(bytes@) == Ok::<Seq<char>, Seq<char>>(
            k.configuration@,
        ) && bytes@ == k.node_bytes(),
{
    match decode_configuration(bytes, "REGISTERED_EXECUTION_PLATFORMS key") {
        Ok(configuration) => Ok(RegisteredExecutionPlatformsKey { configuration }),
        Err(e) => Err(e),
    }
}

} // verus!
