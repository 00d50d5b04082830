//! A map from toolchain types to values that lists its entries in the order of the type ids.

use crate::types::ToolchainType;
use vstd::prelude::*;

verus! {

/// A map keyed by toolchain type. Its entries stand in the order of their type ids.
#[derive(PartialEq, Eq, Debug)]
pub struct TypeMap<V> {
    entries: Vec<(ToolchainType, V)>,
}

/// The type ids of a list of entries.
pub open spec fn entry_types<V>(list: Seq<(ToolchainType, V)>) -> Seq<Seq<char>> {
    list.map_values(|e: (ToolchainType, V)| e.0@)
}

/// `list` holds the entries of `m`, each once, in the order of the type ids.
pub open spec fn lists<V>(m: Map<Seq<char>, V>, list: Seq<(ToolchainType, V)>) -> bool {
    &&& crate::order::strictly_sorted(entry_types(list))
    &&& forall|t: Seq<char>| #[trigger] m.dom().contains(t) <==> entry_types(list).contains(t)
    &&& forall|i: int| 0 <= i < list.len() ==> m[(#[trigger] list[i]).0@] == list[i].1
}

/// `b` holds the same types as `a`, with clones of the values.
pub open spec fn map_cloned<V: Clone>(a: Map<Seq<char>, V>, b: Map<Seq<char>, V>) -> bool {
    &&& b.dom() == a.dom()
    &&& forall|t: Seq<char>| #[trigger] a.dom().contains(t) ==> cloned(a[t], b[t])
}

/// Where `t` stands in `list`.
spec fn place<V>(list: Seq<(ToolchainType, V)>, t: Seq<char>) -> int {
    choose|i: int| 0 <= i < list.len() && (#[trigger] list[i]).0@ == t
}

/// The map that a list of entries stands for.
spec fn map_of<V>(list: Seq<(ToolchainType, V)>) -> Map<Seq<char>, V> {
    Map::new(|t: Seq<char>| entry_types(list).contains(t), |t: Seq<char>| list[place(list, t)].1)
}

/// A sorted list of entries lists the map that it stands for.
proof fn lemma_map_of<V>(list: Seq<(ToolchainType, V)>)
    requires
        crate::order::strictly_sorted(entry_types(list)),
    ensures
        lists(map_of(list), list),
{
    crate::order::lemma_sorted_no_duplicates(entry_types(list));
    assert forall|i: int| 0 <= i < list.len() implies map_of(list)[(#[trigger] list[i]).0@]
        == list[i].1 by {
        let p = place(list, list[i].0@);
        assert(entry_types(list)[i] == list[i].0@);
        assert(entry_types(list)[p] == entry_types(list)[i]);
    }
}

/// A map is determined by a list of its entries.
proof fn lemma_lists_unique<V>(
    m: Map<Seq<char>, V>,
    n: Map<Seq<char>, V>,
    list: Seq<(ToolchainType, V)>,
)
    requires
        lists(m, list),
        lists(n, list),
    ensures
        m == n,
{
    assert forall|t: Seq<char>| #[trigger] m.dom().contains(t) implies m[t] == n[t] by {
        let i = choose|i: int| 0 <= i < entry_types(list).len() && entry_types(list)[i] == t;
        assert(list[i].0@ == t);
    }
    assert(m =~= n);
}

/// Maps of the same types list them in the same order.
pub proof fn lemma_listing_types<V, W>(
    m: Map<Seq<char>, V>,
    a: Seq<(ToolchainType, V)>,
    n: Map<Seq<char>, W>,
    b: Seq<(ToolchainType, W)>,
)
    requires
        lists(m, a),
        lists(n, b),
        m.dom() == n.dom(),
    ensures
        entry_types(a) == entry_types(b),
{
    assert forall|t: Seq<char>| entry_types(a).contains(t) <==> entry_types(b).contains(t) by {
        assert(m.dom().contains(t) <==> entry_types(a).contains(t));
        assert(n.dom().contains(t) <==> entry_types(b).contains(t));
    }
    crate::order::lemma_sorted_unique(entry_types(a), entry_types(b));
}

/// A map has as many entries as a list of them.
pub proof fn lemma_listing_len<V>(m: Map<Seq<char>, V>, list: Seq<(ToolchainType, V)>)
    requires
        lists(m, list),
    ensures
        m.dom().finite(),
        m.dom().len() == list.len(),
{
    let types = entry_types(list);
    crate::order::lemma_sorted_no_duplicates(types);
    types.unique_seq_to_set();
    assert(m.dom() =~= types.to_set());
    vstd::seq_lib::seq_to_set_is_finite(types);
}

impl<V> View for TypeMap<V> {
    type V = Map<Seq<char>, V>;

    closed spec fn view(&self) -> Map<Seq<char>, V> {
        map_of(self.entries@)
    }
}

impl<V: Clone> Clone for TypeMap<V> {
    fn clone(&self) -> (r: Self)
        ensures
            map_cloned(self@, r@),
    {
        proof {
            use_type_invariant(self);
            lemma_map_of(self.entries@);
        }
        let mut entries: Vec<(ToolchainType, V)> = Vec::new();
        let mut k: usize = 0;
        while k < self.entries.len()
            invariant
                k <= self.entries@.len(),
                entries@.len() == k,
                forall|j: int|
                    0 <= j < k ==> (#[trigger] entries@[j]).0 == self.entries@[j].0 && cloned(
                        self.entries@[j].1,
                        entries@[j].1,
                    ),
            decreases self.entries@.len() - k,
        {
            entries.push((self.entries[k].0.clone(), self.entries[k].1.clone()));
            k += 1;
        }
        assert(entry_types(entries@) =~= entry_types(self.entries@));
        let r = TypeMap { entries };
        proof {
            lemma_map_of(entries@);
            assert(r@.dom() =~= self@.dom());
            assert forall|t: Seq<char>| #[trigger] self@.dom().contains(t) implies cloned(
                self@[t],
                r@[t],
            ) by {
                let types = entry_types(entries@);
                let j = choose|j: int| 0 <= j < types.len() && types[j] == t;
                assert(entries@[j].0@ == t);
                assert(self.entries@[j].0@ == t);
            }
        }
        r
    }
}

impl<V> TypeMap<V> {
    #[verifier::type_invariant]
    spec fn sorted(self) -> bool {
        crate::order::strictly_sorted(entry_types(self.entries@))
    }

    /// The empty map.
    pub fn new() -> (m: Self)
        ensures
            m@ == Map::<Seq<char>, V>::empty(),
    {
        let m = TypeMap { entries: Vec::new() };
        assert(m@ =~= Map::<Seq<char>, V>::empty());
        m
    }

    /// The number of leading entries whose type comes before `t`.
    fn position(&self, t: &ToolchainType) -> (p: usize)
        ensures
            p <= self.entries@.len(),
            forall|j: int|
                0 <= j < p ==> crate::order::text_less(
                    #[trigger] entry_types(self.entries@)[j],
                    t@,
                ),
            forall|j: int|
                p <= j < self.entries@.len() ==> !crate::order::text_less(
                    #[trigger] entry_types(self.entries@)[j],
                    t@,
                ),
    {
        proof {
            use_type_invariant(self);
        }
        let mut p: usize = 0;
        while p < self.entries.len() && crate::order::less(
            self.entries[p].0.0.as_str(),
            t.0.as_str(),
        )
            invariant
                p <= self.entries@.len(),
                forall|j: int|
                    0 <= j < p ==> crate::order::text_less(
                        #[trigger] entry_types(self.entries@)[j],
                        t@,
                    ),
            decreases self.entries@.len() - p,
        {
            p += 1;
        }
        proof {
            let types = entry_types(self.entries@);
            assert forall|j: int| p <= j < types.len() implies !crate::order::text_less(
                #[trigger] types[j],
                t@,
            ) by {
                if crate::order::text_less(types[j], t@) && p < j {
                    crate::order::lemma_text_transitive(types[p as int], types[j], t@);
                }
            }
        }
        p
    }

    /// The value of `t`.
    pub fn get(&self, t: &ToolchainType) -> (r: Option<&V>)
        ensures
            r == (if self@.dom().contains(t@) {
                Some(&self@[t@])
            } else {
                None
            }),
    {
        proof {
            use_type_invariant(self);
            lemma_map_of(self.entries@);
        }
        let p = self.position(t);
        let ghost types = entry_types(self.entries@);
        if p < self.entries.len() && self.entries[p].0.0 == t.0 {
            assert(types[p as int] == t@);
            assert(self.entries@[p as int].0@ == t@);
            Some(&self.entries[p].1)
        } else {
            proof {
                crate::order::lemma_text_irreflexive(t@);
                if types.contains(t@) {
                    let k = choose|k: int| 0 <= k < types.len() && types[k] == t@;
                    assert(p < k);
                    assert(crate::order::text_less(types[p as int], types[k]));
                }
            }
            None
        }
    }

    /// Whether `t` has a value.
    pub fn contains_key(&self, t: &ToolchainType) -> (r: bool)
        ensures
            r == self@.dom().contains(t@),
    {
        self.get(t).is_some()
    }

    /// The number of types that have a value.
    pub fn len(&self) -> (n: usize)
        ensures
            n == self@.dom().len(),
            self@.dom().finite(),
    {
        proof {
            use_type_invariant(self);
            lemma_map_of(self.entries@);
            lemma_listing_len(self@, self.entries@);
        }
        self.entries.len()
    }

    /// The entries, in the order of the type ids.
    pub fn entries(&self) -> (r: &Vec<(ToolchainType, V)>)
        ensures
            lists(self@, r@),
    {
        proof {
            use_type_invariant(self);
            lemma_map_of(self.entries@);
        }
        &self.entries
    }

    /// The entries, in the order of the type ids.
    pub fn into_entries(self) -> (r: Vec<(ToolchainType, V)>)
        ensures
            lists(self@, r@),
    {
        proof {
            use_type_invariant(&self);
            lemma_map_of(self.entries@);
        }
        self.entries
    }

    /// Gives `t` the value `v`, in place of the value that it had, if it had one.
    pub fn insert(&mut self, t: ToolchainType, v: V)
        ensures
            final(self)@ == old(self)@.insert(t@, v),
    {
        proof {
            use_type_invariant(&*self);
        }
        let p = self.position(&t);
        let mut entries: Vec<(ToolchainType, V)> = Vec::new();
        std::mem::swap(&mut entries, &mut self.entries);
        let ghost before = entries@;
        let ghost types = entry_types(before);
        let ghost want = map_of(before).insert(t@, v);
        proof {
            lemma_map_of(before);
        }
        if p < entries.len() && entries[p].0.0 == t.0 {
            entries.set(p, (t, v));
            assert(entry_types(entries@) =~= types);
            assert(types[p as int] == t@);
            proof {
                crate::order::lemma_sorted_no_duplicates(types);
                assert forall|i: int| 0 <= i < entries@.len() implies want[(
                #[trigger] entries@[i]).0@] == entries@[i].1 by {
                    assert(entries@[i].0@ == types[i]);
                    assert(before[i].0@ == types[i]);
                }
            }
        } else {
            proof {
                assert forall|j: int| p <= j < types.len() implies crate::order::text_less(
                    t@,
                    #[trigger] types[j],
                ) by {
                    crate::order::lemma_text_total(types[p as int], t@);
                    assert(!crate::order::text_less(types[p as int], t@));
                    if p < j {
                        assert(crate::order::text_less(types[p as int], types[j]));
                        crate::order::lemma_text_transitive(t@, types[p as int], types[j]);
                    }
                }
                crate::order::lemma_sorted_insert(types, p as int, t@);
            }
            entries.insert(p, (t, v));
            assert(entry_types(entries@) =~= types.insert(p as int, t@));
            proof {
                crate::order::lemma_sorted_no_duplicates(entry_types(entries@));
                assert forall|i: int| 0 <= i < entries@.len() implies want[(
                #[trigger] entries@[i]).0@] == entries@[i].1 by {
                    assert(entries@[i].0@ == entry_types(entries@)[i]);
                    assert(entry_types(entries@)[p as int] == t@);
                    if i != p {
                        let k = if i < p { i } else { i - 1 };
                        assert(entries@[i] == before[k]);
                    }
                }
            }
        }
        proof {
            assert(lists(want, entries@));
            lemma_map_of(entries@);
            lemma_lists_unique(want, map_of(entries@), entries@);
        }
        self.entries = entries;
    }
}

} // verus!
