use vstd::prelude::*;
use indexmap::{IndexMap, IndexSet};
use crate::v1::cst::Point;
use crate::v1::types::InternedTagId;
use crate::v1::ids::{EnumVariantId, TagId};
use crate::events::tags::EventTag;

verus! {

/// indexmap::IndexMap, an insertion-ordered hash map; what an instance holds
/// is named below, one name per instance that the logic uses.
#[verifier::external_type_specification]
#[verifier::external_body]
#[verifier::reject_recursive_types(K)]
#[verifier::reject_recursive_types(V)]
#[verifier::reject_recursive_types(S)]
pub struct ExIndexMap<K, V, S>(IndexMap<K, V, S>);

/// What an index from tag names to interned ids holds.
pub uninterp spec fn tag_index_entries(m: IndexMap<String, InternedTagId>) -> Map<Seq<char>, InternedTagId>;

/// What an index from names to the place of their first use holds.
pub uninterp spec fn name_index_entries(m: IndexMap<String, Point>) -> Map<Seq<char>, Point>;

/// What an index from local ids to the place of their first use holds.
pub uninterp spec fn local_id_index_entries(m: IndexMap<u32, Point>) -> Map<u32, Point>;

/// Relies on IndexMap::new: the map is empty.
#[verifier::external_body]
pub fn tag_index_new() -> (r: IndexMap<String, InternedTagId>)
    ensures
        tag_index_entries(r).dom() == Set::<Seq<char>>::empty(),
{
    IndexMap::new()
}

/// Relies on IndexMap::get: the value stored under the key, if any.
#[verifier::external_body]
pub fn tag_index_get(m: &IndexMap<String, InternedTagId>, k: &str) -> (r: Option<InternedTagId>)
    ensures
        r == (if tag_index_entries(*m).contains_key(k@) { Some(tag_index_entries(*m)[k@]) } else { None }),
{
    m.get(k).copied()
}

/// Relies on IndexMap::insert: afterwards the key maps to the value, and every
/// other key keeps its value.
#[verifier::external_body]
pub fn tag_index_insert(m: &mut IndexMap<String, InternedTagId>, k: String, v: InternedTagId)
    ensures
        tag_index_entries(*final(m)) == tag_index_entries(*old(m)).insert(k@, v),
{
    m.insert(k, v);
}

/// Relies on IndexMap::new: the map is empty.
#[verifier::external_body]
pub fn name_index_new() -> (r: IndexMap<String, Point>)
    ensures
        name_index_entries(r).dom() == Set::<Seq<char>>::empty(),
{
    IndexMap::new()
}

/// Relies on IndexMap::get: the value stored under the key, if any.
#[verifier::external_body]
pub fn name_index_get(m: &IndexMap<String, Point>, k: &String) -> (r: Option<Point>)
    ensures
        r == (if name_index_entries(*m).contains_key(k@) { Some(name_index_entries(*m)[k@]) } else { None }),
{
    m.get(k).copied()
}

/// Relies on IndexMap::insert: afterwards the key maps to the value, and every
/// other key keeps its value.
#[verifier::external_body]
pub fn name_index_insert(m: &mut IndexMap<String, Point>, k: String, v: Point)
    ensures
        name_index_entries(*final(m)) == name_index_entries(*old(m)).insert(k@, v),
{
    m.insert(k, v);
}

/// Relies on IndexMap::new: the map is empty.
#[verifier::external_body]
pub fn local_id_index_new() -> (r: IndexMap<u32, Point>)
    ensures
        local_id_index_entries(r).dom() == Set::<u32>::empty(),
{
    IndexMap::new()
}

/// Relies on IndexMap::get: the value stored under the key, if any.
#[verifier::external_body]
pub fn local_id_index_get(m: &IndexMap<u32, Point>, k: u32) -> (r: Option<Point>)
    ensures
        r == (if local_id_index_entries(*m).contains_key(k) { Some(local_id_index_entries(*m)[k]) } else { None }),
{
    m.get(&k).copied()
}

/// Relies on IndexMap::insert: afterwards the key maps to the value, and every
/// other key keeps its value.
#[verifier::external_body]
pub fn local_id_index_insert(m: &mut IndexMap<u32, Point>, k: u32, v: Point)
    ensures
        local_id_index_entries(*final(m)) == local_id_index_entries(*old(m)).insert(k, v),
{
    m.insert(k, v);
}

/// What a table from lowercased tag names to tags holds.
pub uninterp spec fn tag_table_entries(m: IndexMap<String, EventTag>) -> Map<Seq<char>, EventTag>;

/// Relies on IndexMap::new: the map is empty.
#[verifier::external_body]
pub fn tag_table_new() -> (r: IndexMap<String, EventTag>)
    ensures
        tag_table_entries(r).dom() == Set::<Seq<char>>::empty(),
{
    IndexMap::new()
}

/// Relies on IndexMap::get: the value stored under the key, if any.
#[verifier::external_body]
pub fn tag_table_get(m: &IndexMap<String, EventTag>, k: &String) -> (r: Option<EventTag>)
    ensures
        r == (if tag_table_entries(*m).contains_key(k@) { Some(tag_table_entries(*m)[k@]) } else { None }),
{
    m.get(k).copied()
}

/// Relies on IndexMap::insert: afterwards the key maps to the value, and every
/// other key keeps its value.
#[verifier::external_body]
pub fn tag_table_insert(m: &mut IndexMap<String, EventTag>, k: String, v: EventTag)
    ensures
        tag_table_entries(*final(m)) == tag_table_entries(*old(m)).insert(k@, v),
{
    m.insert(k, v);
}

/// indexmap::IndexSet, an insertion-ordered hash set; what an instance
/// holds is named below.
#[verifier::external_type_specification]
#[verifier::external_body]
#[verifier::reject_recursive_types(T)]
#[verifier::reject_recursive_types(S)]
pub struct ExIndexSet<T, S>(IndexSet<T, S>);

/// What a set of variant ids holds, in insertion order.
pub uninterp spec fn variant_set_items(s: IndexSet<EnumVariantId>) -> Seq<EnumVariantId>;

/// Relies on IndexSet::new: the set is empty.
#[verifier::external_body]
pub fn variant_set_new() -> (r: IndexSet<EnumVariantId>)
    ensures
        variant_set_items(r) == Seq::<EnumVariantId>::empty(),
{
    IndexSet::new()
}

/// Relies on IndexSet::insert: a value the set does not hold is appended at
/// the end, and `true` returned; otherwise the set is unchanged and `false`
/// returned.
#[verifier::external_body]
pub fn variant_set_insert(s: &mut IndexSet<EnumVariantId>, v: EnumVariantId) -> (r: bool)
    ensures
        r == !variant_set_items(*old(s)).contains(v),
        r ==> variant_set_items(*final(s)) == variant_set_items(*old(s)).push(v),
        !r ==> variant_set_items(*final(s)) == variant_set_items(*old(s)),
{
    s.insert(v)
}

/// Relies on IndexSet::len: how many values the set holds.
#[verifier::external_body]
pub fn variant_set_len(s: &IndexSet<EnumVariantId>) -> (r: usize)
    ensures
        r == variant_set_items(*s).len(),
{
    s.len()
}

/// Relies on IndexSet's indexing: the value at position `i`, in insertion
/// order.
#[verifier::external_body]
pub fn variant_set_get(s: &IndexSet<EnumVariantId>, i: usize) -> (r: EnumVariantId)
    requires
        i < variant_set_items(*s).len(),
    ensures
        r == variant_set_items(*s)[i as int],
{
    s[i]
}

/// What a set of tag ids holds, in insertion order.
pub uninterp spec fn tag_set_items(s: IndexSet<TagId>) -> Seq<TagId>;

/// Relies on IndexSet::new: the set is empty.
#[verifier::external_body]
pub fn tag_set_new() -> (r: IndexSet<TagId>)
    ensures
        tag_set_items(r) == Seq::<TagId>::empty(),
{
    IndexSet::new()
}

/// Relies on IndexSet::insert: a value the set does not hold is appended at
/// the end, and `true` returned; otherwise the set is unchanged and `false`
/// returned.
#[verifier::external_body]
pub fn tag_set_insert(s: &mut IndexSet<TagId>, v: TagId) -> (r: bool)
    ensures
        r == !tag_set_items(*old(s)).contains(v),
        r ==> tag_set_items(*final(s)) == tag_set_items(*old(s)).push(v),
        !r ==> tag_set_items(*final(s)) == tag_set_items(*old(s)),
{
    s.insert(v)
}

/// Relies on IndexSet::len: how many values the set holds.
#[verifier::external_body]
pub fn tag_set_len(s: &IndexSet<TagId>) -> (r: usize)
    ensures
        r == tag_set_items(*s).len(),
{
    s.len()
}

/// Relies on IndexSet's indexing: the value at position `i`, in insertion
/// order.
#[verifier::external_body]
pub fn tag_set_get(s: &IndexSet<TagId>, i: usize) -> (r: TagId)
    requires
        i < tag_set_items(*s).len(),
    ensures
        r == tag_set_items(*s)[i as int],
{
    s[i]
}

/// What a set of texts holds, in insertion order.
pub uninterp spec fn text_set_items(s: IndexSet<String>) -> Seq<Seq<char>>;

/// Relies on IndexSet::new: the set is empty.
#[verifier::external_body]
pub fn text_set_new() -> (r: IndexSet<String>)
    ensures
        text_set_items(r) == Seq::<Seq<char>>::empty(),
{
    IndexSet::new()
}

/// Relies on IndexSet::insert: a text the set does not hold is appended at
/// the end, and `true` returned; otherwise the set is unchanged and `false`
/// returned.
#[verifier::external_body]
pub fn text_set_insert(s: &mut IndexSet<String>, v: String) -> (r: bool)
    ensures
        r == !text_set_items(*old(s)).contains(v@),
        r ==> text_set_items(*final(s)) == text_set_items(*old(s)).push(v@),
        !r ==> text_set_items(*final(s)) == text_set_items(*old(s)),
{
    s.insert(v)
}

} // verus!
