//! The per-session tables: objects exported to the peer by position, and the
//! positions the peer has given us.
use vstd::prelude::*;
use dashmap::{DashMap, DashSet};
use std::collections::hash_map::RandomState;
use crate::msg::DescImportObject;

verus! {

#[verifier::external_type_specification]
#[verifier::external_body]
#[verifier::reject_recursive_types(K)]
#[verifier::reject_recursive_types(V)]
#[verifier::reject_recursive_types(S)]
pub struct ExDashMap<K, V, S>(DashMap<K, V, S>);

#[verifier::external_type_specification]
#[verifier::external_body]
#[verifier::reject_recursive_types(K)]
#[verifier::reject_recursive_types(S)]
pub struct ExDashSet<K, S>(DashSet<K, S>);

/// The concurrent map of exported objects.
pub type ExportMap = DashMap<u64, u64, RandomState>;

/// The concurrent set of imported positions.
pub type ImportMembers = DashSet<u64, RandomState>;

/// What an export map holds: positions and the objects at them.
pub uninterp spec fn export_entries(m: ExportMap) -> Map<u64, u64>;

/// What an import set holds.
pub uninterp spec fn import_members(s: ImportMembers) -> Set<u64>;

/// The table with nothing in it.
pub open spec fn no_objects() -> Map<u64, u64> {
    Map::empty()
}

/// Relies on `DashMap::new`: an empty map.
#[verifier::external_body]
fn exports_new() -> (r: ExportMap)
    ensures
        export_entries(r) == no_objects(),
{
    DashMap::new()
}

/// Relies on `DashMap::insert`: afterwards the key maps to the value, and the
/// other entries stay.
#[verifier::external_body]
fn exports_insert(m: &mut ExportMap, key: u64, value: u64)
    ensures
        export_entries(*final(m)) == export_entries(*old(m)).insert(key, value),
{
    m.insert(key, value);
}

/// Relies on `DashMap::get`: the value at the key, if there is one.
#[verifier::external_body]
fn exports_get(m: &ExportMap, key: u64) -> (r: Option<u64>)
    ensures
        r == (if export_entries(*m).contains_key(key) {
            Some(export_entries(*m)[key])
        } else {
            None
        }),
{
    m.get(&key).map(|entry| *entry.value())
}

/// Relies on `DashMap::remove`: the entry at the key leaves, and is returned.
#[verifier::external_body]
fn exports_remove(m: &mut ExportMap, key: u64) -> (r: Option<u64>)
    ensures
        export_entries(*final(m)) == export_entries(*old(m)).remove(key),
        r == (if export_entries(*old(m)).contains_key(key) {
            Some(export_entries(*old(m))[key])
        } else {
            None
        }),
{
    m.remove(&key).map(|(_, value)| value)
}

/// Relies on `DashSet::new`: an empty set.
#[verifier::external_body]
fn imports_new() -> (r: ImportMembers)
    ensures
        import_members(r) == Set::<u64>::empty(),
{
    DashSet::new()
}

/// Relies on `DashSet::insert`: afterwards the set holds the key.
#[verifier::external_body]
fn imports_insert(s: &mut ImportMembers, key: u64)
    ensures
        import_members(*final(s)) == import_members(*old(s)).insert(key),
{
    s.insert(key);
}

/// Relies on `DashSet::contains`.
#[verifier::external_body]
fn imports_contains(s: &ImportMembers, key: u64) -> (r: bool)
    ensures
        r == import_members(*s).contains(key),
{
    s.contains(&key)
}

/// An object handed to the table: an identifier that the host maps to the
/// object itself.
pub type ObjectId = u64;

/// The model of the export table: the objects by position, and the next
/// position to hand out.
pub struct ExportsModel {
    pub objects: Map<u64, ObjectId>,
    pub next_position: u64,
}

/// The objects exported to the peer. Position 0 is the bootstrap object and
/// is never in the table; positions are handed out in increasing order and
/// never reused, even after removal.
pub struct ExportManager {
    exports: ExportMap,
    next_position: u64,
}

impl View for ExportManager {
    type V = ExportsModel;

    closed spec fn view(&self) -> ExportsModel {
        ExportsModel { objects: export_entries(self.exports), next_position: self.next_position }
    }
}

/// Every position in the table was handed out before the next one.
pub open spec fn exports_wf(m: ExportsModel) -> bool {
    &&& m.next_position >= 1
    &&& forall|p: u64| #[trigger] m.objects.contains_key(p) ==> 1 <= p < m.next_position
}

/// One export: the object goes in at the next position, which moves on.
pub open spec fn export_step(before: ExportsModel, obj: ObjectId, after: ExportsModel, position: u64) -> bool {
    &&& position == before.next_position
    &&& after.next_position == before.next_position + 1
    &&& after.objects == before.objects.insert(position, obj)
}

impl ExportManager {
    pub fn new() -> (r: ExportManager)
        ensures
            r@.objects == no_objects(),
            r@.next_position == 1,
            exports_wf(r@),
    {
        ExportManager { exports: exports_new(), next_position: 1 }
    }

    /// Exports an object at a fresh position; `None` once every position has
    /// been handed out.
    pub fn export_object(&mut self, obj: ObjectId) -> (r: Option<DescImportObject>)
        requires
            exports_wf(old(self)@),
        ensures
            old(self)@.next_position == u64::MAX ==> r is None && final(self)@ == old(self)@,
            old(self)@.next_position < u64::MAX ==> r is Some
                && export_step(old(self)@, obj, final(self)@, r->Some_0.position),
            r is Some ==> r->Some_0.position >= 1 && !old(self)@.objects.contains_key(r->Some_0.position),
            exports_wf(final(self)@),
    {
        if self.next_position == u64::MAX {
            return None;
        }
        let position = self.next_position;
        let ghost before = self@;
        exports_insert(&mut self.exports, position, obj);
        self.next_position = position + 1;
        proof {
            assert forall|p: u64| #[trigger] self@.objects.contains_key(p) implies 1 <= p < self@.next_position by {
                if p != position {
                    assert(before.objects.contains_key(p));
                }
            }
        }
        Some(DescImportObject { position })
    }

    /// The object at a position, if one is exported there.
    pub fn get(&self, position: u64) -> (r: Option<ObjectId>)
        ensures
            r == (if self@.objects.contains_key(position) {
                Some(self@.objects[position])
            } else {
                None
            }),
    {
        exports_get(&self.exports, position)
    }

    /// Withdraws the object at a position; the position is not handed out again.
    pub fn remove(&mut self, position: u64) -> (r: Option<ObjectId>)
        requires
            exports_wf(old(self)@),
        ensures
            exports_wf(final(self)@),
            final(self)@.objects == old(self)@.objects.remove(position),
            final(self)@.next_position == old(self)@.next_position,
            r == (if old(self)@.objects.contains_key(position) {
                Some(old(self)@.objects[position])
            } else {
                None
            }),
    {
        let ghost before = self@;
        let r = exports_remove(&mut self.exports, position);
        proof {
            assert forall|p: u64| #[trigger] self@.objects.contains_key(p) implies 1 <= p < self@.next_position by {
                assert(before.objects.contains_key(p));
            }
        }
        r
    }
}

/// The positions that the peer has told us are valid references.
pub struct ImportSet {
    members: ImportMembers,
}

impl View for ImportSet {
    type V = Set<u64>;

    closed spec fn view(&self) -> Set<u64> {
        import_members(self.members)
    }
}

impl ImportSet {
    pub fn new() -> (r: ImportSet)
        ensures
            r@ == Set::<u64>::empty(),
    {
        ImportSet { members: imports_new() }
    }

    pub fn insert(&mut self, position: u64)
        ensures
            final(self)@ == old(self)@.insert(position),
    {
        imports_insert(&mut self.members, position);
    }

    pub fn contains(&self, position: u64) -> (r: bool)
        ensures
            r == self@.contains(position),
    {
        imports_contains(&self.members, position)
    }
}

/// A position that was in use and then withdrawn is not handed out again:
/// the next export's position is greater.
pub proof fn lemma_removed_not_reused(
    before: ExportsModel,
    removed: u64,
    between: ExportsModel,
    obj: ObjectId,
    after: ExportsModel,
    position: u64,
)
    requires
        exports_wf(before),
        before.objects.contains_key(removed),
        between.objects == before.objects.remove(removed),
        between.next_position == before.next_position,
        export_step(between, obj, after, position),
    ensures
        position > removed,
        !between.objects.contains_key(position),
{
}

/// Positions handed out by successive exports increase strictly and are at
/// least 1, and none of them was in use before.
pub proof fn lemma_positions_increase(
    s0: ExportsModel,
    o1: ObjectId,
    s1: ExportsModel,
    p1: u64,
    o2: ObjectId,
    s2: ExportsModel,
    p2: u64,
)
    requires
        exports_wf(s0),
        export_step(s0, o1, s1, p1),
        export_step(s1, o2, s2, p2),
    ensures
        1 <= p1 < p2,
        !s0.objects.contains_key(p1),
        !s1.objects.contains_key(p2),
        exports_wf(s1),
        exports_wf(s2),
{
}

/// The concurrent map of swiss numbers.
pub type SwissMap = DashMap<Vec<u8>, ObjectId, RandomState>;

/// What a swiss map holds: swiss numbers and the objects they name.
pub uninterp spec fn swiss_entries(m: SwissMap) -> Map<Seq<u8>, ObjectId>;

/// The registry with nothing in it.
pub open spec fn no_swiss() -> Map<Seq<u8>, ObjectId> {
    Map::empty()
}

/// Relies on `DashMap::new`: an empty map.
#[verifier::external_body]
fn swiss_new() -> (r: SwissMap)
    ensures
        swiss_entries(r) == no_swiss(),
{
    DashMap::new()
}

/// Relies on `DashMap::insert`: afterwards the key maps to the value, the
/// other entries stay, and the earlier value at the key is returned.
#[verifier::external_body]
fn swiss_insert(m: &mut SwissMap, key: Vec<u8>, value: ObjectId) -> (r: Option<ObjectId>)
    ensures
        swiss_entries(*final(m)) == swiss_entries(*old(m)).insert(key@, value),
        r == (if swiss_entries(*old(m)).contains_key(key@) {
            Some(swiss_entries(*old(m))[key@])
        } else {
            None
        }),
{
    m.insert(key, value)
}

/// Relies on `DashMap::get`: the value at the key, if there is one.
#[verifier::external_body]
fn swiss_get(m: &SwissMap, key: &[u8]) -> (r: Option<ObjectId>)
    ensures
        r == (if swiss_entries(*m).contains_key(key@) {
            Some(swiss_entries(*m)[key@])
        } else {
            None
        }),
{
    m.get(key).map(|entry| *entry.value())
}

/// Relies on `DashMap::remove`: the entry at the key leaves, and is returned.
#[verifier::external_body]
fn swiss_remove(m: &mut SwissMap, key: &[u8]) -> (r: Option<ObjectId>)
    ensures
        swiss_entries(*final(m)) == swiss_entries(*old(m)).remove(key@),
        r == (if swiss_entries(*old(m)).contains_key(key@) {
            Some(swiss_entries(*old(m))[key@])
        } else {
            None
        }),
{
    m.remove(key).map(|(_, value)| value)
}

/// The objects that this node offers under swiss numbers, for the bootstrap
/// object's `fetch`.
pub struct SwissRegistry {
    map: SwissMap,
}

impl View for SwissRegistry {
    type V = Map<Seq<u8>, ObjectId>;

    closed spec fn view(&self) -> Map<Seq<u8>, ObjectId> {
        swiss_entries(self.map)
    }
}

impl SwissRegistry {
    pub fn new() -> (r: SwissRegistry)
        ensures
            r@ == no_swiss(),
    {
        SwissRegistry { map: swiss_new() }
    }

    /// Offers an object under a swiss number, in place of any earlier one,
    /// which is returned.
    pub fn insert(&mut self, key: Vec<u8>, value: ObjectId) -> (r: Option<ObjectId>)
        ensures
            final(self)@ == old(self)@.insert(key@, value),
            r == (if old(self)@.contains_key(key@) {
                Some(old(self)@[key@])
            } else {
                None
            }),
    {
        swiss_insert(&mut self.map, key, value)
    }

    /// The object offered under a swiss number.
    pub fn get(&self, swiss: &[u8]) -> (r: Option<ObjectId>)
        ensures
            r == (if self@.contains_key(swiss@) {
                Some(self@[swiss@])
            } else {
                None
            }),
    {
        swiss_get(&self.map, swiss)
    }

    /// Withdraws the object offered under a swiss number.
    pub fn remove(&mut self, swiss: &[u8]) -> (r: Option<ObjectId>)
        ensures
            final(self)@ == old(self)@.remove(swiss@),
            r == (if old(self)@.contains_key(swiss@) {
                Some(old(self)@[swiss@])
            } else {
                None
            }),
    {
        swiss_remove(&mut self.map, swiss)
    }
}

} // verus!
