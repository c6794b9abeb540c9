//! Trusted boundary around the sparse cell store.
//!
//! The canvas keeps its cells in an `fnv::FnvHashMap` keyed by cell
//! coordinate.  The verifier does not look inside the hash map; the wrappers
//! below state what each map operation does in terms of the map's abstract
//! view, and the rest of the crate is proved against those contracts alone.

use vstd::prelude::*;

verus! {

/// The hasher that `fnv`'s map alias uses; opaque here, since nothing in the
/// contracts depends on how keys are hashed.
#[verifier::external_type_specification]
#[verifier::external_body]
pub struct ExFnvHasher(fnv::FnvHasher);

/// `std::hash::BuildHasherDefault`, through which `fnv` supplies its hasher.
#[verifier::external_type_specification]
#[verifier::external_body]
#[verifier::reject_recursive_types(H)]
pub struct ExBuildHasherDefault<H>(std::hash::BuildHasherDefault<H>);

/// The sparse store: cell coordinate to (dot mask, override character).
pub type CellMap = fnv::FnvHashMap<(u32, u32), (u8, char)>;

/// The empty cell contents: no cell has been touched.
pub open spec fn empty_cells() -> Map<(u32, u32), (u8, char)> {
    Map::empty()
}

/// Relies on `HashMap::default`: a freshly built map is empty.
#[verifier::external_body]
pub(crate) fn cell_map_new() -> (m: CellMap)
    ensures
        m@ == empty_cells(),
{
    fnv::FnvHashMap::default()
}

/// Relies on `HashMap::clear`: afterwards the map holds no entries.
#[verifier::external_body]
pub(crate) fn cell_map_clear(m: &mut CellMap)
    ensures
        final(m)@ == empty_cells(),
{
    m.clear();
}

/// Relies on `HashMap::insert`: the entry for `k` becomes `v` and no other
/// entry changes.
#[verifier::external_body]
pub(crate) fn cell_map_insert(m: &mut CellMap, k: (u32, u32), v: (u8, char))
    ensures
        final(m)@ == old(m)@.insert(k, v),
{
    m.insert(k, v);
}

/// Relies on `HashMap::get`: the entry stored for `k`, if there is one.
#[verifier::external_body]
pub(crate) fn cell_map_get(m: &CellMap, k: (u32, u32)) -> (r: Option<(u8, char)>)
    ensures
        r == if m@.dom().contains(k) {
            Some(m@[k])
        } else {
            None::<(u8, char)>
        },
{
    m.get(&k).copied()
}

/// Relies on `HashMap::keys`: every key of the map is handed out, and
/// nothing else.  No order is promised.
#[verifier::external_body]
pub(crate) fn cell_map_keys(m: &CellMap) -> (r: Vec<(u32, u32)>)
    ensures
        forall|k: (u32, u32)| r@.contains(k) <==> m@.dom().contains(k),
{
    m.keys().copied().collect()
}

} // verus!
