//! The hash tables the field is kept in. They are the `hashbrown` maps that
//! `bevy::utils` hands out, which the verifier cannot look into: each table
//! type hides one map, a spec function names what the map holds, and one
//! small function per map operation makes the call and carries the contract
//! that this crate takes from the documentation of `hashbrown::HashMap`
//! without proof.

use vstd::prelude::*;

use crate::duel::grid_map::GridType;

verus! {

/// From a cell's position to the kind of the cell: a
/// `bevy::utils::HashMap<(u8, u8), GridType>`.
#[verifier::external_body]
pub struct KindTable {
    inner: bevy::utils::HashMap<(u8, u8), GridType>,
}

/// What the map in a [`KindTable`] holds.
pub uninterp spec fn kind_entries(t: KindTable) -> Map<(u8, u8), GridType>;

/// Calls `hashbrown::HashMap::default`, which makes a map without entries.
#[verifier::external_body]
pub(crate) fn kind_table_new() -> (t: KindTable)
    ensures
        kind_entries(t).is_empty(),
{
    KindTable { inner: bevy::utils::HashMap::default() }
}

/// Calls `hashbrown::HashMap::get`, which finds the value stored under
/// `pos`, if there is one.
#[verifier::external_body]
pub(crate) fn kind_table_get<'a>(t: &'a KindTable, pos: (u8, u8)) -> (found: Option<&'a GridType>)
    ensures
        match found {
            Some(kind) => kind_entries(*t).contains_key(pos) && kind_entries(*t)[pos] == *kind,
            None => !kind_entries(*t).contains_key(pos),
        },
{
    t.inner.get(&pos)
}

/// Calls `hashbrown::HashMap::insert`, which stores `kind` under `pos`, in
/// place of what was there, and returns what was there.
#[verifier::external_body]
pub(crate) fn kind_table_insert(t: &mut KindTable, pos: (u8, u8), kind: GridType) -> (before:
    Option<GridType>)
    ensures
        kind_entries(*final(t)) == kind_entries(*old(t)).insert(pos, kind),
        before == if kind_entries(*old(t)).contains_key(pos) {
            Some(kind_entries(*old(t))[pos])
        } else {
            None
        },
{
    t.inner.insert(pos, kind)
}

/// Calls `hashbrown::HashMap::iter`, which visits every entry once, in an
/// order that the map chooses, and copies the entries out in that order.
#[verifier::external_body]
pub(crate) fn kind_table_entries(t: &KindTable) -> (all: Vec<((u8, u8), GridType)>)
    ensures
        forall|i: int, j: int| 0 <= i < j < all@.len() ==> all@[i].0 != all@[j].0,
        forall|i: int|
            0 <= i < all@.len() ==> kind_entries(*t).contains_key(#[trigger] all@[i].0)
                && kind_entries(*t)[all@[i].0] == all@[i].1,
        forall|pos: (u8, u8)|
            kind_entries(*t).contains_key(pos) ==> exists|i: int|
                0 <= i < all@.len() && #[trigger] all@[i].0 == pos,
{
    t.inner.iter().map(|(pos, kind)| (*pos, *kind)).collect()
}

/// From a cell's position to the handle of the cell: a
/// `hashbrown::HashMap<(u8, u8), u64>`.
#[verifier::external_body]
pub struct HandleTable {
    inner: bevy::utils::hashbrown::HashMap<(u8, u8), u64>,
}

/// What the map in a [`HandleTable`] holds.
pub uninterp spec fn handle_entries(t: HandleTable) -> Map<(u8, u8), u64>;

/// Calls `hashbrown::HashMap::default`, which makes a map without entries.
#[verifier::external_body]
pub(crate) fn handle_table_new() -> (t: HandleTable)
    ensures
        handle_entries(t).is_empty(),
{
    HandleTable { inner: bevy::utils::hashbrown::HashMap::default() }
}

/// Calls `hashbrown::HashMap::is_empty`, which says whether the map has no
/// entry.
#[verifier::external_body]
pub(crate) fn handle_table_is_empty(t: &HandleTable) -> (empty: bool)
    ensures
        empty == handle_entries(*t).is_empty(),
{
    t.inner.is_empty()
}

/// Calls `hashbrown::HashMap::get`, which finds the value stored under
/// `pos`, if there is one.
#[verifier::external_body]
pub(crate) fn handle_table_get<'a>(t: &'a HandleTable, pos: (u8, u8)) -> (found: Option<&'a u64>)
    ensures
        match found {
            Some(grid) => handle_entries(*t).contains_key(pos) && handle_entries(*t)[pos] == *grid,
            None => !handle_entries(*t).contains_key(pos),
        },
{
    t.inner.get(&pos)
}

/// Calls `hashbrown::HashMap::insert`, which stores `grid` under `pos`, in
/// place of what was there, and returns what was there.
#[verifier::external_body]
pub(crate) fn handle_table_insert(t: &mut HandleTable, pos: (u8, u8), grid: u64) -> (before: Option<
    u64,
>)
    ensures
        handle_entries(*final(t)) == handle_entries(*old(t)).insert(pos, grid),
        before == if handle_entries(*old(t)).contains_key(pos) {
            Some(handle_entries(*old(t))[pos])
        } else {
            None
        },
{
    t.inner.insert(pos, grid)
}

/// Calls `hashbrown::HashMap::remove`, which takes the entry under `pos`
/// out, if there is one, and returns its value.
#[verifier::external_body]
pub(crate) fn handle_table_remove(t: &mut HandleTable, pos: (u8, u8)) -> (before: Option<u64>)
    ensures
        handle_entries(*final(t)) == handle_entries(*old(t)).remove(pos),
        before == if handle_entries(*old(t)).contains_key(pos) {
            Some(handle_entries(*old(t))[pos])
        } else {
            None
        },
{
    t.inner.remove(&pos)
}

/// Calls `hashbrown::HashMap::clear`, which takes every entry out.
#[verifier::external_body]
pub(crate) fn handle_table_clear(t: &mut HandleTable)
    ensures
        handle_entries(*final(t)).is_empty(),
{
    t.inner.clear()
}

/// Calls `hashbrown::HashMap::iter`, which visits every entry once, in an
/// order that the map chooses, and copies the entries out in that order.
#[verifier::external_body]
pub(crate) fn handle_table_entries(t: &HandleTable) -> (all: Vec<((u8, u8), u64)>)
    ensures
        forall|i: int, j: int| 0 <= i < j < all@.len() ==> all@[i].0 != all@[j].0,
        forall|i: int|
            0 <= i < all@.len() ==> handle_entries(*t).contains_key(#[trigger] all@[i].0)
                && handle_entries(*t)[all@[i].0] == all@[i].1,
        forall|pos: (u8, u8)|
            handle_entries(*t).contains_key(pos) ==> exists|i: int|
                0 <= i < all@.len() && #[trigger] all@[i].0 == pos,
{
    t.inner.iter().map(|(pos, grid)| (*pos, *grid)).collect()
}

/// From a cell's position to the layer the cell is in: a
/// `hashbrown::HashMap<(u8, u8), u8>`.
#[verifier::external_body]
pub struct LayerTable {
    inner: bevy::utils::hashbrown::HashMap<(u8, u8), u8>,
}

/// What the map in a [`LayerTable`] holds.
pub uninterp spec fn layer_entries(t: LayerTable) -> Map<(u8, u8), u8>;

/// Calls `hashbrown::HashMap::default`, which makes a map without entries.
#[verifier::external_body]
pub(crate) fn layer_table_new() -> (t: LayerTable)
    ensures
        layer_entries(t).is_empty(),
{
    LayerTable { inner: bevy::utils::hashbrown::HashMap::default() }
}

/// Calls `hashbrown::HashMap::get`, which finds the value stored under
/// `pos`, if there is one.
#[verifier::external_body]
pub(crate) fn layer_table_get<'a>(t: &'a LayerTable, pos: (u8, u8)) -> (found: Option<&'a u8>)
    ensures
        match found {
            Some(layer) => layer_entries(*t).contains_key(pos) && layer_entries(*t)[pos] == *layer,
            None => !layer_entries(*t).contains_key(pos),
        },
{
    t.inner.get(&pos)
}

/// Calls `hashbrown::HashMap::insert`, which stores `layer` under `pos`, in
/// place of what was there, and returns what was there.
#[verifier::external_body]
pub(crate) fn layer_table_insert(t: &mut LayerTable, pos: (u8, u8), layer: u8) -> (before: Option<
    u8,
>)
    ensures
        layer_entries(*final(t)) == layer_entries(*old(t)).insert(pos, layer),
        before == if layer_entries(*old(t)).contains_key(pos) {
            Some(layer_entries(*old(t))[pos])
        } else {
            None
        },
{
    t.inner.insert(pos, layer)
}

/// Calls `hashbrown::HashMap::remove`, which takes the entry under `pos`
/// out, if there is one, and returns its value.
#[verifier::external_body]
pub(crate) fn layer_table_remove(t: &mut LayerTable, pos: (u8, u8)) -> (before: Option<u8>)
    ensures
        layer_entries(*final(t)) == layer_entries(*old(t)).remove(pos),
        before == if layer_entries(*old(t)).contains_key(pos) {
            Some(layer_entries(*old(t))[pos])
        } else {
            None
        },
{
    t.inner.remove(&pos)
}

/// Calls `hashbrown::HashMap::clear`, which takes every entry out.
#[verifier::external_body]
pub(crate) fn layer_table_clear(t: &mut LayerTable)
    ensures
        layer_entries(*final(t)).is_empty(),
{
    t.inner.clear()
}

/// From a layer to the positions of its cells, in the order in which they
/// joined it: a `hashbrown::HashMap<u8, Vec<(u8, u8)>>`.
#[verifier::external_body]
pub struct RegionTable {
    inner: bevy::utils::hashbrown::HashMap<u8, Vec<(u8, u8)>>,
}

/// What the map in a [`RegionTable`] holds: for each layer the cells of the
/// stored `Vec`, in its order.
pub uninterp spec fn region_entries(t: RegionTable) -> Map<u8, Seq<(u8, u8)>>;

/// Calls `hashbrown::HashMap::default`, which makes a map without entries.
#[verifier::external_body]
pub(crate) fn region_table_new() -> (t: RegionTable)
    ensures
        region_entries(t).is_empty(),
{
    RegionTable { inner: bevy::utils::hashbrown::HashMap::default() }
}

/// Calls `hashbrown::HashMap::get`, which finds the value stored under
/// `layer`, if there is one.
#[verifier::external_body]
pub(crate) fn region_table_get<'a>(t: &'a RegionTable, layer: u8) -> (found: Option<
    &'a Vec<(u8, u8)>,
>)
    ensures
        match found {
            Some(cells) => region_entries(*t).contains_key(layer) && region_entries(*t)[layer]
                == cells@,
            None => !region_entries(*t).contains_key(layer),
        },
{
    t.inner.get(&layer)
}

/// Calls `hashbrown::HashMap::insert`, which stores `cells` under `layer`,
/// in place of what was there, and returns what was there.
#[verifier::external_body]
pub(crate) fn region_table_insert(t: &mut RegionTable, layer: u8, cells: Vec<(u8, u8)>) -> (before:
    Option<Vec<(u8, u8)>>)
    ensures
        region_entries(*final(t)) == region_entries(*old(t)).insert(layer, cells@),
        match before {
            Some(cells_before) => region_entries(*old(t)).contains_key(layer) && region_entries(
                *old(t),
            )[layer] == cells_before@,
            None => !region_entries(*old(t)).contains_key(layer),
        },
{
    t.inner.insert(layer, cells)
}

/// Calls `hashbrown::HashMap::remove`, which takes the entry under `layer`
/// out, if there is one, and returns its value.
#[verifier::external_body]
pub(crate) fn region_table_remove(t: &mut RegionTable, layer: u8) -> (before: Option<Vec<(u8, u8)>>)
    ensures
        region_entries(*final(t)) == region_entries(*old(t)).remove(layer),
        match before {
            Some(cells_before) => region_entries(*old(t)).contains_key(layer) && region_entries(
                *old(t),
            )[layer] == cells_before@,
            None => !region_entries(*old(t)).contains_key(layer),
        },
{
    t.inner.remove(&layer)
}

/// Calls `hashbrown::HashMap::clear`, which takes every entry out.
#[verifier::external_body]
pub(crate) fn region_table_clear(t: &mut RegionTable)
    ensures
        region_entries(*final(t)).is_empty(),
{
    t.inner.clear()
}

} // verus!
