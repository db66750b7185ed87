//! The in-memory relational model the two engines read and enrich: stop
//! points with their coordinates and owning contributor, the tables of
//! entity identifiers external codes can target, the transfer table and the
//! object-code table.

use vstd::prelude::*;
use crate::kv::{kv_map, kv_unique, kv_has};

verus! {

/// A geographic position in integer microdegrees (degrees scaled by
/// 1_000_000), so that the verified engine never holds a floating-point
/// value; callers convert decimal degrees by scaling.
#[derive(Clone, Copy, PartialEq, Eq, Structural, Debug)]
pub struct Coord {
    pub lat_udeg: i64,
    pub lon_udeg: i64,
}

/// One boardable location, owned by a contributor (the data source it came
/// from) and attached to a stop area.
#[derive(Clone, Debug, PartialEq, Eq)]
pub struct StopPoint {
    pub id: String,
    pub coord: Coord,
    pub contributor_id: String,
    pub stop_area_id: String,
}

/// A directed, timed walking connection between two stop points.
#[derive(Clone, Debug, PartialEq, Eq)]
pub struct Transfer {
    pub from_id: String,
    pub to_id: String,
    /// Total duration in seconds, waiting overhead included.
    pub transfer_time: u32,
    /// The pure walking part of the duration, when it was computed
    /// geometrically; `None` for transfers forced by a rule.
    pub walking_time: Option<u32>,
    /// Straight-line distance in meters the duration was derived from,
    /// when known; `None` for transfers forced by a rule.
    pub distance_m: Option<u64>,
}

/// The closed set of entity kinds an external code can be attached to.
#[derive(Clone, Copy, PartialEq, Eq, Structural, Debug)]
pub enum ObjectType {
    StopPoint,
    StopArea,
    Line,
    Route,
}

/// An external-code association: `object_id` of kind `object_type` carries,
/// under the namespace `code_key`, the value `code_value`.
#[derive(Clone, Debug, PartialEq, Eq)]
pub struct ObjectCode {
    pub object_type: ObjectType,
    pub object_id: String,
    pub code_key: String,
    pub code_value: String,
}

/// The shared relational model. Stop points, stop areas, lines and routes
/// are loaded by the caller and read-only to the engines; the transfer and
/// object-code tables are the two tables the engines populate.
pub struct Model {
    pub stop_points: Vec<StopPoint>,
    pub stop_areas: Vec<String>,
    pub lines: Vec<String>,
    pub routes: Vec<String>,
    pub transfers: Vec<Transfer>,
    pub object_codes: Vec<ObjectCode>,
}

/// Mathematical value of a transfer apart from its key.
pub ghost struct EdgeV {
    pub transfer_time: u32,
    pub walking_time: Option<u32>,
    pub distance_m: Option<u64>,
}

pub open spec fn transfer_key(t: Transfer) -> (Seq<char>, Seq<char>) {
    (t.from_id@, t.to_id@)
}

pub open spec fn transfer_edge(t: Transfer) -> EdgeV {
    EdgeV {
        transfer_time: t.transfer_time,
        walking_time: t.walking_time,
        distance_m: t.distance_m,
    }
}

pub open spec fn transfer_entries(s: Seq<Transfer>) -> Seq<((Seq<char>, Seq<char>), EdgeV)> {
    s.map_values(|t: Transfer| (transfer_key(t), transfer_edge(t)))
}

/// The transfer table as a map from ordered stop-point pair to edge value.
pub open spec fn transfer_map(s: Seq<Transfer>) -> Map<(Seq<char>, Seq<char>), EdgeV> {
    kv_map(transfer_entries(s))
}

pub open spec fn transfers_unique(s: Seq<Transfer>) -> bool {
    kv_unique(transfer_entries(s))
}

pub open spec fn code_key3(c: ObjectCode) -> (ObjectType, Seq<char>, Seq<char>) {
    (c.object_type, c.object_id@, c.code_key@)
}

pub open spec fn code_entries(s: Seq<ObjectCode>) -> Seq<((ObjectType, Seq<char>, Seq<char>), Seq<char>)> {
    s.map_values(|c: ObjectCode| (code_key3(c), c.code_value@))
}

/// The object-code table as a map from `(object_type, object_id, code_key)`
/// to the single value that triple carries.
pub open spec fn code_map(s: Seq<ObjectCode>) -> Map<(ObjectType, Seq<char>, Seq<char>), Seq<char>> {
    kv_map(code_entries(s))
}

pub open spec fn codes_unique(s: Seq<ObjectCode>) -> bool {
    kv_unique(code_entries(s))
}

/// A stop point with this identifier exists.
pub open spec fn has_stop(sps: Seq<StopPoint>, id: Seq<char>) -> bool {
    exists|i: int| 0 <= i < sps.len() && sps[i].id@ == id
}

/// An identifier occurs in a plain identifier table.
pub open spec fn has_id(ids: Seq<String>, id: Seq<char>) -> bool {
    exists|i: int| 0 <= i < ids.len() && ids[i]@ == id
}

impl Model {
    /// Well-formedness: stop-point identifiers are unique, the transfer
    /// table holds at most one edge per ordered pair, and an object-code
    /// triple maps to at most one value.
    pub open spec fn wf(self) -> bool {
        &&& forall|i: int, j: int|
            0 <= i < j < self.stop_points@.len() ==> self.stop_points@[i].id@ != self.stop_points@[j].id@
        &&& transfers_unique(self.transfers@)
        &&& codes_unique(self.object_codes@)
    }

    /// The tables the engines never write.
    pub open spec fn same_base(self, other: Model) -> bool {
        &&& self.stop_points == other.stop_points
        &&& self.stop_areas == other.stop_areas
        &&& self.lines == other.lines
        &&& self.routes == other.routes
    }
}

/// Index of the transfer with the given ordered pair, if any.
pub fn find_transfer(transfers: &Vec<Transfer>, from_id: &String, to_id: &String) -> (r: Option<usize>)
    ensures
        match r {
            Some(i) => i < transfers@.len() && transfers@[i as int].from_id@ == from_id@
                && transfers@[i as int].to_id@ == to_id@,
            None => !kv_has(transfer_entries(transfers@), (from_id@, to_id@)),
        },
{
    let n: usize = transfers.len();
    let mut i: usize = 0;
    while i < n
        invariant
            n == transfers@.len(),
            i <= n,
            forall|j: int| 0 <= j < i ==> transfer_entries(transfers@)[j].0 != (from_id@, to_id@),
        decreases n - i,
    {
        if transfers[i].from_id == *from_id && transfers[i].to_id == *to_id {
            return Some(i);
        }
        assert(transfer_entries(transfers@)[i as int].0 != (from_id@, to_id@));
        i = i + 1;
    }
    None
}

/// Index of the object code with the given triple, if any.
pub fn find_code(codes: &Vec<ObjectCode>, typ: ObjectType, object_id: &String, code_key: &String) -> (r: Option<usize>)
    ensures
        match r {
            Some(i) => i < codes@.len() && codes@[i as int].object_type == typ
                && codes@[i as int].object_id@ == object_id@
                && codes@[i as int].code_key@ == code_key@,
            None => !kv_has(code_entries(codes@), (typ, object_id@, code_key@)),
        },
{
    let n: usize = codes.len();
    let mut i: usize = 0;
    while i < n
        invariant
            n == codes@.len(),
            i <= n,
            forall|j: int| 0 <= j < i ==> code_entries(codes@)[j].0 != (typ, object_id@, code_key@),
        decreases n - i,
    {
        if codes[i].object_type == typ && codes[i].object_id == *object_id
            && codes[i].code_key == *code_key {
            return Some(i);
        }
        assert(code_entries(codes@)[i as int].0 != (typ, object_id@, code_key@));
        i = i + 1;
    }
    None
}

/// Whether a stop point with this identifier exists in the model.
pub fn stop_exists(stop_points: &Vec<StopPoint>, id: &String) -> (r: bool)
    ensures
        r == has_stop(stop_points@, id@),
{
    let n: usize = stop_points.len();
    let mut i: usize = 0;
    while i < n
        invariant
            n == stop_points@.len(),
            i <= n,
            forall|j: int| 0 <= j < i ==> stop_points@[j].id@ != id@,
        decreases n - i,
    {
        if stop_points[i].id == *id {
            return true;
        }
        i = i + 1;
    }
    false
}

/// Whether an identifier occurs in a plain identifier table.
pub fn id_exists(ids: &Vec<String>, id: &String) -> (r: bool)
    ensures
        r == has_id(ids@, id@),
{
    let n: usize = ids.len();
    let mut i: usize = 0;
    while i < n
        invariant
            n == ids@.len(),
            i <= n,
            forall|j: int| 0 <= j < i ==> ids@[j]@ != id@,
        decreases n - i,
    {
        if ids[i] == *id {
            return true;
        }
        i = i + 1;
    }
    false
}

} // verus!
