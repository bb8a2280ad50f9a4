//! Nodes: the storage units of the warehouse, laid out on a square spiral round the
//! origin.
//!
//! Node 0 stands two steps west of the origin. All other nodes stand on rings: ring `r`
//! is the border of the square that reaches `r` steps from the centre `(-2, 0)`, and the
//! nodes of a ring run down its east side, along its south side, up its west side and
//! back along its north side. One step on the grid is three blocks in the world.

use vstd::prelude::*;
use vstd::string::*;
use crate::chest::{
    chest_files, chest_place, compose, node_place, settled_chest, Chest,
};
use crate::position::{place_fits, Position};
use crate::repository::{has_json_extension, is_json_name, names_of, present};
use crate::sorting::{stable_sort, stable_sorted, turned_round};
use crate::text::{parse_i32, spec_parse_i32};

verus! {

/// How many blocks lie between neighbouring nodes.
pub const SPACING: i32 = 3;

/// How many node identifiers the rings up to `ring` take up, node 0 included.
pub open spec fn ring_capacity(ring: int) -> int {
    4 * ring * (ring + 1)
}

/// Whether `ring` is the ring of the node `id`: the first ring, counted from 1, that has
/// room for the identifier.
pub open spec fn is_ring_of(id: int, ring: int) -> bool {
    &&& ring >= 1
    &&& id + 1 <= ring_capacity(ring)
    &&& (ring == 1 || ring_capacity(ring - 1) < id + 1)
}

/// The first ring from `ring` on that has room for the node `id`.
pub open spec fn ring_search(id: int, ring: int) -> int
    decreases id - ring,
{
    if ring < 1 || id + 1 <= ring_capacity(ring) {
        ring
    } else {
        proof {
            assert(ring < id) by (nonlinear_arith)
                requires
                    ring >= 1,
                    4 * ring * (ring + 1) < id + 1,
            ;
        }
        ring_search(id, ring + 1)
    }
}

/// The ring of the node `id`.
pub open spec fn ring_of(id: int) -> int {
    ring_search(id, 1)
}

/// How far the node `id` is from the origin, in steps east and steps south.
pub open spec fn node_offset(id: int) -> (int, int) {
    if id == 0 {
        (-2, 0)
    } else {
        let ring = ring_of(id);
        let pos = id - ring_capacity(ring - 1);
        let side = 2 * ring;
        let quadrant = pos / side;
        if quadrant == 0 {
            (-2 + ring, -ring + pos)
        } else if quadrant == 1 {
            (-2 + ring - (pos - side), ring)
        } else if quadrant == 2 {
            (-2 - ring, ring - (pos - 2 * side))
        } else {
            (-2 - ring + (pos - 3 * side), -ring)
        }
    }
}

/// Where the node `id` stands when the warehouse has its origin at `origin`.
pub open spec fn node_place_of(id: int, origin: (int, int, int)) -> (int, int, int) {
    (origin.0 + node_offset(id).0 * SPACING, origin.1, origin.2 + node_offset(id).1 * SPACING)
}

/// The search for a ring ends at the ring of the node.
pub proof fn lemma_ring_search(id: int, ring: int)
    requires
        id >= 1,
        ring >= 1,
        ring == 1 || ring_capacity(ring - 1) < id + 1,
    ensures
        is_ring_of(id, ring_search(id, ring)),
    decreases id - ring,
{
    if id + 1 <= ring_capacity(ring) {
    } else {
        assert(ring < id) by (nonlinear_arith)
            requires
                ring >= 1,
                4 * ring * (ring + 1) < id + 1,
        ;
        lemma_ring_search(id, ring + 1);
    }
}

/// Every node but node 0 has a ring, and only one.
pub proof fn lemma_ring_of(id: int, ring: int)
    requires
        id >= 1,
    ensures
        is_ring_of(id, ring_of(id)),
        is_ring_of(id, ring) ==> ring == ring_of(id),
{
    lemma_ring_search(id, 1);
    let found = ring_of(id);
    if is_ring_of(id, ring) && ring != found {
        if ring < found {
            assert(ring_capacity(ring) <= ring_capacity(found - 1)) by (nonlinear_arith)
                requires
                    1 <= ring <= found - 1,
            ;
        } else {
            assert(ring_capacity(found) <= ring_capacity(ring - 1)) by (nonlinear_arith)
                requires
                    1 <= found <= ring - 1,
            ;
        }
    }
}

/// The ring of a node that an `i32` can name, and the node's place on it, are small.
pub proof fn lemma_ring_bounds(id: int)
    requires
        1 <= id <= i32::MAX,
    ensures
        1 <= ring_of(id) <= 23170,
        0 <= id - ring_capacity(ring_of(id) - 1) < 8 * ring_of(id),
        0 <= (id - ring_capacity(ring_of(id) - 1)) / (2 * ring_of(id)) <= 3,
{
    lemma_ring_of(id, 1);
    let ring = ring_of(id);
    assert(ring <= 23170) by (nonlinear_arith)
        requires
            ring >= 1,
            ring == 1 || 4 * (ring - 1) * ring < id + 1,
            id <= 0x7fff_ffff,
    ;
    let pos = id - ring_capacity(ring - 1);
    assert(0 <= pos < 8 * ring) by (nonlinear_arith)
        requires
            ring >= 1,
            pos == id - 4 * (ring - 1) * ring,
            id + 1 <= 4 * ring * (ring + 1),
            ring == 1 || 4 * (ring - 1) * ring < id + 1,
            id >= 1,
    ;
    assert(0 <= pos / (2 * ring) <= 3) by (nonlinear_arith)
        requires
            ring >= 1,
            0 <= pos < 8 * ring,
    ;
}

/// No node that an `i32` can name is further than 23172 steps from the origin.
pub proof fn lemma_offset_bounds(id: int)
    requires
        0 <= id <= i32::MAX,
    ensures
        -23172 <= node_offset(id).0 <= 23172,
        -23172 <= node_offset(id).1 <= 23172,
{
    if id > 0 {
        lemma_ring_bounds(id);
        let ring = ring_of(id);
        let pos = id - ring_capacity(ring - 1);
        let side = 2 * ring;
        let quadrant = pos / side;
        assert(quadrant * side <= pos < quadrant * side + side) by (nonlinear_arith)
            requires
                side > 0,
                pos >= 0,
                quadrant == pos / side,
        ;
        assert(quadrant * side == if quadrant == 0 {
            0
        } else if quadrant == 1 {
            side
        } else if quadrant == 2 {
            2 * side
        } else {
            3 * side
        }) by (nonlinear_arith)
            requires
                0 <= quadrant <= 3,
        ;
    }
}

/// A node and its four chests.
#[derive(Debug, PartialEq, Eq)]
pub struct Node {
    pub id: i32,
    pub position: Position,
    pub chests: Vec<Chest>,
}

/// Whether the node `id` of a warehouse at `origin`, and its four chests, can be held in
/// `i32` fields: their identifiers and every coordinate.
pub open spec fn node_fits(id: int, origin: (int, int, int)) -> bool {
    &&& 0 <= id
    &&& compose(id, 3) <= i32::MAX
    &&& place_fits(node_place_of(id, origin))
    &&& forall|index: int|
        0 <= index < 4 ==> place_fits(#[trigger] chest_place(node_place_of(id, origin), index))
}

impl Node {
    /// Whether this is the node `self.id` of a warehouse at `origin` as [`Node::new`]
    /// lays it out: it stands where the spiral puts it, and it has its four chests, in
    /// the order of their indices, each where it belongs.
    pub open spec fn laid_out(&self, origin: (int, int, int)) -> bool {
        &&& self.id >= 0
        &&& self.position.place() == node_place_of(self.id as int, origin)
        &&& self.chests@.len() == 4
        &&& forall|i: int|
            0 <= i < 4 ==> {
                &&& (#[trigger] self.chests[i]).wf()
                &&& self.chests[i].node_id == self.id
                &&& self.chests[i].index == i
                &&& self.chests[i].position.place() == chest_place(self.position.place(), i)
            }
    }

    /// How far the node `id` is from the origin, in steps east and steps south.
    pub fn offset(id: i32) -> (steps: (i64, i64))
        requires
            id >= 0,
        ensures
            (steps.0 as int, steps.1 as int) == node_offset(id as int),
            -23172 <= steps.0 <= 23172,
            -23172 <= steps.1 <= 23172,
    {
        proof {
            lemma_offset_bounds(id as int);
        }
        if id == 0 {
            (-2, 0)
        } else {
            let target: i64 = id as i64 + 1;
            let mut ring: i64 = 1;
            let mut capacity: i64 = 8;
            while capacity < target
                invariant
                    1 <= id,
                    target == id + 1,
                    1 <= ring <= 23170,
                    capacity == ring_capacity(ring as int),
                    ring_search(id as int, ring as int) == ring_of(id as int),
                decreases id - ring,
            {
                proof {
                    lemma_ring_bounds(id as int);
                    assert(ring < id) by (nonlinear_arith)
                        requires
                            ring >= 1,
                            4 * ring * (ring + 1) < id + 1,
                    ;
                    assert(ring + 1 <= 23170) by (nonlinear_arith)
                        requires
                            ring >= 1,
                            4 * ring * (ring + 1) < id + 1,
                            id <= 0x7fff_ffff,
                    ;
                    assert(4 * (ring + 1) * (ring + 2) <= 4 * 23170 * 23171) by (nonlinear_arith)
                        requires
                            1 <= ring + 1 <= 23170,
                    ;
                    assert((ring + 1) * (ring + 2) * 4 == 4 * (ring + 1) * (ring + 2))
                        by (nonlinear_arith);
                    assert(0 <= (ring + 1) * (ring + 2) <= 23170 * 23171) by (nonlinear_arith)
                        requires
                            1 <= ring + 1 <= 23170,
                    ;
                }
                ring = ring + 1;
                capacity = ring * (ring + 1) * 4;
            }
            proof {
                lemma_ring_bounds(id as int);
                assert(0 <= (ring - 1) * ring <= 23170 * 23170) by (nonlinear_arith)
                    requires
                        1 <= ring <= 23170,
                ;
                assert((ring - 1) * ring * 4 == ring_capacity(ring - 1)) by (nonlinear_arith);
            }
            let pos: i64 = id as i64 - (ring - 1) * ring * 4;
            let side: i64 = 2 * ring;
            let quadrant: i64 = pos / side;
            if quadrant == 0 {
                (-2 + ring, -ring + pos)
            } else if quadrant == 1 {
                (-2 + ring - (pos - side), ring)
            } else if quadrant == 2 {
                (-2 - ring, ring - (pos - 2 * side))
            } else {
                (-2 - ring + (pos - 3 * side), -ring)
            }
        }
    }

    /// Whether the node `id` has a place in a warehouse whose origin is
    /// `storage_position`: whether its identifier is not negative and its position can be
    /// held in `i32` coordinates.
    pub fn stands(id: i32, storage_position: &Position) -> (ok: bool)
        ensures
            ok == (id >= 0 && place_fits(node_place_of(id as int, storage_position.place()))),
    {
        if id < 0 {
            return false;
        }
        let (dx, dz) = Node::offset(id);
        let x = storage_position.x as i64 + dx * (SPACING as i64);
        let z = storage_position.z as i64 + dz * (SPACING as i64);
        -2147483648 <= x && x <= 2147483647 && -2147483648 <= z && z <= 2147483647
    }

    /// Whether the node `id` and its four chests can be made in a warehouse whose origin
    /// is `storage_position`: see [`node_fits`].
    pub fn fits(id: i32, storage_position: &Position) -> (ok: bool)
        ensures
            ok == node_fits(id as int, storage_position.place()),
    {
        if id < 0 || id > 536870911 {
            return false;
        }
        if !Node::stands(id, storage_position) {
            return false;
        }
        let at = Node::calc_position(id, storage_position);
        let ok = at.y < 2147483647 && at.z > -2147483648;
        proof {
            let place = node_place_of(id as int, storage_position.place());
            if ok {
                assert forall|index: int| 0 <= index < 4 implies place_fits(
                    #[trigger] chest_place(place, index),
                ) by {}
            } else {
                assert(!place_fits(chest_place(place, 0)));
            }
        }
        ok
    }

    /// Where the node `id` stands in a warehouse whose origin is `storage_position`.
    pub fn calc_position(id: i32, storage_position: &Position) -> (p: Position)
        requires
            id >= 0,
            place_fits(node_place_of(id as int, storage_position.place())),
        ensures
            p.place() == node_place_of(id as int, storage_position.place()),
    {
        let (dx, dz) = Node::offset(id);
        Position {
            x: (storage_position.x as i64 + dx * (SPACING as i64)) as i32,
            y: storage_position.y,
            z: (storage_position.z as i64 + dz * (SPACING as i64)) as i32,
        }
    }

    /// The node `node_id` of a warehouse whose origin is `storage_position`, with four
    /// empty chests round it.
    pub fn new(node_id: i32, storage_position: &Position) -> (node: Node)
        requires
            node_fits(node_id as int, storage_position.place()),
        ensures
            node.id == node_id,
            node.laid_out(storage_position.place()),
            forall|i: int|
                0 <= i < 4 ==> (#[trigger] node.chests[i]).item@ == Seq::<char>::empty()
                    && node.chests[i].amounts@ == Seq::new(54, |k: int| 0i32),
    {
        let position = Node::calc_position(node_id, storage_position);
        let mut chests: Vec<Chest> = Vec::new();
        let mut index: i32 = 0;
        while index < 4
            invariant
                0 <= index <= 4,
                node_fits(node_id as int, storage_position.place()),
                position.place() == node_place_of(node_id as int, storage_position.place()),
                chests@.len() == index,
                forall|i: int|
                    0 <= i < index ==> {
                        &&& (#[trigger] chests[i]).wf()
                        &&& chests[i].node_id == node_id
                        &&& chests[i].index == i
                        &&& chests[i].position.place() == chest_place(position.place(), i)
                        &&& chests[i].item@ == Seq::<char>::empty()
                        &&& chests[i].amounts@ == Seq::new(54, |k: int| 0i32)
                    },
            decreases 4 - index,
        {
            assert(place_fits(chest_place(position.place(), index as int)));
            let chest = Chest::new(node_id, &position, index);
            chests.push(chest);
            index = index + 1;
        }
        Node { id: node_id, position, chests }
    }
}

/// Node 0 stands two steps west of the origin, the nodes 1 to 7 stand on ring 1, and
/// the nodes 8 to 23 on ring 2.
pub proof fn lemma_first_rings(id: int)
    requires
        0 <= id <= 23,
    ensures
        id == 0 ==> node_offset(id) == (-2int, 0int),
        1 <= id <= 7 ==> ring_of(id) == 1,
        8 <= id <= 23 ==> ring_of(id) == 2,
{
    if 1 <= id <= 7 {
        assert(is_ring_of(id, 1));
        lemma_ring_of(id, 1);
    } else if id >= 8 {
        assert(is_ring_of(id, 2));
        lemma_ring_of(id, 2);
    }
}

/// The index of the chest that a file of the name `name` keeps: the number before
/// `.json`, and `None` for every other name.
pub open spec fn chest_index_of(name: Seq<char>) -> Option<i32> {
    if is_json_name(name) {
        spec_parse_i32(name.subrange(0, name.len() - 5))
    } else {
        None
    }
}

impl Node {
    /// The index of the chest that a file of the name `name` keeps.
    pub fn chest_index(name: &str) -> (index: Option<i32>)
        ensures
            index == chest_index_of(name@),
    {
        if !has_json_extension(name) {
            return None;
        }
        let n = name.unicode_len();
        parse_i32(name.substring_char(0, n - 5))
    }

    /// The chests that a load reads from the node's directory, which holds the files
    /// `listing`: their indices, in the order of the listing.
    pub fn chest_indices(listing: &Vec<String>) -> (indices: Vec<i32>)
        ensures
            indices@ == present(names_of(listing@).map_values(|n: Seq<char>| chest_index_of(n))),
    {
        let ghost read = names_of(listing@).map_values(|n: Seq<char>| chest_index_of(n));
        let mut indices: Vec<i32> = Vec::new();
        let mut i: usize = 0;
        assert(read.take(0) =~= Seq::<Option<i32>>::empty());
        while i < listing.len()
            invariant
                i <= listing.len(),
                read == names_of(listing@).map_values(|n: Seq<char>| chest_index_of(n)),
                indices@ == present(read.take(i as int)),
            decreases listing.len() - i,
        {
            proof {
                assert(read.take(i as int + 1).drop_last() =~= read.take(i as int));
                assert(read.take(i as int + 1).last() == chest_index_of(listing[i as int]@));
            }
            match Node::chest_index(listing[i].as_str()) {
                Some(index) => {
                    indices.push(index);
                },
                None => {},
            }
            i = i + 1;
        }
        assert(read.take(i as int) =~= read);
        indices
    }

    /// Whether the chests of this node are its own and in order: each has one of the four
    /// indices and the node, the identifier and the position that this node and the index
    /// give, and the indices go up from chest to chest.
    pub open spec fn settled_in(&self) -> bool {
        &&& forall|i: int|
            0 <= i < self.chests@.len() ==> (#[trigger] self.chests[i]).belongs_to(
                self.id as int,
                self.position.place(),
            )
        &&& forall|i: int, j: int|
            0 <= i < j < self.chests@.len() ==> self.chests[i].index < self.chests[j].index
    }

    /// Makes the node `id` of the chests that a load read from its directory. The node
    /// stands where the spiral puts it, and its chests are its own, whatever the files
    /// say: chests are put in the order of their indices, a chest whose index is none of
    /// the four is left out, of several chests with one index the first that was read
    /// stays, and every chest gets the node, the identifier and the position that the
    /// node and its index give. What the chests keep is as it was read.
    pub fn load(id: i32, storage_position: &Position, chests: Vec<Chest>) -> (node: Node)
        requires
            node_fits(id as int, storage_position.place()),
        ensures
            node.id == id,
            node.position.place() == node_place_of(id as int, storage_position.place()),
            node.chests@ == settled(stable_sorted(chests@), id as int, node.position.place()),
            node.settled_in(),
            node.chests@.len() <= 4,
    {
        let position = Node::calc_position(id, storage_position);
        let sorted = stable_sort(chests);
        let ghost given = sorted@;
        let ghost place = position.place();
        let mut taken = turned_round(sorted);
        let mut kept: Vec<Chest> = Vec::new();
        let ghost mut done: int = 0;
        assert(given.take(0) =~= Seq::<Chest>::empty());
        while taken.len() > 0
            invariant
                node_fits(id as int, storage_position.place()),
                place == position.place(),
                place == node_place_of(id as int, storage_position.place()),
                0 <= done <= given.len(),
                taken@.len() == given.len() - done,
                forall|i: int|
                    0 <= i < taken@.len() ==> #[trigger] taken@[i] == given[given.len() - 1 - i],
                kept@ == settled(given.take(done), id as int, place),
            decreases taken.len(),
        {
            let next = taken.pop().unwrap();
            proof {
                assert(next == given[done]);
                assert(given.take(done + 1).drop_last() =~= given.take(done));
                assert(given.take(done + 1).last() == given[done]);
            }
            let fresh = kept.len() == 0 || kept[kept.len() - 1].index < next.index;
            if 0 <= next.index && next.index < 4 && fresh {
                assert(place_fits(chest_place(place, next.index as int)));
                kept.push(next.settle(id, &position));
            }
            proof {
                done = done + 1;
            }
        }
        proof {
            assert(given.take(done) =~= given);
            lemma_settled(given, id as int, place);
        }
        Node { id, position, chests: kept }
    }
}

/// The chests of the node `id` at `node` that a load makes of the chests `sorted`, which
/// are in the order of their indices: see [`Node::load`].
pub open spec fn settled(sorted: Seq<Chest>, id: int, node: (int, int, int)) -> Seq<Chest>
    decreases sorted.len(),
{
    if sorted.len() == 0 {
        Seq::<Chest>::empty()
    } else {
        let before = settled(sorted.drop_last(), id, node);
        let chest = sorted.last();
        if 0 <= chest.index < 4 && (before.len() == 0 || before.last().index < chest.index) {
            before.push(settled_chest(chest, id, node))
        } else {
            before
        }
    }
}

/// What a load makes of the chests it read are chests of the node, in the order of their
/// indices, no index twice; and each keeps what a chest that was read with its index
/// kept.
pub proof fn lemma_settled(sorted: Seq<Chest>, id: int, node: (int, int, int))
    requires
        0 <= id,
        compose(id, 3) <= i32::MAX,
        forall|index: int| 0 <= index < 4 ==> place_fits(#[trigger] chest_place(node, index)),
    ensures
        forall|i: int|
            0 <= i < settled(sorted, id, node).len() ==> (#[trigger] settled(
                sorted,
                id,
                node,
            )[i]).belongs_to(id, node),
        forall|i: int, j: int|
            0 <= i < j < settled(sorted, id, node).len() ==> settled(sorted, id, node)[i].index
                < settled(sorted, id, node)[j].index,
        forall|i: int|
            0 <= i < settled(sorted, id, node).len() ==> exists|k: int|
                0 <= k < sorted.len() && #[trigger] settled(sorted, id, node)[i] == settled_chest(
                    sorted[k],
                    id,
                    node,
                ),
        settled(sorted, id, node).len() <= 4,
    decreases sorted.len(),
{
    let all = settled(sorted, id, node);
    if sorted.len() > 0 {
        let front = sorted.drop_last();
        let before = settled(front, id, node);
        lemma_settled(front, id, node);
        let chest = sorted.last();
        if 0 <= chest.index < 4 && (before.len() == 0 || before.last().index < chest.index) {
            let made = settled_chest(chest, id, node);
            assert(place_fits(chest_place(node, chest.index as int)));
            assert(made.belongs_to(id, node));
            assert forall|i: int| 0 <= i < all.len() implies (#[trigger] all[i]).belongs_to(
                id,
                node,
            ) by {
                if i < before.len() {
                    assert(all[i] == before[i]);
                }
            }
            assert forall|i: int, j: int| 0 <= i < j < all.len() implies all[i].index
                < all[j].index by {
                if j < before.len() {
                    assert(all[i] == before[i] && all[j] == before[j]);
                } else {
                    assert(all[j] == made);
                    if i < before.len() - 1 {
                        assert(before[i].index < before[before.len() - 1].index);
                    }
                    assert(all[i] == before[i]);
                }
            }
            assert forall|i: int| 0 <= i < all.len() implies exists|k: int|
                0 <= k < sorted.len() && #[trigger] all[i] == settled_chest(sorted[k], id, node) by {
                if i < before.len() {
                    let k = choose|k: int|
                        0 <= k < front.len() && before[i] == settled_chest(front[k], id, node);
                    assert(front[k] == sorted[k]);
                    assert(all[i] == settled_chest(sorted[k], id, node));
                } else {
                    assert(all[i] == settled_chest(sorted[sorted.len() - 1], id, node));
                }
            }
            assert(all.len() <= 4) by {
                if all.len() > 4 {
                    assert(all[0].index < all[1].index < all[2].index < all[3].index
                        < all[4].index);
                    assert(all[0].belongs_to(id, node));
                    assert(all[4].belongs_to(id, node));
                }
            }
        } else {
            assert forall|i: int| 0 <= i < all.len() implies exists|k: int|
                0 <= k < sorted.len() && #[trigger] all[i] == settled_chest(sorted[k], id, node) by {
                let k = choose|k: int|
                    0 <= k < front.len() && before[i] == settled_chest(front[k], id, node);
                assert(front[k] == sorted[k]);
            }
        }
    }
}

impl Node {
    /// The files that saving this node writes: one per chest.
    pub fn save(&self) -> (paths: Vec<String>)
        ensures
            names_of(paths@) == chest_files(self.chests@),
    {
        Chest::save_each(&self.chests)
    }
}

/// Every chest of a node whose chests are its own leads back to where the node stands.
pub proof fn lemma_settled_chests_lead_back(node: Node, i: int)
    requires
        node.settled_in(),
        0 <= i < node.chests@.len(),
    ensures
        node.chests[i].node_id == node.id,
        node_place(node.chests[i].position.place(), node.chests[i].index as int)
            == node.position.place(),
{
    assert(node.chests[i].belongs_to(node.id as int, node.position.place()));
}

/// Every chest of a node that is laid out leads back to where the node stands.
pub proof fn lemma_chests_lead_back(node: Node, origin: (int, int, int), i: int)
    requires
        node.laid_out(origin),
        0 <= i < 4,
    ensures
        node_place(node.chests[i].position.place(), node.chests[i].index as int)
            == node.position.place(),
        node.position.place() == node_place_of(node.id as int, origin),
{
    assert(node.chests[i].wf());
}

/// The ring on which a node stands that is `offset` steps from the origin: how far the
/// node is from the centre of the rings, along the further of the two axes. The centre
/// itself, where node 0 stands, has ring 0.
pub open spec fn ring_at(offset: (int, int)) -> int {
    let east = if offset.0 + 2 >= 0 {
        offset.0 + 2
    } else {
        -(offset.0 + 2)
    };
    let south = if offset.1 >= 0 {
        offset.1
    } else {
        -offset.1
    };
    if east >= south {
        east
    } else {
        south
    }
}

/// The node that stands `offset` steps from the origin: the way back from
/// [`node_offset`].
pub open spec fn node_at(offset: (int, int)) -> int {
    let ring = ring_at(offset);
    let east = offset.0 + 2;
    let south = offset.1;
    if ring == 0 {
        0
    } else if east == ring && south < ring {
        ring_capacity(ring - 1) + (south + ring)
    } else if south == ring && east > -ring {
        ring_capacity(ring - 1) + 2 * ring + (ring - east)
    } else if east == -ring && south > -ring {
        ring_capacity(ring - 1) + 4 * ring + (ring - south)
    } else {
        ring_capacity(ring - 1) + 6 * ring + (east + ring)
    }
}

/// Where on its ring a node stands: its place on the ring counts from 0 to less than
/// eight times the ring, and the side of the ring is the place divided by twice the
/// ring.
pub proof fn lemma_place_on_ring(id: int)
    requires
        id >= 1,
    ensures
        ring_of(id) >= 1,
        0 <= id - ring_capacity(ring_of(id) - 1) < 8 * ring_of(id),
        ({
            let ring = ring_of(id);
            let pos = id - ring_capacity(ring - 1);
            let quadrant = pos / (2 * ring);
            0 <= quadrant <= 3 && quadrant * (2 * ring) <= pos < quadrant * (2 * ring) + 2 * ring
        }),
{
    lemma_ring_of(id, 1);
    let ring = ring_of(id);
    let pos = id - ring_capacity(ring - 1);
    assert(0 <= pos < 8 * ring) by (nonlinear_arith)
        requires
            ring >= 1,
            pos == id - 4 * (ring - 1) * ring,
            id + 1 <= 4 * ring * (ring + 1),
            ring == 1 || 4 * (ring - 1) * ring < id + 1,
            id >= 1,
    ;
    let side = 2 * ring;
    let quadrant = pos / side;
    assert(0 <= quadrant <= 3 && quadrant * side <= pos < quadrant * side + side)
        by (nonlinear_arith)
        requires
            side == 2 * ring,
            ring >= 1,
            0 <= pos < 8 * ring,
            quadrant == pos / side,
    ;
}

/// The node is found again from where it stands.
pub proof fn lemma_node_at(id: int)
    requires
        id >= 0,
    ensures
        node_at(node_offset(id)) == id,
        id >= 1 ==> ring_at(node_offset(id)) == ring_of(id),
{
    if id >= 1 {
        lemma_place_on_ring(id);
        let ring = ring_of(id);
        let pos = id - ring_capacity(ring - 1);
        let side = 2 * ring;
        let quadrant = pos / side;
        assert(quadrant * side == if quadrant == 0 {
            0
        } else if quadrant == 1 {
            side
        } else if quadrant == 2 {
            2 * side
        } else {
            3 * side
        }) by (nonlinear_arith)
            requires
                0 <= quadrant <= 3,
        ;
    }
}

/// No two nodes stand at one place.
pub proof fn lemma_nodes_stand_apart(a: int, b: int, origin: (int, int, int))
    requires
        a >= 0,
        b >= 0,
        a != b,
    ensures
        node_offset(a) != node_offset(b),
        node_place_of(a, origin) != node_place_of(b, origin),
{
    lemma_node_at(a);
    lemma_node_at(b);
    let from_a = node_offset(a);
    let from_b = node_offset(b);
    if node_place_of(a, origin) == node_place_of(b, origin) {
        assert(from_a.0 * SPACING == from_b.0 * SPACING);
        assert(from_a.1 * SPACING == from_b.1 * SPACING);
        assert(from_a.0 == from_b.0);
        assert(from_a.1 == from_b.1);
    }
}

} // verus!
