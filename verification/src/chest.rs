//! Chests: the containers of the warehouse, four to a node.

use vstd::prelude::*;
use vstd::string::*;
use crate::position::{place_fits, Position};
use crate::sorting::SortKey;
use crate::text::{decimal_text, format_i64};

verus! {

/// How many slots a chest has.
pub const SLOTS_PER_CHEST: usize = 54;

/// One container. Its identifier and its place follow from the node and the index, and
/// are never taken from anywhere else.
#[derive(Debug, PartialEq, Eq)]
pub struct Chest {
    pub id: i32,
    pub node_id: i32,
    /// Which of the node's four chests this is: 0 to 3.
    pub index: i32,
    pub position: Position,
    /// The item kept here; empty for a chest that holds nothing yet.
    pub item: String,
    /// How many items each slot holds.
    pub amounts: Vec<i32>,
}

/// The identifier of the chest `index` of the node `node_id`.
pub open spec fn compose(node_id: int, index: int) -> int {
    node_id * 4 + index
}

/// The node and the index of the chest `chest_id`.
pub open spec fn decompose(chest_id: int) -> (int, int) {
    (chest_id / 4, chest_id % 4)
}

/// Where the chest `index` of a node at `(x, y, z)` stands. The four chests stand at the
/// node's `x`: chests 0 and 1 a level above the node and chests 2 and 3 on its level,
/// chests 0 and 2 one step north of the node and chests 1 and 3 at its `z`.
pub open spec fn chest_place(node: (int, int, int), index: int) -> (int, int, int) {
    (
        node.0,
        node.1 + (if index == 0 || index == 1 {
            1int
        } else {
            0int
        }),
        node.2 - (if index == 0 || index == 2 {
            1int
        } else {
            0int
        }),
    )
}

/// Where the node of a chest stands that is the node's chest `index` at `(x, y, z)`.
pub open spec fn node_place(chest: (int, int, int), index: int) -> (int, int, int) {
    (
        chest.0,
        chest.1 - (if index == 0 || index == 1 {
            1int
        } else {
            0int
        }),
        chest.2 + (if index == 0 || index == 2 {
            1int
        } else {
            0int
        }),
    )
}

impl Chest {
    /// What holds of every chest that [`Chest::new`] made: an index from 0 to 3, the
    /// identifier that node and index give, and 54 slots.
    pub open spec fn wf(&self) -> bool {
        &&& 0 <= self.index < 4
        &&& self.id == compose(self.node_id as int, self.index as int)
        &&& self.amounts@.len() == 54
    }

    /// Where the chest `index` of a node at `node_position` stands.
    pub fn place_at(node_position: &Position, index: i32) -> (p: Position)
        requires
            0 <= index < 4,
            place_fits(chest_place(node_position.place(), index as int)),
        ensures
            p.place() == chest_place(node_position.place(), index as int),
    {
        let up: i32 = if index == 0 || index == 1 {
            1
        } else {
            0
        };
        let north: i32 = if index == 0 || index == 2 {
            1
        } else {
            0
        };
        Position { x: node_position.x, y: node_position.y + up, z: node_position.z - north }
    }

    /// Whether this is a chest of the node `node_id` at `node`: whether its index is one
    /// of the four, and its node, its identifier and its position are what the node and
    /// the index give.
    pub open spec fn belongs_to(&self, node_id: int, node: (int, int, int)) -> bool {
        &&& 0 <= self.index < 4
        &&& self.node_id == node_id
        &&& self.id == compose(node_id, self.index as int)
        &&& self.position.place() == chest_place(node, self.index as int)
    }

    /// This chest as the chest of its index of the node `node_id` at `node_position`:
    /// see [`settled_chest`].
    pub fn settle(self, node_id: i32, node_position: &Position) -> (chest: Chest)
        requires
            0 <= self.index < 4,
            i32::MIN <= compose(node_id as int, self.index as int) <= i32::MAX,
            place_fits(chest_place(node_position.place(), self.index as int)),
        ensures
            chest == settled_chest(self, node_id as int, node_position.place()),
            chest.belongs_to(node_id as int, node_position.place()),
    {
        let position = Chest::place_at(node_position, self.index);
        let mut chest = self;
        chest.id = node_id * 4 + chest.index;
        chest.node_id = node_id;
        chest.position = position;
        chest
    }

    /// The empty chest `index` of the node `node_id`, which stands at `node_position`.
    pub fn new(node_id: i32, node_position: &Position, index: i32) -> (chest: Chest)
        requires
            0 <= index < 4,
            i32::MIN <= compose(node_id as int, index as int) <= i32::MAX,
            place_fits(chest_place(node_position.place(), index as int)),
        ensures
            chest.wf(),
            chest.id == compose(node_id as int, index as int),
            chest.node_id == node_id,
            chest.index == index,
            chest.position.place() == chest_place(node_position.place(), index as int),
            chest.item@ == Seq::<char>::empty(),
            chest.amounts@ == Seq::new(54, |i: int| 0i32),
    {
        let id = node_id * 4 + index;
        let position = Chest::place_at(node_position, index);
        let mut amounts: Vec<i32> = Vec::new();
        let mut slot: usize = 0;
        while slot < SLOTS_PER_CHEST
            invariant
                slot <= SLOTS_PER_CHEST,
                amounts@ == Seq::new(slot as nat, |i: int| 0i32),
            decreases SLOTS_PER_CHEST - slot,
        {
            amounts.push(0);
            slot = slot + 1;
            assert(amounts@ =~= Seq::new(slot as nat, |i: int| 0i32));
        }
        Chest { id, node_id, index, position, item: String::new(), amounts }
    }

    /// Where the node of this chest stands.
    pub fn node_position(&self) -> (p: Position)
        requires
            0 <= self.index < 4,
            place_fits(node_place(self.position.place(), self.index as int)),
        ensures
            p.place() == node_place(self.position.place(), self.index as int),
    {
        let up: i32 = if self.index == 0 || self.index == 1 {
            1
        } else {
            0
        };
        let north: i32 = if self.index == 0 || self.index == 2 {
            1
        } else {
            0
        };
        Position { x: self.position.x, y: self.position.y - up, z: self.position.z + north }
    }

    /// The node and the index that the chest identifier `id` stands for.
    pub fn locate(id: i32) -> (r: (i32, i32))
        requires
            id >= 0,
        ensures
            (r.0 as int, r.1 as int) == decompose(id as int),
            0 <= r.1 < 4,
            compose(r.0 as int, r.1 as int) == id,
    {
        (id / 4, id % 4)
    }
}

/// Taking a chest identifier apart gives back the node and the index it was made of.
pub proof fn lemma_compose_round_trip(node_id: int, index: int)
    requires
        node_id >= 0,
        0 <= index < 4,
    ensures
        decompose(compose(node_id, index)) == (node_id, index),
{
}

/// Putting together what a chest identifier was taken apart into gives back the
/// identifier.
pub proof fn lemma_decompose_round_trip(chest_id: int)
    requires
        chest_id >= 0,
    ensures
        compose(decompose(chest_id).0, decompose(chest_id).1) == chest_id,
        0 <= decompose(chest_id).1 < 4,
        decompose(chest_id).0 >= 0,
{
}

/// The place of a node is found again from the place of any of its chests.
pub proof fn lemma_node_place_round_trip(node: (int, int, int), index: int)
    ensures
        node_place(chest_place(node, index), index) == node,
{
}

/// The chest `chest` as the chest of its index of the node `node_id` at `node`: what it
/// keeps is what `chest` keeps, and its node, its identifier and its position are what
/// the node and the index give, whatever `chest` said of them.
pub open spec fn settled_chest(chest: Chest, node_id: int, node: (int, int, int)) -> Chest {
    let place = chest_place(node, chest.index as int);
    Chest {
        id: compose(node_id, chest.index as int) as i32,
        node_id: node_id as i32,
        index: chest.index,
        position: Position { x: place.0 as i32, y: place.1 as i32, z: place.2 as i32 },
        item: chest.item,
        amounts: chest.amounts,
    }
}

/// The four chests of a node stand at four places: two on the node's level and two a
/// level up, two at the node's `z` and two a step north of it.
pub proof fn lemma_chest_table(node: (int, int, int))
    ensures
        chest_place(node, 0) == (node.0, node.1 + 1, node.2 - 1),
        chest_place(node, 1) == (node.0, node.1 + 1, node.2),
        chest_place(node, 2) == (node.0, node.1, node.2 - 1),
        chest_place(node, 3) == (node.0, node.1, node.2),
        forall|i: int, j: int|
            0 <= i < 4 && 0 <= j < 4 && i != j ==> chest_place(node, i) != chest_place(node, j),
{
}

/// A chest that [`Chest::new`] put at a node leads back to where the node stands.
pub proof fn lemma_chest_leads_to_node(chest: Chest, node_position: Position)
    requires
        chest.position.place() == chest_place(node_position.place(), chest.index as int),
    ensures
        node_place(chest.position.place(), chest.index as int) == node_position.place(),
        place_fits(node_place(chest.position.place(), chest.index as int)),
{
}

impl SortKey for Chest {
    /// The chests of a node are put in order by their index.
    open spec fn spec_key(&self) -> int {
        self.index as int
    }

    fn key(&self) -> (k: i128) {
        self.index as i128
    }
}

impl Chest {
    /// The directory of the chests of the node `node_id`.
    pub fn node_directory(node_id: i32) -> (path: String)
        ensures
            path@ == "data/storage/"@ + decimal_text(node_id as int),
    {
        let mut path = "data/storage/".to_owned();
        path.append(format_i64(node_id as i64).as_str());
        path
    }

    /// Where the chest `index` of the node `node_id` is kept.
    pub fn file_path(node_id: i32, index: i32) -> (path: String)
        ensures
            path@ == "data/storage/"@ + decimal_text(node_id as int) + "/"@ + decimal_text(
                index as int,
            ) + ".json"@,
    {
        let mut path = Chest::node_directory(node_id);
        path.append("/");
        path.append(format_i64(index as i64).as_str());
        path.append(".json");
        path
    }

    /// Where the chest `id` is kept: the file of the chest that [`Chest::locate`] names.
    pub fn path_by_id(id: i32) -> (path: String)
        requires
            id >= 0,
        ensures
            path@ == "data/storage/"@ + decimal_text(decompose(id as int).0) + "/"@
                + decimal_text(decompose(id as int).1) + ".json"@,
    {
        let (node_id, index) = Chest::locate(id);
        Chest::file_path(node_id, index)
    }
}

/// The files of `chests`, in the order of the chests.
pub open spec fn chest_files(chests: Seq<Chest>) -> Seq<Seq<char>> {
    chests.map_values(
        |c: Chest|
            "data/storage/"@ + decimal_text(c.node_id as int) + "/"@ + decimal_text(c.index as int)
                + ".json"@,
    )
}

impl Chest {
    /// The file that saving this chest writes.
    pub fn save(&self) -> (path: String)
        ensures
            path@ == "data/storage/"@ + decimal_text(self.node_id as int) + "/"@ + decimal_text(
                self.index as int,
            ) + ".json"@,
    {
        Chest::file_path(self.node_id, self.index)
    }

    /// The files that saving `chests` writes, one per chest.
    pub fn save_each(chests: &Vec<Chest>) -> (paths: Vec<String>)
        ensures
            crate::repository::names_of(paths@) == chest_files(chests@),
    {
        let mut paths: Vec<String> = Vec::new();
        let mut i: usize = 0;
        while i < chests.len()
            invariant
                i <= chests.len(),
                paths@.len() == i,
                forall|k: int|
                    0 <= k < i ==> (#[trigger] paths[k])@ == "data/storage/"@ + decimal_text(
                        chests[k].node_id as int,
                    ) + "/"@ + decimal_text(chests[k].index as int) + ".json"@,
            decreases chests.len() - i,
        {
            paths.push(chests[i].save());
            i = i + 1;
        }
        assert(crate::repository::names_of(paths@) =~= chest_files(chests@));
        paths
    }
}

} // verus!
