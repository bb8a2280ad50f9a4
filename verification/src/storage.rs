//! The warehouse: its origin and the nodes laid out round it.

use vstd::prelude::*;
use crate::chest::{chest_files, Chest};
use crate::node::{node_fits, Node};
use crate::position::Position;
use crate::sorting::{insert_sorted, lemma_stable_sorted, sorted_by_key, stable_sorted};
use crate::repository::{names_of, present};
use crate::sorting::SortKey;
use crate::text::{parse_i32, same_text, spec_parse_i32};

verus! {

/// The warehouse. Node `i` is the `i`-th that was added.
#[derive(Debug, PartialEq, Eq)]
pub struct Storage {
    /// The origin: the point that all node positions are counted from.
    pub position: Position,
    pub nodes: Vec<Node>,
}

/// Whether the chest at place `i` of the node at place `k` has the identifier `chest_id`.
pub open spec fn holds_at(nodes: Seq<Node>, k: int, i: int, chest_id: int) -> bool {
    0 <= k < nodes.len() && 0 <= i < nodes[k].chests@.len() && nodes[k].chests[i].id == chest_id
}

/// Whether the chest at place `i` of the node at place `k` is the first with the
/// identifier `chest_id`, going through the nodes in their order and through the chests
/// of each node in theirs.
pub open spec fn first_held_at(nodes: Seq<Node>, k: int, i: int, chest_id: int) -> bool {
    holds_at(nodes, k, i, chest_id) && forall|k2: int, i2: int|
        #[trigger] holds_at(nodes, k2, i2, chest_id) ==> k < k2 || (k == k2 && i <= i2)
}

/// Where the chest `chest_id` is kept: the place of its node in `nodes` and its place
/// among the node's chests; `None` where no chest of the warehouse has the identifier.
pub open spec fn chest_slot(nodes: Seq<Node>, chest_id: int) -> Option<(int, int)> {
    if exists|k: int, i: int| holds_at(nodes, k, i, chest_id) {
        Some(choose|k: int, i: int| first_held_at(nodes, k, i, chest_id))
    } else {
        None
    }
}

/// The identifiers of those of `chests` that keep `item`, in the order of the chests.
pub open spec fn ids_among(chests: Seq<Chest>, item: Seq<char>) -> Seq<i32>
    decreases chests.len(),
{
    if chests.len() == 0 {
        Seq::<i32>::empty()
    } else if chests.last().item@ == item {
        ids_among(chests.drop_last(), item).push(chests.last().id)
    } else {
        ids_among(chests.drop_last(), item)
    }
}

/// The identifiers of all chests of `nodes` that keep `item`, node by node.
pub open spec fn ids_with_item(nodes: Seq<Node>, item: Seq<char>) -> Seq<i32>
    decreases nodes.len(),
{
    if nodes.len() == 0 {
        Seq::<i32>::empty()
    } else {
        ids_with_item(nodes.drop_last(), item) + ids_among(nodes.last().chests@, item)
    }
}

/// The first chest with an identifier is the one that [`chest_slot`] names.
pub proof fn lemma_chest_slot(nodes: Seq<Node>, chest_id: int, k: int, i: int)
    requires
        first_held_at(nodes, k, i, chest_id),
    ensures
        chest_slot(nodes, chest_id) == Some((k, i)),
{
    let found = choose|k: int, i: int| first_held_at(nodes, k, i, chest_id);
    assert(holds_at(nodes, k, i, chest_id));
    assert(holds_at(nodes, found.0, found.1, chest_id));
}

impl Storage {
    /// Whether every node is the one that its place in the list names, laid out round
    /// the origin as [`Node::new`] does it.
    pub open spec fn wf(&self) -> bool {
        forall|i: int|
            0 <= i < self.nodes@.len() ==> (#[trigger] self.nodes[i]).id == i
                && self.nodes[i].laid_out(self.position.place())
    }

    /// A warehouse at `position` without nodes.
    pub fn new(position: Position) -> (s: Storage)
        ensures
            s.position == position,
            s.nodes@ == Seq::<Node>::empty(),
            s.wf(),
    {
        Storage { position, nodes: Vec::new() }
    }

    /// Whether another node can be added: whether its identifier, its position and its
    /// chests can be held in `i32` fields.
    pub fn can_add_node(&self) -> (ok: bool)
        ensures
            ok == (self.nodes@.len() <= i32::MAX && node_fits(
                self.nodes@.len() as int,
                self.position.place(),
            )),
    {
        if self.nodes.len() > 2147483647 {
            return false;
        }
        Node::fits(self.nodes.len() as i32, &self.position)
    }

    /// Adds the next node, with four empty chests, and hands it out. Its identifier is
    /// the number of nodes that were there.
    pub fn add_node(&mut self) -> (node: &Node)
        requires
            old(self).nodes@.len() <= i32::MAX,
            node_fits(old(self).nodes@.len() as int, old(self).position.place()),
        ensures
            final(self).position == old(self).position,
            final(self).nodes@ == old(self).nodes@.push(*node),
            node.id == old(self).nodes@.len(),
            node.laid_out(old(self).position.place()),
            forall|i: int|
                0 <= i < 4 ==> (#[trigger] node.chests[i]).item@ == Seq::<char>::empty()
                    && node.chests[i].amounts@ == Seq::new(54, |k: int| 0i32),
            old(self).wf() ==> final(self).wf(),
    {
        let node_id = self.nodes.len() as i32;
        let node = Node::new(node_id, &self.position);
        self.nodes.push(node);
        let last = self.nodes.len() - 1;
        &self.nodes[last]
    }

    /// Where the chest `chest_id` is kept: the place of its node and its place among the
    /// node's chests; `None` where no chest of the warehouse has the identifier.
    pub fn find_chest(&self, chest_id: i32) -> (r: Option<(usize, usize)>)
        ensures
            match r {
                Some((k, i)) => chest_slot(self.nodes@, chest_id as int) == Some(
                    (k as int, i as int),
                ) && first_held_at(self.nodes@, k as int, i as int, chest_id as int),
                None => chest_slot(self.nodes@, chest_id as int) is None && forall|k: int, i: int|
                    !holds_at(self.nodes@, k, i, chest_id as int),
            },
    {
        let mut k: usize = 0;
        while k < self.nodes.len()
            invariant
                k <= self.nodes.len(),
                forall|k2: int, i2: int|
                    #[trigger] holds_at(self.nodes@, k2, i2, chest_id as int) ==> k <= k2,
            decreases self.nodes.len() - k,
        {
            let node = &self.nodes[k];
            let mut i: usize = 0;
            while i < node.chests.len()
                invariant
                    k < self.nodes.len(),
                    *node == self.nodes[k as int],
                    i <= node.chests.len(),
                    forall|k2: int, i2: int|
                        #[trigger] holds_at(self.nodes@, k2, i2, chest_id as int) ==> k < k2 || (k
                            == k2 && i <= i2),
                decreases node.chests.len() - i,
            {
                if node.chests[i].id == chest_id {
                    proof {
                        lemma_chest_slot(self.nodes@, chest_id as int, k as int, i as int);
                    }
                    return Some((k, i));
                }
                i = i + 1;
            }
            k = k + 1;
        }
        None
    }

    /// The chest with the identifier `chest_id`, to be changed in place; `None` where no
    /// chest of the warehouse has the identifier. Whatever is done to the chest, nothing
    /// else in the warehouse changes.
    pub fn get_chest_mut(&mut self, chest_id: i32) -> (r: Option<&mut Chest>)
        ensures
            match r {
                Some(chest) => match chest_slot(old(self).nodes@, chest_id as int) {
                    Some((k, i)) => {
                        &&& chest.id == chest_id
                        &&& first_held_at(old(self).nodes@, k, i, chest_id as int)
                        &&& *chest == old(self).nodes[k].chests[i]
                        &&& final(self).position == old(self).position
                        &&& final(self).nodes@.len() == old(self).nodes@.len()
                        &&& forall|j: int|
                            0 <= j < old(self).nodes@.len() && j != k ==> final(self).nodes[j]
                                == old(self).nodes[j]
                        &&& final(self).nodes[k].id == old(self).nodes[k].id
                        &&& final(self).nodes[k].position == old(self).nodes[k].position
                        &&& final(self).nodes[k].chests@ == old(self).nodes[k].chests@.update(
                            i,
                            *final(chest),
                        )
                    },
                    None => false,
                },
                None => {
                    &&& chest_slot(old(self).nodes@, chest_id as int) is None
                    &&& forall|k: int, i: int| !holds_at(old(self).nodes@, k, i, chest_id as int)
                    &&& *final(self) == *old(self)
                },
            },
    {
        match self.find_chest(chest_id) {
            Some((k, i)) => Some(&mut self.nodes[k].chests[i]),
            None => None,
        }
    }

    /// The identifiers of the chests that keep `item`, smallest first.
    pub fn chest_ids_with_item(&self, item: &str) -> (ids: Vec<i32>)
        ensures
            ids@ == stable_sorted(ids_with_item(self.nodes@, item@)),
            sorted_by_key(ids@),
            ids@.to_multiset() == ids_with_item(self.nodes@, item@).to_multiset(),
    {
        let mut ids: Vec<i32> = Vec::new();
        let mut n: usize = 0;
        assert(self.nodes@.take(0) =~= Seq::<Node>::empty());
        while n < self.nodes.len()
            invariant
                n <= self.nodes.len(),
                sorted_by_key(ids@),
                ids@ == stable_sorted(ids_with_item(self.nodes@.take(n as int), item@)),
            decreases self.nodes.len() - n,
        {
            let node = &self.nodes[n];
            let ghost before = ids_with_item(self.nodes@.take(n as int), item@);
            let mut c: usize = 0;
            assert(node.chests@.take(0) =~= Seq::<Chest>::empty());
            assert(before + Seq::<i32>::empty() =~= before);
            while c < node.chests.len()
                invariant
                    c <= node.chests.len(),
                    sorted_by_key(ids@),
                    ids@ == stable_sorted(
                        before + ids_among(node.chests@.take(c as int), item@),
                    ),
                decreases node.chests.len() - c,
            {
                let ghost longer = node.chests@.take(c as int + 1);
                let ghost so_far = ids_among(node.chests@.take(c as int), item@);
                assert(longer.drop_last() =~= node.chests@.take(c as int));
                assert(longer.last() == node.chests[c as int]);
                if same_text(node.chests[c].item.as_str(), item) {
                    let id = node.chests[c].id;
                    proof {
                        assert((before + so_far.push(id)).drop_last() =~= before + so_far);
                        assert((before + so_far.push(id)).last() == id);
                    }
                    insert_sorted(&mut ids, id);
                }
                c = c + 1;
            }
            proof {
                assert(node.chests@.take(c as int) =~= node.chests@);
                let far = self.nodes@.take(n as int + 1);
                assert(far.drop_last() =~= self.nodes@.take(n as int));
                assert(far.last() == *node);
            }
            n = n + 1;
        }
        proof {
            assert(self.nodes@.take(n as int) =~= self.nodes@);
            lemma_stable_sorted(ids_with_item(self.nodes@, item@));
        }
        ids
    }
}

/// Where a chest is kept in the warehouse.
#[derive(Debug, Clone, Copy, PartialEq, Eq, Structural)]
pub struct ChestSlot {
    /// The identifier of the chest.
    pub id: i32,
    /// The place of its node in the list of nodes.
    pub node: usize,
    /// Its place among the chests of the node.
    pub chest: usize,
}

impl SortKey for ChestSlot {
    /// Slots are put in order by the identifier of their chest.
    open spec fn spec_key(&self) -> int {
        self.id as int
    }

    fn key(&self) -> (k: i128) {
        self.id as i128
    }
}

/// The slots of those chests of the node at place `node` that keep `item`, in the order
/// of the chests.
pub open spec fn slots_among(chests: Seq<Chest>, node: int, item: Seq<char>) -> Seq<ChestSlot>
    decreases chests.len(),
{
    if chests.len() == 0 {
        Seq::<ChestSlot>::empty()
    } else if chests.last().item@ == item {
        slots_among(chests.drop_last(), node, item).push(
            ChestSlot {
                id: chests.last().id,
                node: node as usize,
                chest: (chests.len() - 1) as usize,
            },
        )
    } else {
        slots_among(chests.drop_last(), node, item)
    }
}

/// The slots of all chests of `nodes` that keep `item`, node by node.
pub open spec fn slots_with_item(nodes: Seq<Node>, item: Seq<char>) -> Seq<ChestSlot>
    decreases nodes.len(),
{
    if nodes.len() == 0 {
        Seq::<ChestSlot>::empty()
    } else {
        slots_with_item(nodes.drop_last(), item) + slots_among(
            nodes.last().chests@,
            nodes.len() - 1,
            item,
        )
    }
}

/// The files of the chests of `nodes`, node by node.
pub open spec fn storage_files(nodes: Seq<Node>) -> Seq<Seq<char>>
    decreases nodes.len(),
{
    if nodes.len() == 0 {
        Seq::<Seq<char>>::empty()
    } else {
        storage_files(nodes.drop_last()) + chest_files(nodes.last().chests@)
    }
}

impl Storage {
    /// The chests that keep `item`, by where they are kept, smallest identifier first;
    /// chests with one identifier come in the order of the nodes and of their chests.
    /// The chest of a slot `s` is `self.nodes[s.node].chests[s.chest]`.
    pub fn chests_with_item_mut(&mut self, item: &str) -> (slots: Vec<ChestSlot>)
        ensures
            *final(self) == *old(self),
            slots@ == stable_sorted(slots_with_item(old(self).nodes@, item@)),
            sorted_by_key(slots@),
            slots@.to_multiset() == slots_with_item(old(self).nodes@, item@).to_multiset(),
    {
        let mut slots: Vec<ChestSlot> = Vec::new();
        let mut n: usize = 0;
        assert(self.nodes@.take(0) =~= Seq::<Node>::empty());
        while n < self.nodes.len()
            invariant
                n <= self.nodes.len(),
                *self == *old(self),
                sorted_by_key(slots@),
                slots@ == stable_sorted(slots_with_item(self.nodes@.take(n as int), item@)),
            decreases self.nodes.len() - n,
        {
            let node = &self.nodes[n];
            let ghost before = slots_with_item(self.nodes@.take(n as int), item@);
            let mut c: usize = 0;
            assert(node.chests@.take(0) =~= Seq::<Chest>::empty());
            assert(before + Seq::<ChestSlot>::empty() =~= before);
            while c < node.chests.len()
                invariant
                    c <= node.chests.len(),
                    sorted_by_key(slots@),
                    slots@ == stable_sorted(
                        before + slots_among(node.chests@.take(c as int), n as int, item@),
                    ),
                decreases node.chests.len() - c,
            {
                let ghost longer = node.chests@.take(c as int + 1);
                let ghost so_far = slots_among(node.chests@.take(c as int), n as int, item@);
                assert(longer.drop_last() =~= node.chests@.take(c as int));
                assert(longer.last() == node.chests[c as int]);
                if same_text(node.chests[c].item.as_str(), item) {
                    let slot = ChestSlot { id: node.chests[c].id, node: n, chest: c };
                    proof {
                        assert((before + so_far.push(slot)).drop_last() =~= before + so_far);
                        assert((before + so_far.push(slot)).last() == slot);
                    }
                    insert_sorted(&mut slots, slot);
                }
                c = c + 1;
            }
            proof {
                assert(node.chests@.take(c as int) =~= node.chests@);
                let far = self.nodes@.take(n as int + 1);
                assert(far.drop_last() =~= self.nodes@.take(n as int));
                assert(far.last() == *node);
            }
            n = n + 1;
        }
        proof {
            assert(self.nodes@.take(n as int) =~= self.nodes@);
            lemma_stable_sorted(slots_with_item(self.nodes@, item@));
        }
        slots
    }

    /// The nodes that a load reads from the warehouse's directory, which holds the
    /// directories `listing`: those whose name is a number, in the order of the listing.
    pub fn node_ids(listing: &Vec<String>) -> (ids: Vec<i32>)
        ensures
            ids@ == present(names_of(listing@).map_values(|n: Seq<char>| spec_parse_i32(n))),
    {
        let ghost read = names_of(listing@).map_values(|n: Seq<char>| spec_parse_i32(n));
        let mut ids: Vec<i32> = Vec::new();
        let mut i: usize = 0;
        assert(read.take(0) =~= Seq::<Option<i32>>::empty());
        while i < listing.len()
            invariant
                i <= listing.len(),
                read == names_of(listing@).map_values(|n: Seq<char>| spec_parse_i32(n)),
                ids@ == present(read.take(i as int)),
            decreases listing.len() - i,
        {
            proof {
                assert(read.take(i as int + 1).drop_last() =~= read.take(i as int));
                assert(read.take(i as int + 1).last() == spec_parse_i32(listing[i as int]@));
            }
            match parse_i32(listing[i].as_str()) {
                Some(id) => {
                    ids.push(id);
                },
                None => {},
            }
            i = i + 1;
        }
        assert(read.take(i as int) =~= read);
        ids
    }

    /// The warehouse at `storage_position` with the nodes that a load read.
    pub fn load(storage_position: &Position, nodes: Vec<Node>) -> (s: Storage)
        ensures
            s.position == *storage_position,
            s.nodes == nodes,
    {
        Storage { position: *storage_position, nodes }
    }

    /// The files that saving the warehouse writes: one per chest, node by node.
    pub fn save(&self) -> (paths: Vec<String>)
        ensures
            names_of(paths@) == storage_files(self.nodes@),
    {
        let mut paths: Vec<String> = Vec::new();
        let mut n: usize = 0;
        assert(self.nodes@.take(0) =~= Seq::<Node>::empty());
        assert(names_of(paths@) =~= Seq::<Seq<char>>::empty());
        while n < self.nodes.len()
            invariant
                n <= self.nodes.len(),
                names_of(paths@) == storage_files(self.nodes@.take(n as int)),
            decreases self.nodes.len() - n,
        {
            let ghost before = names_of(paths@);
            let mut more = self.nodes[n].save();
            let ghost added = names_of(more@);
            paths.append(&mut more);
            proof {
                assert(names_of(paths@) =~= before + added);
                let far = self.nodes@.take(n as int + 1);
                assert(far.drop_last() =~= self.nodes@.take(n as int));
                assert(far.last() == self.nodes[n as int]);
            }
            n = n + 1;
        }
        assert(self.nodes@.take(n as int) =~= self.nodes@);
        paths
    }
}

} // verus!
