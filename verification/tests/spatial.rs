use trade_store::chest::Chest;
use trade_store::node::Node;
use trade_store::position::Position;
use trade_store::storage::{ChestSlot, Storage};

fn origin() -> Position {
    Position { x: 0, y: 64, z: 0 }
}

fn place_of(id: i32) -> (i32, i32, i32) {
    let p = Node::calc_position(id, &origin());
    (p.x, p.y, p.z)
}

#[test]
fn node_zero_stands_two_steps_west() {
    let at = Position { x: 100, y: 64, z: -50 };
    let node = Node::new(0, &at);
    assert_eq!(node.position, Position { x: 94, y: 64, z: -50 });
    assert_eq!(node.chests.len(), 4);
}

#[test]
fn ring_one_runs_round_the_centre() {
    assert_eq!(place_of(1), (-3, 64, 0));
    assert_eq!(place_of(2), (-3, 64, 3));
    assert_eq!(place_of(3), (-6, 64, 3));
    assert_eq!(place_of(4), (-9, 64, 3));
    assert_eq!(place_of(5), (-9, 64, 0));
    assert_eq!(place_of(6), (-9, 64, -3));
    assert_eq!(place_of(7), (-6, 64, -3));
}

#[test]
fn ring_two_starts_at_node_eight() {
    assert_eq!(place_of(8), (0, 64, -6));
    assert_eq!(place_of(12), (0, 64, 6));
    assert_eq!(place_of(23), (-3, 64, -6));
}

#[test]
fn ring_three_starts_at_node_twenty_four() {
    assert_eq!(place_of(24), (3, 64, -9));
}

#[test]
fn positions_depend_on_nothing_but_id_and_origin() {
    for id in 0..200 {
        assert_eq!(Node::calc_position(id, &origin()), Node::calc_position(id, &origin()));
    }
}

#[test]
fn no_two_of_the_first_nodes_share_a_place() {
    let mut seen: Vec<(i32, i32, i32)> = Vec::new();
    for id in 0..120 {
        let place = place_of(id);
        assert!(!seen.contains(&place), "node {} stands where another node stands", id);
        seen.push(place);
    }
}

#[test]
fn the_largest_node_can_be_placed() {
    let p = Node::calc_position(i32::MAX, &origin());
    assert_eq!(p.y, 64);
    assert!(p.x.abs() <= 3 * 23172 && p.z.abs() <= 3 * 23172);
}

#[test]
fn chest_identifier_is_four_times_node_plus_index() {
    let at = Position { x: 7, y: 8, z: 9 };
    for index in 0..4 {
        let chest = Chest::new(5, &at, index);
        assert_eq!(chest.id, 20 + index);
        assert_eq!(chest.node_id, 5);
        assert_eq!(chest.index, index);
        assert_eq!(chest.item, "");
        assert_eq!(chest.amounts, vec![0; 54]);
    }
}

#[test]
fn chests_stand_at_their_fixed_offsets() {
    let at = Position { x: 10, y: 20, z: 30 };
    assert_eq!(Chest::new(1, &at, 0).position, Position { x: 10, y: 21, z: 29 });
    assert_eq!(Chest::new(1, &at, 1).position, Position { x: 10, y: 21, z: 30 });
    assert_eq!(Chest::new(1, &at, 2).position, Position { x: 10, y: 20, z: 29 });
    assert_eq!(Chest::new(1, &at, 3).position, Position { x: 10, y: 20, z: 30 });
    assert_eq!(Chest::place_at(&at, 1), Position { x: 10, y: 21, z: 30 });
}

#[test]
fn two_chests_stand_at_each_level_and_at_each_z() {
    let at = Position { x: -4, y: 70, z: 12 };
    let places: Vec<Position> = (0..4).map(|i| Chest::new(3, &at, i).position).collect();
    assert_eq!(places.iter().filter(|p| p.y == at.y).count(), 2);
    assert_eq!(places.iter().filter(|p| p.y == at.y + 1).count(), 2);
    assert_eq!(places.iter().filter(|p| p.z == at.z).count(), 2);
    assert_eq!(places.iter().filter(|p| p.z == at.z - 1).count(), 2);
    assert!(places.iter().all(|p| p.x == at.x));
    for i in 0..4 {
        for j in 0..i {
            assert_ne!(places[i], places[j]);
        }
    }
}

#[test]
fn chest_leads_back_to_its_node() {
    let at = Position { x: 7, y: 8, z: 9 };
    for index in 0..4 {
        let chest = Chest::new(5, &at, index);
        assert_eq!(chest.node_position(), at);
    }
}

#[test]
fn chest_identifier_round_trip() {
    for node_id in 0..50 {
        for index in 0..4 {
            let id = node_id * 4 + index;
            assert_eq!(Chest::locate(id), (node_id, index));
        }
    }
    assert_eq!(Chest::locate(0), (0, 0));
    assert_eq!(Chest::locate(i32::MAX), (536870911, 3));
}

#[test]
fn chest_files_are_grouped_by_node() {
    assert_eq!(Chest::file_path(3, 2), "data/storage/3/2.json");
    assert_eq!(Chest::path_by_id(14), "data/storage/3/2.json");
    assert_eq!(Chest::node_directory(12), "data/storage/12");
    let chest = Chest::new(7, &origin(), 1);
    assert_eq!(chest.save(), "data/storage/7/1.json");
}

#[test]
fn new_node_has_its_four_chests_in_order() {
    let node = Node::new(9, &origin());
    assert_eq!(node.id, 9);
    assert_eq!(node.position, Node::calc_position(9, &origin()));
    for (i, chest) in node.chests.iter().enumerate() {
        assert_eq!(chest.index, i as i32);
        assert_eq!(chest.id, 36 + i as i32);
        assert_eq!(chest.node_position(), node.position);
    }
    assert_eq!(
        node.save(),
        vec![
            "data/storage/9/0.json",
            "data/storage/9/1.json",
            "data/storage/9/2.json",
            "data/storage/9/3.json"
        ]
    );
}

#[test]
fn loaded_node_sorts_its_chests_and_recomputes_its_place() {
    let elsewhere = Position { x: 1000, y: 0, z: 1000 };
    let mut stale = Chest::new(9, &elsewhere, 3);
    stale.item = String::from("iron");
    stale.amounts[5] = 64;
    let chests = vec![stale, Chest::new(2, &elsewhere, 0), Chest::new(2, &elsewhere, 2)];
    let node = Node::load(2, &origin(), chests);
    assert_eq!(node.position, Position { x: -3, y: 64, z: 3 });
    let indices: Vec<i32> = node.chests.iter().map(|c| c.index).collect();
    assert_eq!(indices, vec![0, 2, 3]);
    for chest in &node.chests {
        assert_eq!(chest.node_id, 2);
        assert_eq!(chest.id, 8 + chest.index);
        assert_eq!(chest.node_position(), node.position);
    }
    assert_eq!(node.chests[0].position, Position { x: -3, y: 65, z: 2 });
    assert_eq!(node.chests[2].position, Position { x: -3, y: 64, z: 3 });
    assert_eq!(node.chests[2].item, "iron");
    assert_eq!(node.chests[2].amounts[5], 64);
}

#[test]
fn loaded_node_keeps_one_chest_per_index() {
    let at = origin();
    let mut first = Chest::new(1, &at, 2);
    first.item = String::from("first");
    let mut second = Chest::new(1, &at, 2);
    second.item = String::from("second");
    let mut fifth = Chest::new(1, &at, 0);
    fifth.index = 4;
    let mut negative = Chest::new(1, &at, 0);
    negative.index = -1;
    let node = Node::load(1, &at, vec![fifth, first, negative, second, Chest::new(1, &at, 1)]);
    let kept: Vec<(i32, &str)> = node.chests.iter().map(|c| (c.index, c.item.as_str())).collect();
    assert_eq!(kept, vec![(1, ""), (2, "first")]);
    assert!(Node::load(0, &at, Vec::new()).chests.is_empty());
}

#[test]
fn a_chest_takes_its_place_from_its_node() {
    let elsewhere = Position { x: 5, y: 5, z: 5 };
    let mut read = Chest::new(40, &elsewhere, 1);
    read.item = String::from("gold");
    let settled = read.settle(7, &origin());
    assert_eq!(settled.id, 29);
    assert_eq!(settled.node_id, 7);
    assert_eq!(settled.index, 1);
    assert_eq!(settled.position, Position { x: 0, y: 65, z: 0 });
    assert_eq!(settled.item, "gold");
}

#[test]
fn chest_files_are_told_by_their_names() {
    assert_eq!(Node::chest_index("0.json"), Some(0));
    assert_eq!(Node::chest_index("3.json"), Some(3));
    assert_eq!(Node::chest_index("12.json"), Some(12));
    assert_eq!(Node::chest_index("x.json"), None);
    assert_eq!(Node::chest_index("3.txt"), None);
    assert_eq!(Node::chest_index(".json"), None);
    assert_eq!(Node::chest_index("3"), None);
    let listing: Vec<String> =
        vec!["1.json", "notes.txt", "0.json", "old.json"].into_iter().map(String::from).collect();
    assert_eq!(Node::chest_indices(&listing), vec![1, 0]);
}

#[test]
fn storage_adds_nodes_in_order() {
    let mut storage = Storage::new(origin());
    assert!(storage.nodes.is_empty());
    assert_eq!(storage.add_node().id, 0);
    assert_eq!(storage.add_node().id, 1);
    let third = storage.add_node();
    assert_eq!(third.id, 2);
    assert_eq!(third.position, Position { x: -3, y: 64, z: 3 });
    assert_eq!(storage.nodes.len(), 3);
    assert_eq!(storage.save().len(), 12);
}

#[test]
fn storage_finds_a_chest_by_its_identifier() {
    let mut storage = Storage::new(origin());
    storage.add_node();
    storage.add_node();
    {
        let chest = storage.get_chest_mut(6).expect("chest 6 is the third chest of node 1");
        assert_eq!((chest.node_id, chest.index), (1, 2));
        chest.item = String::from("diamond");
        chest.amounts[0] = 64;
    }
    assert_eq!(storage.nodes[1].chests[2].item, "diamond");
    assert_eq!(storage.nodes[1].chests[2].amounts[0], 64);
    assert_eq!(storage.nodes[1].chests[1].item, "");
    assert_eq!(storage.find_chest(6), Some((1, 2)));
    assert_eq!(storage.get_chest_mut(6).map(|c| c.id), Some(6));
    assert!(storage.get_chest_mut(8).is_none());
    assert!(storage.get_chest_mut(-1).is_none());
    assert!(storage.get_chest_mut(-4).is_none());
    assert_eq!(storage.find_chest(i32::MIN), None);
}

#[test]
fn a_chest_is_found_by_its_identifier_not_by_its_place() {
    let only_third = vec![Chest::new(0, &origin(), 2)];
    let node = Node::load(0, &origin(), only_third);
    let mut storage = Storage::load(&origin(), vec![node]);
    assert!(storage.get_chest_mut(0).is_none());
    assert_eq!(storage.find_chest(0), None);
    assert_eq!(storage.find_chest(2), Some((0, 0)));
    let found = storage.get_chest_mut(2).expect("chest 2 was read");
    assert_eq!((found.id, found.index), (2, 2));
}

#[test]
fn storage_lists_the_chests_of_an_item_smallest_first() {
    let mut storage = Storage::new(origin());
    storage.add_node();
    storage.add_node();
    storage.nodes[1].chests[3].item = String::from("iron");
    storage.nodes[0].chests[2].item = String::from("iron");
    storage.nodes[1].chests[0].item = String::from("gold");
    // Files may name chests freely: an identifier out of order must still come first.
    storage.nodes[1].chests[3].id = 1;
    assert_eq!(storage.chest_ids_with_item("iron"), vec![1, 2]);
    assert_eq!(storage.chest_ids_with_item("gold"), vec![4]);
    assert_eq!(storage.chest_ids_with_item("coal"), Vec::<i32>::new());
    assert_eq!(storage.chest_ids_with_item(""), vec![0, 1, 3, 5, 6]);
    assert_eq!(
        storage.chests_with_item_mut("iron"),
        vec![ChestSlot { id: 1, node: 1, chest: 3 }, ChestSlot { id: 2, node: 0, chest: 2 }]
    );
}

#[test]
fn storage_reads_the_nodes_whose_directory_is_a_number() {
    let listing: Vec<String> =
        vec!["0", "2", "backup", "1", "-1", "3.json"].into_iter().map(String::from).collect();
    assert_eq!(Storage::node_ids(&listing), vec![0, 2, 1, -1]);
    let loaded = Storage::load(&origin(), vec![Node::new(1, &origin())]);
    assert_eq!(loaded.position, origin());
    assert_eq!(loaded.nodes.len(), 1);
}

#[test]
fn nodes_need_room_in_the_coordinates() {
    assert!(Node::stands(0, &origin()));
    assert!(!Node::stands(-1, &origin()));
    assert!(Node::fits(0, &origin()));
    assert!(Node::fits(536870911, &origin()));
    assert!(!Node::fits(536870912, &origin()));
    assert!(Node::stands(536870912, &origin()));
    // Node 1 stands one step west of the origin: three blocks.
    let far_west = Position { x: i32::MIN + 3, y: 0, z: 0 };
    assert!(Node::stands(1, &far_west));
    assert!(!Node::stands(0, &far_west));
    assert_eq!(Node::calc_position(1, &far_west).x, i32::MIN);
    let top = Position { x: 0, y: i32::MAX, z: 0 };
    assert!(Node::stands(5, &top));
    assert!(!Node::fits(5, &top));
    let far_north = Position { x: 0, y: 0, z: i32::MIN };
    assert!(Node::stands(0, &far_north));
    assert!(!Node::fits(0, &far_north));
    assert_eq!(Node::offset(0), (-2, 0));
    assert_eq!(Node::offset(8), (0, -2));
    assert!(Storage::new(origin()).can_add_node());
    assert!(!Storage::new(top).can_add_node());
}
