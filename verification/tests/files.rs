use std::collections::VecDeque;
use trade_store::config::Config;
use trade_store::directory::DirectoryError;
use trade_store::order::{Order, OrderType};
use trade_store::pair::Pair;
use trade_store::position::Position;
use trade_store::repository::{
    contains_name, file_name, gather, has_json_extension, keep_present, orphans, plan_save,
    save_all,
};
use trade_store::storage::Storage;
use trade_store::store::{Listings, Store};
use trade_store::trade::{Timestamp, Trade, TradeType};
use trade_store::user::User;

fn names(ns: &[&str]) -> Vec<String> {
    ns.iter().map(|n| String::from(*n)).collect()
}

fn user(uuid: &str, balance: i64) -> User {
    User { uuid: String::from(uuid), username: format!("name of {}", uuid), balance }
}

fn pair(item: &str, stock: i32) -> Pair {
    Pair { item: String::from(item), item_stock: stock, currency_stock: 0 }
}

fn trade(secs: i64, nanos: u32, item: &str) -> Trade {
    Trade::at(
        TradeType::Sell,
        String::from(item),
        2,
        20,
        String::from("u"),
        Timestamp { secs, nanos },
    )
}

/// The files of a directory after a plan was carried out on it.
fn carried_out(before: &[&str], writes: &[String], removals: &[String]) -> Vec<String> {
    let mut files = names(before);
    for w in writes {
        if !files.contains(w) {
            files.push(w.clone());
        }
    }
    files.retain(|f| !removals.contains(f));
    files.sort();
    files
}

#[test]
fn records_are_kept_in_json_files() {
    assert_eq!(file_name("diamond"), "diamond.json");
    assert_eq!(file_name(""), ".json");
    assert!(has_json_extension("diamond.json"));
    assert!(has_json_extension("a.b.json"));
    assert!(has_json_extension("..json"));
    assert!(has_json_extension("ä.json"));
    assert!(!has_json_extension(".json"));
    assert!(!has_json_extension("json"));
    assert!(!has_json_extension("diamond.JSON"));
    assert!(!has_json_extension("diamond.json.bak"));
    assert!(!has_json_extension("diamond"));
    assert!(!has_json_extension(""));
}

#[test]
fn names_are_looked_up_as_written() {
    let listing = names(&["b.json", "notes.txt", "a.json", ".json", "c.JSON"]);
    assert!(contains_name(&listing, "notes.txt"));
    assert!(contains_name(&listing, ".json"));
    assert!(!contains_name(&listing, "notes"));
    assert!(!contains_name(&listing, "c.json"));
    assert!(!contains_name(&Vec::new(), ""));
}

#[test]
fn a_save_removes_every_file_that_it_did_not_write() {
    let listing = names(&["a.json", "b.json", "c.json", "readme.md", ".json"]);
    let written = names(&["a.json", "c.json"]);
    assert_eq!(orphans(&listing, &written), names(&["b.json", "readme.md", ".json"]));
    assert_eq!(orphans(&listing, &Vec::new()), listing);
    assert_eq!(orphans(&Vec::new(), &written), Vec::<String>::new());
    assert_eq!(orphans(&written, &written), Vec::<String>::new());
}

#[test]
fn a_record_with_the_empty_key_is_kept_like_any_other() {
    let nameless = vec![user("", 5), user("a", 1)];
    let first = User::save_all(&nameless, &names(&["stale.json", "notes.txt"]));
    assert_eq!(first.writes, names(&[".json", "a.json"]));
    assert_eq!(first.removals, names(&["stale.json", "notes.txt"]));
    let on_disk = carried_out(&["stale.json", "notes.txt"], &first.writes, &first.removals);
    assert_eq!(on_disk, names(&[".json", "a.json"]));
    let second = User::save_all(&vec![user("a", 1)], &on_disk);
    assert_eq!(second.removals, names(&[".json"]));
    let read = vec![Some(user("", 5)), Some(user("a", 1))];
    assert_eq!(User::load_all(read), nameless);
}

#[test]
fn saving_two_of_three_leaves_two_files() {
    let three = vec![user("a", 1), user("b", 2), user("c", 3)];
    let first = User::save_all(&three, &Vec::new());
    assert_eq!(first.writes, names(&["a.json", "b.json", "c.json"]));
    assert!(first.removals.is_empty());
    let on_disk = carried_out(&[], &first.writes, &first.removals);
    assert_eq!(on_disk.len(), 3);

    let two = vec![user("c", 3), user("a", 1)];
    let second = User::save_all(&two, &on_disk);
    assert_eq!(second.writes, names(&["c.json", "a.json"]));
    assert_eq!(second.removals, names(&["b.json"]));
    let before: Vec<&str> = on_disk.iter().map(|f| f.as_str()).collect();
    assert_eq!(carried_out(&before, &second.writes, &second.removals), names(&["a.json", "c.json"]));
}

#[test]
fn saving_nothing_empties_the_directory() {
    let plan = Pair::save_all(&Vec::new(), &names(&["iron.json", "gold.json", "keep.txt"]));
    assert!(plan.writes.is_empty());
    assert_eq!(plan.removals, names(&["iron.json", "gold.json", "keep.txt"]));
    let generic = save_all(&vec![pair("iron", 1)], &names(&["iron.json", "gold.json"]));
    assert_eq!(generic.writes, names(&["iron.json"]));
    assert_eq!(generic.removals, names(&["gold.json"]));
    let by_stems = plan_save(&names(&["x", "y"]), &names(&["y.json", "z.json"]));
    assert_eq!(by_stems.writes, names(&["x.json", "y.json"]));
    assert_eq!(by_stems.removals, names(&["z.json"]));
}

#[test]
fn what_was_saved_is_loaded_again() {
    let users = vec![user("a", 1), user("b", 2), user("c", 3)];
    let read: Vec<Option<User>> =
        users.iter().map(|u| Some(User { uuid: u.uuid.clone(), username: u.username.clone(), balance: u.balance })).collect();
    assert_eq!(User::load_all(read), users);
    assert_eq!(User::load_all(Vec::new()), Vec::<User>::new());
    let pairs = vec![pair("iron", 1), pair("gold", 2)];
    assert_eq!(Pair::load_all(vec![Some(pair("iron", 1)), Some(pair("gold", 2))]), pairs);
    assert_eq!(Pair::load_all(Vec::new()), Vec::<Pair>::new());
    assert_eq!(Trade::load_all(Vec::new()), Vec::<Trade>::new());
}

#[test]
fn a_load_skips_what_it_cannot_read() {
    let read = vec![None, Some(user("a", 1)), None, Some(user("b", 2)), None];
    assert_eq!(User::load_all(read), vec![user("a", 1), user("b", 2)]);
    assert_eq!(keep_present(vec![None, Some(3), None, Some(1)]), vec![3, 1]);
    assert_eq!(keep_present(vec![None::<i32>, None]), Vec::<i32>::new());
}

#[test]
fn of_two_records_with_one_key_the_later_stays() {
    let read = vec![Some(user("a", 1)), Some(user("b", 2)), Some(user("a", 9))];
    assert_eq!(gather(read), vec![user("a", 9), user("b", 2)]);
    assert_eq!(
        Pair::load_all(vec![Some(pair("iron", 1)), Some(pair("iron", 5))]),
        vec![pair("iron", 5)]
    );
}

#[test]
fn accounts_and_market_records_have_their_places() {
    assert_eq!(User::get_user_file_path("1234-abcd"), "data/users/1234-abcd.json");
    assert_eq!(Pair::get_pair_file_path("diamond"), "data/pairs/diamond.json");
    assert_eq!(Order::ORDERS_FILE, "data/orders.json");
}

#[test]
fn trades_are_filed_under_their_time() {
    let midnight = Timestamp { secs: 1431648000, nanos: 0 };
    assert_eq!(midnight.to_rfc3339(), Some(String::from("2015-05-15T00:00:00+00:00")));
    assert_eq!(Trade::file_name(&midnight), Some(String::from("2015-05-15T00-00-00+00-00.json")));
    assert_eq!(
        Trade::get_trade_file_path(&midnight),
        Some(String::from("data/trades/2015-05-15T00-00-00+00-00.json"))
    );
    let later = Timestamp { secs: 1431648000 + 3661, nanos: 500_000_000 };
    assert_eq!(
        Trade::file_name(&later),
        Some(String::from("2015-05-15T01-01-01.500+00-00.json"))
    );
    let before_the_epoch = Timestamp { secs: -1, nanos: 1 };
    assert_eq!(
        Trade::file_name(&before_the_epoch),
        Some(String::from("1969-12-31T23-59-59.000000001+00-00.json"))
    );
    assert_eq!(Trade::file_name_for("12:30:00"), "12-30-00.json");
    assert_eq!(Trade::file_name_for("no colon"), "no colon.json");
    assert_eq!(Trade::file_name_for(""), ".json");
}

#[test]
fn numbers_that_are_no_time_have_no_file() {
    let no_time = Timestamp { secs: 0, nanos: 2_000_000_000 };
    assert_eq!(no_time.to_rfc3339(), None);
    assert_eq!(Trade::file_name(&no_time), None);
    assert_eq!(Trade::get_trade_file_path(&Timestamp { secs: i64::MAX, nanos: 0 }), None);
    let trades = vec![trade(1, 0, "a"), trade(0, 2_000_000_000, "b")];
    assert_eq!(Trade::save_all(&trades, &Vec::new()), None);
}

#[test]
fn a_new_trade_is_made_now() {
    let first = Trade::new(TradeType::AddStock, String::from("iron"), 3, 30, String::from("u"));
    let second = Timestamp::now();
    assert_eq!(first.trade_type, TradeType::AddStock);
    assert_eq!(first.item, "iron");
    assert_eq!(first.amount, 3);
    assert_eq!(first.amount_currency, 30);
    assert_eq!(first.user_uuid, "u");
    // The clock of this machine is past the year 2020 and does not run backwards by much.
    assert!(first.timestamp.secs > 1_577_836_800);
    assert!(second.secs >= first.timestamp.secs - 1);
    assert!(first.timestamp.nanos < 1_000_000_000);
    assert!(Trade::file_name(&first.timestamp).is_some());
}

#[test]
fn loaded_trades_come_oldest_first() {
    let read = vec![
        Some(trade(30, 0, "late")),
        None,
        Some(trade(10, 7, "early")),
        Some(trade(10, 8, "a moment after")),
        Some(trade(-5, 0, "before the epoch")),
    ];
    let loaded = Trade::load_all(read);
    let items: Vec<&str> = loaded.iter().map(|t| t.item.as_str()).collect();
    assert_eq!(items, vec!["before the epoch", "early", "a moment after", "late"]);
}

#[test]
fn saving_two_of_three_trades_leaves_their_two_files() {
    let (a, b, c) = (trade(100, 0, "a"), trade(200, 5, "b"), trade(300, 0, "c"));
    let first = Trade::save_all(&vec![a, b, c], &Vec::new()).expect("three times");
    assert_eq!(first.writes.len(), 3);
    assert!(first.writes.iter().all(|name| !name.contains(':') && name.ends_with(".json")));
    let on_disk = carried_out(&[], &first.writes, &first.removals);
    let before: Vec<&str> = on_disk.iter().map(|f| f.as_str()).collect();
    let second = Trade::save_all(&vec![trade(100, 0, "a"), trade(300, 0, "c")], &on_disk)
        .expect("two times");
    assert_eq!(second.removals, names(&["1970-01-01T00-03-20.000000005+00-00.json"]));
    assert_eq!(
        carried_out(&before, &second.writes, &second.removals),
        names(&["1970-01-01T00-01-40+00-00.json", "1970-01-01T00-05-00+00-00.json"])
    );
}

#[test]
fn saved_trades_mirror_the_record() {
    let trades = vec![trade(1431648000, 0, "a"), trade(1431648060, 0, "b")];
    let plan = Trade::save_all(
        &trades,
        &names(&["2015-05-15T00-00-00+00-00.json", "2014-01-01T00-00-00+00-00.json", "x.txt"]),
    )
    .expect("both trades were made at a time");
    assert_eq!(
        plan.writes,
        names(&["2015-05-15T00-00-00+00-00.json", "2015-05-15T00-01-00+00-00.json"])
    );
    assert_eq!(plan.removals, names(&["2014-01-01T00-00-00+00-00.json", "x.txt"]));
}

#[test]
fn the_order_queue_is_one_file() {
    let queue = VecDeque::from(vec![Order {
        order_type: OrderType::Deposit,
        item: String::from("iron"),
        amount: 3,
        user_uuid: String::from("u"),
    }]);
    let same = VecDeque::from(vec![Order {
        order_type: OrderType::Deposit,
        item: String::from("iron"),
        amount: 3,
        user_uuid: String::from("u"),
    }]);
    assert_eq!(Order::load_all(Some(queue)), same);
    assert_eq!(Order::load_all(None), VecDeque::<Order>::new());
    assert_eq!(Order::default().order_type, OrderType::Buy);
    assert_eq!(OrderType::default(), OrderType::Buy);
    assert_eq!(TradeType::default(), TradeType::Buy);
    assert_eq!(same[0].clone(), same[0]);
}

#[test]
fn the_directory_answer_is_read() {
    let id = "0123456789abcdef0123456789abcdef";
    assert_eq!(
        User::get_uuid(200, Some(id)),
        Ok(String::from("01234567-89ab-cdef-0123-456789abcdef"))
    );
    assert_eq!(User::hyphenate(id), "01234567-89ab-cdef-0123-456789abcdef");
    assert_eq!(
        User::hyphenate("0123456789abcdef0123456789abcdefXYZ"),
        "01234567-89ab-cdef-0123-456789abcdef"
    );
    assert_eq!(User::get_uuid(204, Some(id)), Err(DirectoryError::NotFound));
    assert_eq!(User::get_uuid(204, None), Err(DirectoryError::NotFound));
    assert_eq!(User::get_uuid(404, Some(id)), Err(DirectoryError::LookupFailed));
    assert_eq!(User::get_uuid(500, None), Err(DirectoryError::LookupFailed));
    assert_eq!(User::get_uuid(199, Some(id)), Err(DirectoryError::LookupFailed));
    assert_eq!(User::get_uuid(300, Some(id)), Err(DirectoryError::LookupFailed));
    assert_eq!(User::get_uuid(200, None), Err(DirectoryError::LookupFailed));
    assert_eq!(User::get_uuid(200, Some("0123")), Err(DirectoryError::LookupFailed));
    assert_eq!(User::get_uuid(299, Some(id)).is_ok(), true);
    assert_eq!(
        User::profile_url("alice"),
        "https://api.mojang.com/users/profiles/minecraft/alice"
    );
    let fresh = User::new(String::from("u"), String::from("alice"));
    assert_eq!(fresh, User { uuid: String::from("u"), username: String::from("alice"), balance: 0 });
    assert_eq!(fresh.clone(), fresh);
}

#[test]
fn the_store_plans_its_save() {
    let mut storage = Storage::new(Position { x: 0, y: 0, z: 0 });
    storage.add_node();
    let store = Store::new(
        Config::default(),
        vec![pair("iron", 1)],
        vec![user("a", 1), user("b", 2)],
        VecDeque::new(),
        vec![trade(1431648000, 0, "iron")],
        storage,
    )
    .expect("a store in order");
    let found = Listings {
        pairs: names(&["iron.json", "gold.json"]),
        users: names(&["z.json"]),
        trades: Vec::new(),
    };
    let plan = store.save(&found);
    assert_eq!(plan.pairs.writes, names(&["iron.json"]));
    assert_eq!(plan.pairs.removals, names(&["gold.json"]));
    assert_eq!(plan.users.writes, names(&["a.json", "b.json"]));
    assert_eq!(plan.users.removals, names(&["z.json"]));
    let trades = plan.trades.expect("the trade was made at a time");
    assert_eq!(trades.writes, names(&["2015-05-15T00-00-00+00-00.json"]));
    assert!(trades.removals.is_empty());
    assert_eq!(plan.orders, "data/orders.json");
    assert_eq!(
        plan.chests,
        names(&[
            "data/storage/0/0.json",
            "data/storage/0/1.json",
            "data/storage/0/2.json",
            "data/storage/0/3.json"
        ])
    );
}
