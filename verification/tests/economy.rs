use std::collections::VecDeque;
use trade_store::command::{Command, Usage};
use trade_store::config::Config;
use trade_store::directory::{Directory, DirectoryError};
use trade_store::error::{ErrorKind, PayError};
use trade_store::messages::{
    restart_reply, BotInstruction, BotMessage, CliAction, CliMessage, Outcome, StoreMessage,
};
use trade_store::notice::{CommandError, Notice};
use trade_store::order::OrderType;
use trade_store::pair::Pair;
use trade_store::position::Position;
use trade_store::storage::Storage;
use trade_store::store::Store;
use trade_store::user::User;

fn user(uuid: &str, username: &str, balance: i64) -> User {
    User { uuid: String::from(uuid), username: String::from(username), balance }
}

fn store_of(users: Vec<User>, pairs: Vec<Pair>) -> Store {
    Store::new(
        Config::default(),
        pairs,
        users,
        VecDeque::new(),
        Vec::new(),
        Storage::new(Position { x: 0, y: 0, z: 0 }),
    )
    .expect("the accounts and the market records are in order")
}

fn directory_of(known: &[(&str, &str)]) -> Directory {
    let mut directory = Directory::new();
    for (name, id) in known {
        directory.record(String::from(*name), Ok(String::from(*id)));
    }
    directory
}

fn total(store: &Store) -> i64 {
    store.users.iter().map(|u| u.balance).sum()
}

#[test]
fn pay_creates_the_payee_and_moves_the_money() {
    let mut store = store_of(vec![user("id-alice", "alice", 100)], vec![]);
    let directory = directory_of(&[("alice", "id-alice"), ("bob", "id-bob")]);
    assert_eq!(store.pay(&directory, "alice", "bob", 50), Ok(()));
    assert_eq!(store.users, vec![user("id-alice", "alice", 50), user("id-bob", "bob", 50)]);
    assert!(store.check());
}

#[test]
fn pay_credits_a_payee_who_has_an_account() {
    let mut store =
        store_of(vec![user("a", "alice", 100), user("c", "carol", 1), user("b", "bob", 7)], vec![]);
    let directory = directory_of(&[("alice", "a"), ("bob", "b")]);
    assert_eq!(store.pay(&directory, "alice", "bob", 100), Ok(()));
    assert_eq!(
        store.users,
        vec![user("a", "alice", 0), user("c", "carol", 1), user("b", "bob", 107)]
    );
}

#[test]
fn pay_refreshes_both_display_names() {
    let mut store = store_of(vec![user("a", "old_alice", 10), user("b", "old_bob", 0)], vec![]);
    let directory = directory_of(&[("alice", "a"), ("bob", "b")]);
    assert_eq!(store.pay(&directory, "alice", "bob", 1), Ok(()));
    assert_eq!(store.users, vec![user("a", "alice", 9), user("b", "bob", 1)]);
}

#[test]
fn pay_to_oneself_changes_no_balance() {
    let mut store = store_of(vec![user("a", "alice", 10)], vec![]);
    let directory = directory_of(&[("alice", "a"), ("alicia", "a")]);
    assert_eq!(store.pay(&directory, "alice", "alicia", 10), Ok(()));
    assert_eq!(store.users, vec![user("a", "alicia", 10)]);
}

#[test]
fn pay_is_refused_without_a_trace() {
    let users = vec![user("a", "alice", 100), user("b", "bob", 5)];
    let directory = directory_of(&[("alice", "a"), ("bob", "b"), ("carol", "c"), ("dave", "d")]);
    let mut unknown = Directory::new();
    unknown.record(String::from("alice"), Ok(String::from("a")));
    unknown.record(String::from("ghost"), Err(DirectoryError::NotFound));

    let cases: Vec<(&Directory, &str, &str, i64, PayError)> = vec![
        (&directory, "alice", "bob", 0, PayError::AmountNotPositive),
        (&directory, "alice", "bob", -5, PayError::AmountNotPositive),
        (
            &directory,
            "alice",
            "bob",
            101,
            PayError::InsufficientBalance { required: 101, available: 100 },
        ),
        (
            &directory,
            "alice",
            "carol",
            101,
            PayError::InsufficientBalance { required: 101, available: 100 },
        ),
        (&directory, "carol", "bob", 1, PayError::PayerMissing),
        (&directory, "carol", "dave", -1, PayError::PayerMissing),
        (&unknown, "ghost", "alice", 1, PayError::PayerUnresolved(DirectoryError::NotFound)),
        (&unknown, "alice", "ghost", 1, PayError::PayeeUnresolved(DirectoryError::NotFound)),
        (&unknown, "nobody", "ghost", 1, PayError::PayerUnresolved(DirectoryError::LookupFailed)),
        (&unknown, "alice", "nobody", 1, PayError::PayeeUnresolved(DirectoryError::LookupFailed)),
    ];
    for (dir, payer, payee, amount, why) in cases {
        let mut store = store_of(
            users.iter().map(|u| user(&u.uuid, &u.username, u.balance)).collect(),
            vec![],
        );
        assert_eq!(store.pay(dir, payer, payee, amount), Err(why));
        assert_eq!(store.users, users, "a refused payment left a trace");
    }
}

#[test]
fn pay_refusals_have_their_class() {
    assert_eq!(PayError::PayerMissing.kind(), ErrorKind::NotFound);
    assert_eq!(PayError::AmountNotPositive.kind(), ErrorKind::Validation);
    assert_eq!(
        PayError::InsufficientBalance { required: 2, available: 1 }.kind(),
        ErrorKind::Validation
    );
    assert_eq!(
        PayError::PayerUnresolved(DirectoryError::NotFound).kind(),
        ErrorKind::Validation
    );
    assert_eq!(
        PayError::PayeeUnresolved(DirectoryError::LookupFailed).kind(),
        ErrorKind::Validation
    );
    assert_eq!(CommandError::InvalidAmount.kind(), ErrorKind::Validation);
    assert_eq!(CommandError::InvalidQuantity.kind(), ErrorKind::Validation);
    assert_eq!(
        CommandError::Directory(DirectoryError::LookupFailed).kind(),
        ErrorKind::DirectoryFailure
    );
}

#[test]
fn payments_keep_the_sum_of_all_balances() {
    let mut store =
        store_of(vec![user("a", "alice", 100), user("b", "bob", 30), user("c", "carol", 0)], vec![]);
    let directory =
        directory_of(&[("alice", "a"), ("bob", "b"), ("carol", "c"), ("dave", "d")]);
    let before = total(&store);
    let payments = [
        ("alice", "bob", 40),
        ("bob", "carol", 70),
        ("carol", "dave", 1),
        ("dave", "alice", 5),
        ("alice", "dave", 59),
        ("carol", "carol", 3),
        ("bob", "alice", 0),
        ("alice", "bob", 1_000),
    ];
    for (payer, payee, amount) in payments {
        let _ = store.pay(&directory, payer, payee, amount);
        assert_eq!(total(&store), before);
        assert!(store.users.iter().all(|u| u.balance >= 0));
        assert!(store.check());
    }
    assert_eq!(
        store.users,
        vec![user("a", "alice", 1), user("b", "bob", 0), user("c", "carol", 69), user("d", "dave", 60)]
    );
}

#[test]
fn pay_can_move_the_largest_balance() {
    let mut store = store_of(vec![user("a", "alice", i64::MAX), user("b", "bob", 0)], vec![]);
    let directory = directory_of(&[("alice", "a"), ("bob", "b")]);
    assert_eq!(store.pay(&directory, "alice", "bob", i64::MAX), Ok(()));
    assert_eq!(store.users[1].balance, i64::MAX);
    assert_eq!(store.users[0].balance, 0);
}

#[test]
fn add_user_leaves_an_existing_account_alone() {
    let mut store = store_of(vec![], vec![]);
    let directory = directory_of(&[("alice", "a"), ("alice_new", "a")]);
    {
        let first = store.add_user(&directory, String::from("alice")).expect("alice resolves");
        assert_eq!(*first, user("a", "alice", 0));
    }
    store.users[0].balance = 70;
    {
        let second =
            store.add_user(&directory, String::from("alice_new")).expect("alice_new resolves");
        assert_eq!(*second, user("a", "alice", 70));
    }
    {
        let third = store.add_user(&directory, String::from("alice")).expect("alice resolves");
        assert_eq!(third.balance, 70);
    }
    assert_eq!(store.users.len(), 1);
}

#[test]
fn add_user_needs_the_directory() {
    let mut store = store_of(vec![user("a", "alice", 3)], vec![]);
    let mut directory = Directory::new();
    directory.record(String::from("ghost"), Err(DirectoryError::NotFound));
    assert_eq!(
        store.add_user(&directory, String::from("ghost")).err(),
        Some(DirectoryError::NotFound)
    );
    assert_eq!(
        store.add_user(&directory, String::from("nobody")).err(),
        Some(DirectoryError::LookupFailed)
    );
    assert_eq!(store.users, vec![user("a", "alice", 3)]);
}

#[test]
fn add_pair_leaves_an_existing_record_alone() {
    let mut store = store_of(vec![], vec![]);
    let diamond = Pair { item: String::from("diamond"), item_stock: 5, currency_stock: 500 };
    assert_eq!(*store.add_pair(String::from("diamond"), 5, 500), diamond);
    assert_eq!(*store.add_pair(String::from("diamond"), 9, 900), diamond);
    assert_eq!(store.add_pair(String::from("iron"), 1, 2).item_stock, 1);
    assert_eq!(store.pairs.len(), 2);
    assert!(store.check());
}

#[test]
fn balance_of_a_stranger_is_zero() {
    let store = store_of(vec![user("a", "alice", 12)], vec![]);
    let mut directory = directory_of(&[("alice", "a"), ("bob", "b")]);
    directory.record(String::from("ghost"), Err(DirectoryError::NotFound));
    assert_eq!(store.get_user_balance(&directory, "alice"), 12);
    assert_eq!(store.get_user_balance(&directory, "bob"), 0);
    assert_eq!(store.get_user_balance(&directory, "ghost"), 0);
    assert_eq!(store.get_user_balance(&directory, "nobody"), 0);
}

#[test]
fn price_update_needs_the_item() {
    let mut store = store_of(
        vec![],
        vec![Pair { item: String::from("diamond"), item_stock: 1, currency_stock: 1 }],
    );
    assert_eq!(store.update_item_price("diamond", 42), Ok(()));
    assert_eq!(store.update_item_price("emerald", 42), Err(ErrorKind::NotFound));
    assert_eq!(store.update_item_price("Diamond", 42), Err(ErrorKind::NotFound));
    assert_eq!(store.pairs.len(), 1);
}

#[test]
fn store_refuses_accounts_out_of_order() {
    let make = |users: Vec<User>, pairs: Vec<Pair>| {
        Store::new(
            Config::default(),
            pairs,
            users,
            VecDeque::new(),
            Vec::new(),
            Storage::new(Position { x: 0, y: 0, z: 0 }),
        )
    };
    assert!(make(vec![], vec![]).is_ok());
    assert!(make(vec![user("a", "alice", 0), user("b", "bob", i64::MAX)], vec![]).is_ok());
    assert_eq!(
        make(vec![user("a", "alice", 1), user("a", "alicia", 2)], vec![]).err(),
        Some(ErrorKind::Validation)
    );
    assert_eq!(make(vec![user("a", "alice", -1)], vec![]).err(), Some(ErrorKind::Validation));
    assert_eq!(
        make(vec![user("a", "alice", 1), user("b", "bob", i64::MAX)], vec![]).err(),
        Some(ErrorKind::Validation)
    );
    let twice = vec![
        Pair { item: String::from("iron"), item_stock: 1, currency_stock: 1 },
        Pair { item: String::from("iron"), item_stock: 2, currency_stock: 2 },
    ];
    assert_eq!(make(vec![], twice).err(), Some(ErrorKind::Validation));
}

#[test]
fn directory_answers_with_the_latest_record() {
    let mut directory = Directory::new();
    assert_eq!(directory.resolve("alice"), Err(DirectoryError::LookupFailed));
    directory.record(String::from("alice"), Err(DirectoryError::NotFound));
    assert_eq!(directory.resolve("alice"), Err(DirectoryError::NotFound));
    directory.record(String::from("bob"), Ok(String::from("b")));
    directory.record(String::from("alice"), Ok(String::from("a")));
    assert_eq!(directory.resolve("alice"), Ok(String::from("a")));
    assert_eq!(directory.resolve("bob"), Ok(String::from("b")));
    assert_eq!(directory.resolve("Alice"), Err(DirectoryError::LookupFailed));
}

#[test]
fn commands_are_read_word_by_word() {
    assert_eq!(
        Command::parse("buy diamond 10"),
        Command::Buy { item: String::from("diamond"), quantity: 10 }
    );
    assert_eq!(
        Command::parse("  sell\tiron   +256  now please "),
        Command::Sell { item: String::from("iron"), quantity: 256 }
    );
    assert_eq!(Command::parse("bal"), Command::Balance);
    assert_eq!(Command::parse("balance of power"), Command::Balance);
    assert_eq!(
        Command::parse("pay bob 50"),
        Command::Pay { recipient: String::from("bob"), amount: 50_000 }
    );
    assert_eq!(
        Command::parse("pay bob -50"),
        Command::Pay { recipient: String::from("bob"), amount: -50_000 }
    );
    assert_eq!(
        Command::parse("pay bob 2.5"),
        Command::Pay { recipient: String::from("bob"), amount: 2_500 }
    );
    assert_eq!(
        Command::parse("pay bob 0.001"),
        Command::Pay { recipient: String::from("bob"), amount: 1 }
    );
    assert_eq!(Command::parse("buy diamond"), Command::Usage(Usage::Buy));
    assert_eq!(Command::parse("sell"), Command::Usage(Usage::Sell));
    assert_eq!(Command::parse("pay bob"), Command::Usage(Usage::Pay));
    assert_eq!(Command::parse("buy diamond ten"), Command::InvalidQuantity);
    assert_eq!(Command::parse("sell diamond -1"), Command::InvalidQuantity);
    assert_eq!(Command::parse("buy diamond 4294967296"), Command::InvalidQuantity);
    assert_eq!(Command::parse("pay bob lots"), Command::InvalidAmount);
    assert_eq!(Command::parse("pay bob 1.2345"), Command::InvalidAmount);
    assert_eq!(Command::parse("pay bob 1."), Command::InvalidAmount);
    assert_eq!(Command::parse("pay bob .5"), Command::InvalidAmount);
    assert_eq!(Command::parse("pay bob 1e3"), Command::InvalidAmount);
    assert_eq!(Command::parse(""), Command::Usage(Usage::Commands));
    assert_eq!(Command::parse("   \n "), Command::Usage(Usage::Commands));
    assert_eq!(Command::parse("Buy diamond 10"), Command::Usage(Usage::Commands));
    assert_eq!(Command::parse("help"), Command::Usage(Usage::Commands));
}

#[test]
fn commands_ask_for_the_names_they_need() {
    let names = |text: &str| Command::parse(text).lookups("alice");
    assert_eq!(names("buy diamond 1"), vec!["alice"]);
    assert_eq!(names("sell diamond 1"), vec!["alice"]);
    assert_eq!(names("bal"), vec!["alice"]);
    assert_eq!(names("pay bob 5"), vec!["alice", "bob"]);
    assert_eq!(names("pay alice 5"), vec!["alice", "alice"]);
    assert_eq!(names("pay bob"), Vec::<String>::new());
    assert_eq!(names("buy diamond x"), Vec::<String>::new());
    assert_eq!(names("hello"), Vec::<String>::new());
    assert_eq!(names(""), Vec::<String>::new());
}

#[test]
fn commands_are_made_of_words() {
    let words = |ws: &[&str]| ws.iter().map(|w| String::from(*w)).collect::<Vec<String>>();
    assert_eq!(
        Command::from_tokens(&words(&["buy", "diamond", "10"])),
        Command::Buy { item: String::from("diamond"), quantity: 10 }
    );
    assert_eq!(Command::from_tokens(&words(&[])), Command::Usage(Usage::Commands));
    assert_eq!(Command::from_tokens(&words(&["pay", "bob"])), Command::Usage(Usage::Pay));
    assert_eq!(Command::from_tokens(&words(&["bal", "x"])), Command::Balance);
}

#[test]
fn balance_of_a_new_player_is_reported_as_zero() {
    let mut store = store_of(vec![], vec![]);
    let directory = directory_of(&[("newcomer", "n")]);
    let notice = store.handle_player_command(&directory, "newcomer", "bal").expect("an answer");
    assert_eq!(notice, Notice::Balance { player: String::from("newcomer"), balance: 0 });
    assert_eq!(notice.text(), "newcomer's balance: 0 diamonds");
    assert!(store.users.is_empty());
}

#[test]
fn buying_what_is_not_traded_is_turned_down() {
    let mut store = store_of(vec![], vec![]);
    let directory = directory_of(&[("alice", "a")]);
    let notice =
        store.handle_player_command(&directory, "alice", "buy diamond 10").expect("an answer");
    assert_eq!(notice, Notice::ItemUnavailable { item: String::from("diamond") });
    assert_eq!(notice.text(), "Item 'diamond' is not available for trading");
    assert!(store.orders.is_empty());
    assert_eq!(store.users, vec![user("a", "alice", 0)]);
}

#[test]
fn orders_for_traded_items_are_confirmed() {
    let mut store = store_of(
        vec![user("a", "alice", 5)],
        vec![Pair { item: String::from("diamond"), item_stock: 1, currency_stock: 1 }],
    );
    let directory = directory_of(&[("alice", "a"), ("bob", "b")]);
    let bought =
        store.handle_player_command(&directory, "alice", "buy diamond 10").expect("an answer");
    assert_eq!(
        bought,
        Notice::OrderCreated {
            order_type: OrderType::Buy,
            quantity: 10,
            item: String::from("diamond")
        }
    );
    assert_eq!(bought.text(), "Created buy order for 10 diamond");
    let sold =
        store.handle_player_command(&directory, "bob", "sell diamond 3").expect("an answer");
    assert_eq!(sold.text(), "Created sell order for 3 diamond");
    assert_eq!(store.users, vec![user("a", "alice", 5), user("b", "bob", 0)]);
    assert!(store.orders.is_empty());
    assert_eq!(
        store.handle_buy_order(&directory, "alice", "iron", 1),
        Ok(Notice::ItemUnavailable { item: String::from("iron") })
    );
    assert_eq!(
        store.handle_sell_order(&directory, "alice", "diamond", 2).map(|n| n.text()),
        Ok(String::from("Created sell order for 2 diamond"))
    );
}

#[test]
fn commands_that_cannot_be_read_change_nothing() {
    let users = vec![user("a", "alice", 5)];
    let directory = directory_of(&[("alice", "a"), ("bob", "b")]);
    for (text, why) in [
        ("buy diamond many", CommandError::InvalidQuantity),
        ("sell diamond -3", CommandError::InvalidQuantity),
        ("pay bob five", CommandError::InvalidAmount),
        ("pay bob", CommandError::InvalidAmount),
    ] {
        let mut store = store_of(vec![user("a", "alice", 5)], vec![]);
        let outcome = store.handle_player_command(&directory, "alice", text);
        if text == "pay bob" {
            assert_eq!(outcome, Ok(Notice::Usage(Usage::Pay)));
        } else {
            assert_eq!(outcome, Err(why));
        }
        assert_eq!(store.users, users);
    }
    let mut store = store_of(vec![user("a", "alice", 5)], vec![]);
    assert_eq!(
        store.handle_player_command(&directory, "stranger", "buy diamond 1"),
        Err(CommandError::Directory(DirectoryError::LookupFailed))
    );
    assert_eq!(store.users, users);
}

#[test]
fn pay_command_answers_with_its_outcome() {
    let mut store = store_of(vec![user("a", "alice", 100_000)], vec![]);
    let directory = directory_of(&[("alice", "a"), ("bob", "b")]);
    let paid = store.handle_player_command(&directory, "alice", "pay bob 50").expect("an answer");
    assert_eq!(paid, Notice::Paid { amount: 50_000, recipient: String::from("bob") });
    assert_eq!(paid.text(), "Paid 50 diamonds to bob");
    assert_eq!(store.users, vec![user("a", "alice", 50_000), user("b", "bob", 50_000)]);
    let part = store.handle_player_command(&directory, "bob", "pay alice 2.5").expect("an answer");
    assert_eq!(part.text(), "Paid 2.5 diamonds to alice");
    let back = store.handle_player_command(&directory, "alice", "pay bob 2.500").expect("an answer");
    assert_eq!(back, Notice::Paid { amount: 2_500, recipient: String::from("bob") });
    let refused =
        store.handle_player_command(&directory, "alice", "pay bob 51").expect("an answer");
    assert_eq!(
        refused,
        Notice::PayRefused(PayError::InsufficientBalance { required: 51_000, available: 50_000 })
    );
    assert_eq!(refused.text(), "Insufficient balance. Required: 51, Available: 50");
    let negative =
        store.handle_player_command(&directory, "alice", "pay bob -1").expect("an answer");
    assert_eq!(negative.text(), "Amount must be positive");
    let stranger =
        store.handle_player_command(&directory, "carol", "pay bob 1").expect("an answer");
    assert_eq!(stranger.text(), "Player lookup failed");
    assert_eq!(store.users, vec![user("a", "alice", 50_000), user("b", "bob", 50_000)]);
}

#[test]
fn notices_read_as_they_should() {
    assert_eq!(Notice::Usage(Usage::Buy).text(), "Usage: buy <item> <quantity>");
    assert_eq!(Notice::Usage(Usage::Sell).text(), "Usage: sell <item> <quantity>");
    assert_eq!(Notice::Usage(Usage::Pay).text(), "Usage: pay <player> <amount>");
    assert_eq!(
        Notice::Usage(Usage::Commands).text(),
        "Available commands: buy, sell, balance, pay"
    );
    assert_eq!(
        Notice::Balance { player: String::from("bob"), balance: -12 }.text(),
        "bob's balance: -0.012 diamonds"
    );
    assert_eq!(
        Notice::Balance { player: String::from("bob"), balance: 12_340 }.text(),
        "bob's balance: 12.34 diamonds"
    );
    assert_eq!(
        PayError::InsufficientBalance { required: 1_500, available: 20 }.text(),
        "Insufficient balance. Required: 1.5, Available: 0.02"
    );
    assert_eq!(
        Notice::OrderCreated {
            order_type: OrderType::Withdraw,
            quantity: u32::MAX,
            item: String::from("oak log")
        }
        .text(),
        "Created withdraw order for 4294967295 oak log"
    );
    assert_eq!(PayError::PayerMissing.text(), "Payer not found");
    assert_eq!(PayError::PayeeUnresolved(DirectoryError::NotFound).text(), "Player not found");
    assert_eq!(
        PayError::PayerUnresolved(DirectoryError::LookupFailed).text(),
        "Player lookup failed"
    );
}

#[test]
fn console_requests_leave_the_store_alone() {
    let mut store = store_of(
        vec![user("a", "alice", 5), user("b", "bob", 6)],
        vec![Pair { item: String::from("diamond"), item_stock: 1, currency_stock: 1 }],
    );
    assert_eq!(
        store.handle_cli_message(&CliMessage::QueryBalances),
        CliAction::ReplyBalances(vec![user("a", "alice", 5), user("b", "bob", 6)])
    );
    assert_eq!(
        store.handle_cli_message(&CliMessage::UpdatePrice {
            item_name: String::from("diamond"),
            new_price: 3
        }),
        CliAction::ReplyPrice(Ok(()))
    );
    assert_eq!(
        store.handle_cli_message(&CliMessage::UpdatePrice {
            item_name: String::from("coal"),
            new_price: 3
        }),
        CliAction::ReplyPrice(Err(ErrorKind::NotFound))
    );
    assert_eq!(
        store.handle_cli_message(&CliMessage::RestartBot),
        CliAction::Forward(BotInstruction::Restart)
    );
    assert_eq!(
        store.handle_cli_message(&CliMessage::Shutdown),
        CliAction::Forward(BotInstruction::Shutdown)
    );
    assert_eq!(store.users, vec![user("a", "alice", 5), user("b", "bob", 6)]);
    assert_eq!(restart_reply(true), Ok(()));
    assert_eq!(restart_reply(false), Err(ErrorKind::ChannelClosed));
}

#[test]
fn messages_are_handled_one_by_one() {
    let mut store = store_of(vec![user("a", "alice", 5_000)], vec![]);
    let directory = directory_of(&[("alice", "a"), ("bob", "b")]);
    let whisper = StoreMessage::FromBot(BotMessage::PlayerCommand {
        player_name: String::from("alice"),
        command: String::from("pay bob 2"),
    });
    assert_eq!(
        store.handle_message(&directory, &whisper),
        Outcome::Player(Ok(Notice::Paid { amount: 2_000, recipient: String::from("bob") }))
    );
    assert_eq!(
        store.handle_message(&directory, &StoreMessage::FromCli(CliMessage::QueryBalances)),
        Outcome::Console(CliAction::ReplyBalances(vec![
            user("a", "alice", 3_000),
            user("b", "bob", 2_000)
        ]))
    );
    assert_eq!(
        store.handle_bot_message(
            &directory,
            &BotMessage::PlayerCommand {
                player_name: String::from("bob"),
                command: String::from("balance")
            }
        ),
        Ok(Notice::Balance { player: String::from("bob"), balance: 2_000 })
    );
}

#[test]
fn default_settings() {
    let config = Config::default();
    assert_eq!(config.position, Position { x: 0, y: 0, z: 0 });
    assert_eq!(config.fee, 0);
    assert_eq!(config.account_email, "");
    assert_eq!(config.server_address, "corejourney.org");
    assert_eq!(Position::default(), Position::new(0, 0, 0));
    let (made, to_write) = Config::load(None);
    assert_eq!(made, Config::default());
    assert!(to_write);
    let found = Config {
        position: Position { x: 1, y: 2, z: 3 },
        fee: 4,
        account_email: String::from("agent@example.org"),
        server_address: String::from("play.example.org"),
    };
    let (kept, to_write) = Config::load(Some(Config {
        position: Position { x: 1, y: 2, z: 3 },
        fee: 4,
        account_email: String::from("agent@example.org"),
        server_address: String::from("play.example.org"),
    }));
    assert_eq!(kept, found);
    assert!(!to_write);
    assert_eq!(Config::CONFIG_FILE, "data/config.json");
}
