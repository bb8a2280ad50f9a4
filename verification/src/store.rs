//! The store: the one owner of all accounts, items, orders and trades.
//!
//! Every change to the economy is a method of [`Store`]. The methods take the state they
//! find to the next state and say what is to be told to whom; sending it is the caller's.

use std::collections::VecDeque;
use vstd::prelude::*;
use crate::command::{command_of, names_needed, whitespace_words, Command, CommandView};
use crate::config::Config;
use crate::directory::{lookup, Directory, DirectoryEntryView, DirectoryError};
use crate::error::{ErrorKind, PayError};
use crate::messages::{
    BotInstruction, BotMessage, CliAction, CliMessage, Outcome, StoreMessage,
};
use crate::notice::{reply_view, CommandError, Notice, NoticeView};
use crate::order::{Order, OrderType};
use crate::pair::{
    check_pairs, distinct_pairs, find_pair, has_pair, markets_of, Pair, PairView,
};
use crate::repository::{json_name, names_of, orphan_names, stems_of, SavePlan};
use crate::storage::{storage_files, Storage};
use crate::trade::{all_timed, trade_file_names, Trade};
use crate::user::{
    account_index, accounts_of, accounts_wf, balance_of, check_accounts, find_account,
    lemma_account_index_unique, lemma_balance_within_total, lemma_total_push,
    lemma_total_update, total_balance, with_account, User, UserView,
};

verus! {

/// Whether a payment of `amount` between the players that the directory resolved goes
/// through on `users`, and if not, why not. The checks come in this order: both names
/// resolve, the payer has an account, the amount is positive, the payer can afford it.
pub open spec fn pay_outcome(
    users: Seq<UserView>,
    payer_id: Result<Seq<char>, DirectoryError>,
    payee_id: Result<Seq<char>, DirectoryError>,
    amount: int,
) -> Result<(), PayError> {
    match (payer_id, payee_id) {
        (Err(e), _) => Err(PayError::PayerUnresolved(e)),
        (Ok(_), Err(e)) => Err(PayError::PayeeUnresolved(e)),
        (Ok(payer), Ok(_)) => match account_index(users, payer) {
            None => Err(PayError::PayerMissing),
            Some(i) => if amount <= 0 {
                Err(PayError::AmountNotPositive)
            } else if users[i].balance < amount {
                Err(
                    PayError::InsufficientBalance {
                        required: amount as i64,
                        available: users[i].balance as i64,
                    },
                )
            } else {
                Ok(())
            },
        },
    }
}

/// The accounts after `amount` went from `payer` to `payee`: the payer's balance is down
/// by the amount and the payee's up by it, a payee without account has got one, and both
/// carry the display name under which they were just seen.
pub open spec fn paid(
    users: Seq<UserView>,
    payer: Seq<char>,
    payer_name: Seq<char>,
    payee: Seq<char>,
    payee_name: Seq<char>,
    amount: int,
) -> Seq<UserView> {
    let i = account_index(users, payer)->0;
    let debited = users.update(
        i,
        UserView { uuid: payer, username: payer_name, balance: users[i].balance - amount },
    );
    match account_index(debited, payee) {
        Some(j) => debited.update(
            j,
            UserView { uuid: payee, username: payee_name, balance: debited[j].balance + amount },
        ),
        None => debited.push(UserView { uuid: payee, username: payee_name, balance: amount }),
    }
}

/// The answer to an order for `quantity` of `item`: taken where the item is traded,
/// turned down where it is not.
pub open spec fn order_reply(
    markets: Seq<PairView>,
    order_type: OrderType,
    item: Seq<char>,
    quantity: u32,
) -> NoticeView {
    if has_pair(markets, item) {
        NoticeView::OrderCreated { order_type, quantity, item }
    } else {
        NoticeView::ItemUnavailable { item }
    }
}

/// What the player `player` is answered for `command`, with the accounts `users`, the
/// market records `markets` and the directory's answers `directory`.
pub open spec fn command_reply(
    users: Seq<UserView>,
    markets: Seq<PairView>,
    directory: Seq<DirectoryEntryView>,
    player: Seq<char>,
    command: CommandView,
) -> Result<NoticeView, CommandError> {
    match command {
        CommandView::Buy { item, quantity } => match lookup(directory, player) {
            Ok(_) => Ok(order_reply(markets, OrderType::Buy, item, quantity)),
            Err(e) => Err(CommandError::Directory(e)),
        },
        CommandView::Sell { item, quantity } => match lookup(directory, player) {
            Ok(_) => Ok(order_reply(markets, OrderType::Sell, item, quantity)),
            Err(e) => Err(CommandError::Directory(e)),
        },
        CommandView::Balance => Ok(
            NoticeView::Balance {
                player,
                balance: balance_of(users, lookup(directory, player)) as i64,
            },
        ),
        CommandView::Pay { recipient, amount } => match pay_outcome(
            users,
            lookup(directory, player),
            lookup(directory, recipient),
            amount as int,
        ) {
            Ok(_) => Ok(NoticeView::Paid { amount, recipient }),
            Err(e) => Ok(NoticeView::PayRefused(e)),
        },
        CommandView::InvalidQuantity => Err(CommandError::InvalidQuantity),
        CommandView::InvalidAmount => Err(CommandError::InvalidAmount),
        CommandView::Usage(u) => Ok(NoticeView::Usage(u)),
    }
}

/// The accounts after `command` of the player `player` was carried out on `users`.
/// An order gives its player an account; a payment that goes through moves the money;
/// everything else leaves the accounts alone.
pub open spec fn accounts_after(
    users: Seq<UserView>,
    directory: Seq<DirectoryEntryView>,
    player: Seq<char>,
    command: CommandView,
) -> Seq<UserView> {
    match command {
        CommandView::Buy { .. } | CommandView::Sell { .. } => match lookup(directory, player) {
            Ok(id) => with_account(users, id, player),
            Err(_) => users,
        },
        CommandView::Pay { recipient, amount } => if pay_outcome(
            users,
            lookup(directory, player),
            lookup(directory, recipient),
            amount as int,
        ) is Ok {
            paid(
                users,
                lookup(directory, player)->Ok_0,
                player,
                lookup(directory, recipient)->Ok_0,
                recipient,
                amount as int,
            )
        } else {
            users
        },
        _ => users,
    }
}

/// What a command leads to depends on the directory's answers for the names that the
/// command needs, and on no other answer.
pub proof fn lemma_only_needed_names_matter(
    users: Seq<UserView>,
    markets: Seq<PairView>,
    directory: Seq<DirectoryEntryView>,
    other: Seq<DirectoryEntryView>,
    player: Seq<char>,
    command: CommandView,
)
    requires
        forall|i: int|
            0 <= i < names_needed(player, command).len() ==> lookup(
                directory,
                #[trigger] names_needed(player, command)[i],
            ) == lookup(other, names_needed(player, command)[i]),
    ensures
        command_reply(users, markets, directory, player, command) == command_reply(
            users,
            markets,
            other,
            player,
            command,
        ),
        accounts_after(users, directory, player, command) == accounts_after(
            users,
            other,
            player,
            command,
        ),
{
    let needed = names_needed(player, command);
    if needed.len() > 0 {
        assert(needed[0] == player);
    }
    if needed.len() > 1 {
        assert(lookup(directory, needed[1]) == lookup(other, needed[1]));
    }
}

/// No command closes an account or hands it to another player: after a command, every
/// account that was there is still there, at its place and with its identifier.
pub proof fn lemma_accounts_keep_their_players(
    users: Seq<UserView>,
    directory: Seq<DirectoryEntryView>,
    player: Seq<char>,
    command: CommandView,
    i: int,
)
    requires
        0 <= i < users.len(),
    ensures
        i < accounts_after(users, directory, player, command).len(),
        accounts_after(users, directory, player, command)[i].uuid == users[i].uuid,
{
    match command {
        CommandView::Pay { recipient, amount } => {
            let payer_id = lookup(directory, player);
            let payee_id = lookup(directory, recipient);
            if pay_outcome(users, payer_id, payee_id, amount as int) is Ok {
                let payer = payer_id->Ok_0;
                let at = account_index(users, payer)->0;
                assert(users[at].uuid == payer);
            }
        },
        _ => {},
    }
}

/// The files of the directories that a save mirrors, as they are found.
#[derive(Debug, PartialEq, Eq)]
pub struct Listings {
    pub pairs: Vec<String>,
    pub users: Vec<String>,
    pub trades: Vec<String>,
}

/// What a save of the whole store writes and removes.
#[derive(Debug, PartialEq, Eq)]
pub struct StorePlan {
    pub pairs: SavePlan,
    pub users: SavePlan,
    /// `None` where a trade was made at no time: then no trade is saved.
    pub trades: Option<SavePlan>,
    /// The file of the order queue.
    pub orders: String,
    /// The files of the chests.
    pub chests: Vec<String>,
}

/// Whether `action` is what is to be done about the request `message` of the console:
/// the accounts are answered with a copy of all of them, a price update with `NotFound`
/// where the item is not traded, and restart and shutdown are passed on.
pub open spec fn is_cli_action(store: &Store, message: CliMessage, action: CliAction) -> bool {
    match message {
        CliMessage::QueryBalances => action matches CliAction::ReplyBalances(copy) && copy@
            == store.users@,
        CliMessage::UpdatePrice { item_name, new_price } => action == CliAction::ReplyPrice(
            if has_pair(store.markets(), item_name@) {
                Ok(())
            } else {
                Err(ErrorKind::NotFound)
            },
        ),
        CliMessage::RestartBot => action == CliAction::Forward(BotInstruction::Restart),
        CliMessage::Shutdown => action == CliAction::Forward(BotInstruction::Shutdown),
    }
}

/// One payment to be made: who pays whom how much.
pub struct Payment {
    pub payer: Seq<char>,
    pub payee: Seq<char>,
    pub amount: int,
}

/// The accounts after the payment `payment` was asked for: as [`paid`] leaves them where
/// the payment goes through, and as they were where it is refused.
pub open spec fn after_payment(
    users: Seq<UserView>,
    directory: Seq<DirectoryEntryView>,
    payment: Payment,
) -> Seq<UserView> {
    if pay_outcome(
        users,
        lookup(directory, payment.payer),
        lookup(directory, payment.payee),
        payment.amount,
    ) is Ok {
        paid(
            users,
            lookup(directory, payment.payer)->Ok_0,
            payment.payer,
            lookup(directory, payment.payee)->Ok_0,
            payment.payee,
            payment.amount,
        )
    } else {
        users
    }
}

/// The accounts after the payments `payments` were asked for, one after the other.
pub open spec fn after_payments(
    users: Seq<UserView>,
    directory: Seq<DirectoryEntryView>,
    payments: Seq<Payment>,
) -> Seq<UserView>
    decreases payments.len(),
{
    if payments.len() == 0 {
        users
    } else {
        after_payment(
            after_payments(users, directory, payments.drop_last()),
            directory,
            payments.last(),
        )
    }
}

/// A payment moves money and makes none: whether it goes through or not, the sum of all
/// balances is what it was, and the accounts are in order as before.
pub proof fn lemma_payment_conserves(
    users: Seq<UserView>,
    directory: Seq<DirectoryEntryView>,
    payment: Payment,
)
    requires
        accounts_wf(users),
    ensures
        total_balance(after_payment(users, directory, payment)) == total_balance(users),
        accounts_wf(after_payment(users, directory, payment)),
{
    let payer_id = lookup(directory, payment.payer);
    let payee_id = lookup(directory, payment.payee);
    if pay_outcome(users, payer_id, payee_id, payment.amount) is Ok {
        let payer = payer_id->Ok_0;
        let payee = payee_id->Ok_0;
        let i = account_index(users, payer)->0;
        let debit = UserView {
            uuid: payer,
            username: payment.payer,
            balance: users[i].balance - payment.amount,
        };
        let debited = users.update(i, debit);
        lemma_total_update(users, i, debit);
        lemma_balance_within_total(users, i);
        assert(accounts_wf(debited));
        match account_index(debited, payee) {
            Some(j) => {
                let credit = UserView {
                    uuid: payee,
                    username: payment.payee,
                    balance: debited[j].balance + payment.amount,
                };
                lemma_total_update(debited, j, credit);
                lemma_balance_within_total(debited, j);
            },
            None => {
                let fresh = UserView {
                    uuid: payee,
                    username: payment.payee,
                    balance: payment.amount,
                };
                lemma_total_push(debited, fresh);
                let after = debited.push(fresh);
                assert forall|a: int, b: int|
                    0 <= a < after.len() && 0 <= b < after.len() && a != b implies after[a].uuid
                    != after[b].uuid by {
                    if a < debited.len() && b < debited.len() {
                        assert(debited[a].uuid != debited[b].uuid);
                    } else if a < debited.len() {
                        assert(debited[a].uuid != payee);
                    } else {
                        assert(debited[b].uuid != payee);
                    }
                }
            },
        }
    }
}

/// However many payments are asked for, and whichever of them go through, the sum of
/// all balances stays what it was.
pub proof fn lemma_payments_conserve(
    users: Seq<UserView>,
    directory: Seq<DirectoryEntryView>,
    payments: Seq<Payment>,
)
    requires
        accounts_wf(users),
    ensures
        total_balance(after_payments(users, directory, payments)) == total_balance(users),
        accounts_wf(after_payments(users, directory, payments)),
    decreases payments.len(),
{
    if payments.len() > 0 {
        lemma_payments_conserve(users, directory, payments.drop_last());
        lemma_payment_conserves(
            after_payments(users, directory, payments.drop_last()),
            directory,
            payments.last(),
        );
    }
}

/// All that the economy consists of.
#[derive(Debug, PartialEq, Eq)]
pub struct Store {
    pub config: Config,
    pub pairs: Vec<Pair>,
    pub users: Vec<User>,
    /// The order queue: the order that came first is at the front.
    pub orders: VecDeque<Order>,
    pub trades: Vec<Trade>,
    pub storage: Storage,
}

impl Store {
    /// The accounts as mathematical values.
    pub open spec fn accounts(&self) -> Seq<UserView> {
        accounts_of(self.users@)
    }

    /// The market records as mathematical values.
    pub open spec fn markets(&self) -> Seq<PairView> {
        markets_of(self.pairs@)
    }

    /// Whether all but the accounts is as in `other`.
    pub open spec fn rest_as(&self, other: &Store) -> bool {
        &&& self.config == other.config
        &&& self.pairs == other.pairs
        &&& self.orders == other.orders
        &&& self.trades == other.trades
        &&& self.storage == other.storage
    }

    /// What every method expects and keeps: one account per player, no account overdrawn,
    /// a total that fits an `i64`, and one market record per item.
    pub open spec fn wf(&self) -> bool {
        &&& accounts_wf(self.accounts())
        &&& distinct_pairs(self.markets())
    }

    /// Moves `amount` from the account of `payer_username` to that of `payee_username`,
    /// whose identifiers `directory` gives. A payee without account gets one. A payment
    /// that is refused changes nothing.
    pub fn pay(
        &mut self,
        directory: &Directory,
        payer_username: &str,
        payee_username: &str,
        amount: i64,
    ) -> (r: Result<(), PayError>)
        requires
            old(self).wf(),
        ensures
            final(self).wf(),
            r == pay_outcome(
                old(self).accounts(),
                directory.spec_resolve(payer_username@),
                directory.spec_resolve(payee_username@),
                amount as int,
            ),
            r is Err ==> *final(self) == *old(self),
            r is Ok ==> final(self).accounts() == paid(
                old(self).accounts(),
                directory.spec_resolve(payer_username@)->Ok_0,
                payer_username@,
                directory.spec_resolve(payee_username@)->Ok_0,
                payee_username@,
                amount as int,
            ),
            total_balance(final(self).accounts()) == total_balance(old(self).accounts()),
            final(self).rest_as(old(self)),
    {
        let payer_id = match directory.resolve(payer_username) {
            Ok(id) => id,
            Err(e) => {
                return Err(PayError::PayerUnresolved(e));
            },
        };
        let payee_id = match directory.resolve(payee_username) {
            Ok(id) => id,
            Err(e) => {
                return Err(PayError::PayeeUnresolved(e));
            },
        };
        let i = match find_account(&self.users, payer_id.as_str()) {
            Some(i) => i,
            None => {
                return Err(PayError::PayerMissing);
            },
        };
        let ghost before = self.accounts();
        proof {
            assert(before[i as int] == self.users[i as int]@);
            lemma_account_index_unique(before, payer_id@, i as int);
            lemma_balance_within_total(before, i as int);
        }
        if amount <= 0 {
            return Err(PayError::AmountNotPositive);
        }
        let available = self.users[i].balance;
        if available < amount {
            return Err(PayError::InsufficientBalance { required: amount, available });
        }
        self.users[i].balance = available - amount;
        self.users[i].username = payer_username.to_owned();
        let ghost debited = before.update(
            i as int,
            UserView {
                uuid: payer_id@,
                username: payer_username@,
                balance: before[i as int].balance - amount,
            },
        );
        proof {
            assert(self.accounts() =~= debited);
            lemma_total_update(before, i as int, debited[i as int]);
            assert(accounts_wf(debited));
        }
        match find_account(&self.users, payee_id.as_str()) {
            Some(j) => {
                proof {
                    assert(debited[j as int] == self.users[j as int]@);
                    lemma_account_index_unique(debited, payee_id@, j as int);
                    lemma_balance_within_total(debited, j as int);
                    lemma_total_update(
                        debited,
                        j as int,
                        UserView {
                            uuid: payee_id@,
                            username: payee_username@,
                            balance: debited[j as int].balance + amount,
                        },
                    );
                }
                let credited = self.users[j].balance + amount;
                self.users[j].balance = credited;
                self.users[j].username = payee_username.to_owned();
                proof {
                    assert(self.accounts() =~= debited.update(
                        j as int,
                        UserView {
                            uuid: payee_id@,
                            username: payee_username@,
                            balance: debited[j as int].balance + amount,
                        },
                    ));
                }
            },
            None => {
                proof {
                    lemma_total_push(
                        debited,
                        UserView { uuid: payee_id@, username: payee_username@, balance: amount as int },
                    );
                }
                self.users.push(
                    User { uuid: payee_id, username: payee_username.to_owned(), balance: amount },
                );
                proof {
                    assert(self.accounts() =~= debited.push(
                        UserView { uuid: payee_id@, username: payee_username@, balance: amount as int },
                    ));
                }
            },
        }
        Ok(())
    }

    /// The balance that `username` is shown: that of the player's account, and zero for a
    /// player without account or a name that `directory` does not resolve.
    pub open spec fn spec_balance(&self, directory: &Directory, username: Seq<char>) -> int {
        balance_of(self.accounts(), directory.spec_resolve(username))
    }

    /// The balance of `username`; zero where the player has no account or the name does
    /// not resolve.
    pub fn get_user_balance(&self, directory: &Directory, username: &str) -> (balance: i64)
        requires
            self.wf(),
        ensures
            balance == self.spec_balance(directory, username@),
    {
        match directory.resolve(username) {
            Ok(id) => match find_account(&self.users, id.as_str()) {
                Some(i) => {
                    proof {
                        assert(self.accounts()[i as int] == self.users[i as int]@);
                        lemma_account_index_unique(self.accounts(), id@, i as int);
                    }
                    self.users[i].balance
                },
                None => 0,
            },
            Err(_) => 0,
        }
    }

    /// Makes sure that the player behind `username` has an account, and hands it out.
    /// An account that exists is left as it is, balance and display name included; a new
    /// one starts empty under `username`. Where `directory` does not resolve the name,
    /// nothing changes and the directory's reason comes back.
    pub fn add_user(&mut self, directory: &Directory, username: String) -> (r: Result<
        &User,
        DirectoryError,
    >)
        requires
            old(self).wf(),
        ensures
            final(self).wf(),
            final(self).rest_as(old(self)),
            match directory.spec_resolve(username@) {
                Err(e) => r == Err::<&User, DirectoryError>(e) && *final(self) == *old(self),
                Ok(id) => match account_index(old(self).accounts(), id) {
                    Some(i) => *final(self) == *old(self) && r == Ok::<&User, DirectoryError>(
                        &old(self).users[i],
                    ),
                    None => r is Ok && r->Ok_0@ == (UserView {
                        uuid: id,
                        username: username@,
                        balance: 0,
                    }) && final(self).accounts() == old(self).accounts().push(r->Ok_0@),
                },
            },
            directory.spec_resolve(username@) matches Ok(id) ==> final(self).accounts()
                == with_account(old(self).accounts(), id, username@),
    {
        let id = match directory.resolve(username.as_str()) {
            Ok(id) => id,
            Err(e) => {
                return Err(e);
            },
        };
        let ghost before = self.accounts();
        let at = match find_account(&self.users, id.as_str()) {
            Some(i) => {
                proof {
                    assert(before[i as int] == self.users[i as int]@);
                    lemma_account_index_unique(before, id@, i as int);
                }
                i
            },
            None => {
                let ghost fresh = UserView { uuid: id@, username: username@, balance: 0 };
                proof {
                    lemma_total_push(before, fresh);
                }
                self.users.push(User::new(id, username));
                proof {
                    assert(self.accounts() =~= before.push(fresh));
                }
                self.users.len() - 1
            },
        };
        Ok(&self.users[at])
    }

    /// Makes sure that `item` has a market record, and hands it out. A record that exists
    /// is left as it is, whatever stocks are given here; a new one starts with them.
    pub fn add_pair(&mut self, item: String, item_stock: i32, currency_stock: i64) -> (r: &Pair)
        requires
            old(self).wf(),
        ensures
            final(self).wf(),
            final(self).users == old(self).users,
            final(self).config == old(self).config,
            final(self).orders == old(self).orders,
            final(self).trades == old(self).trades,
            final(self).storage == old(self).storage,
            if has_pair(old(self).markets(), item@) {
                *final(self) == *old(self) && exists|i: int|
                    0 <= i < old(self).pairs.len() && r == &old(self).pairs[i] && r.item@
                        == item@
            } else {
                r@ == (PairView {
                    item: item@,
                    item_stock: item_stock as int,
                    currency_stock: currency_stock as int,
                }) && final(self).markets() == old(self).markets().push(r@)
            },
    {
        let ghost before = self.markets();
        let at = match find_pair(&self.pairs, item.as_str()) {
            Some(i) => i,
            None => {
                let ghost fresh = PairView {
                    item: item@,
                    item_stock: item_stock as int,
                    currency_stock: currency_stock as int,
                };
                self.pairs.push(Pair { item, item_stock, currency_stock });
                proof {
                    assert(self.markets() =~= before.push(fresh));
                }
                self.pairs.len() - 1
            },
        };
        &self.pairs[at]
    }

    /// Sets the price of `item_name`. Market records hold no price so far, so that the
    /// store stays as it is; the answer says whether the item is traded at all.
    pub fn update_item_price(&mut self, item_name: &str, new_price: i64) -> (r: Result<
        (),
        ErrorKind,
    >)
        ensures
            *final(self) == *old(self),
            r == (if has_pair(old(self).markets(), item_name@) {
                Ok::<(), ErrorKind>(())
            } else {
                Err::<(), ErrorKind>(ErrorKind::NotFound)
            }),
    {
        match find_pair(&self.pairs, item_name) {
            Some(_) => Ok(()),
            None => Err(ErrorKind::NotFound),
        }
    }

    /// Takes an order of `order_type` for `quantity` of `item` from `player_name`. The
    /// player gets an account if there is none yet. Orders are not queued so far: the
    /// answer says whether the item is traded. Where `directory` does not resolve the
    /// player's name, nothing changes.
    pub fn handle_order(
        &mut self,
        directory: &Directory,
        order_type: OrderType,
        player_name: &str,
        item: &str,
        quantity: u32,
    ) -> (r: Result<Notice, CommandError>)
        requires
            old(self).wf(),
        ensures
            final(self).wf(),
            final(self).rest_as(old(self)),
            match directory.spec_resolve(player_name@) {
                Ok(id) => reply_view(r) == Ok::<NoticeView, CommandError>(
                    order_reply(old(self).markets(), order_type, item@, quantity),
                ) && final(self).accounts() == with_account(
                    old(self).accounts(),
                    id,
                    player_name@,
                ),
                Err(e) => r == Err::<Notice, CommandError>(CommandError::Directory(e))
                    && *final(self) == *old(self),
            },
            total_balance(final(self).accounts()) == total_balance(old(self).accounts()),
    {
        proof {
            if directory.spec_resolve(player_name@) is Ok {
                let id = directory.spec_resolve(player_name@)->Ok_0;
                if account_index(self.accounts(), id) is None {
                    lemma_total_push(
                        self.accounts(),
                        UserView { uuid: id, username: player_name@, balance: 0 },
                    );
                }
            }
        }
        match self.add_user(directory, player_name.to_owned()) {
            Ok(_) => {},
            Err(e) => {
                return Err(CommandError::Directory(e));
            },
        }
        match find_pair(&self.pairs, item) {
            Some(_) => Ok(Notice::OrderCreated { order_type, quantity, item: item.to_owned() }),
            None => Ok(Notice::ItemUnavailable { item: item.to_owned() }),
        }
    }

    /// Takes a buy order: [`Store::handle_order`] with `OrderType::Buy`.
    pub fn handle_buy_order(
        &mut self,
        directory: &Directory,
        player_name: &str,
        item: &str,
        quantity: u32,
    ) -> (r: Result<Notice, CommandError>)
        requires
            old(self).wf(),
        ensures
            final(self).wf(),
            reply_view(r) == command_reply(
                old(self).accounts(),
                old(self).markets(),
                directory@,
                player_name@,
                CommandView::Buy { item: item@, quantity },
            ),
            final(self).accounts() == accounts_after(
                old(self).accounts(),
                directory@,
                player_name@,
                CommandView::Buy { item: item@, quantity },
            ),
            r is Err ==> *final(self) == *old(self),
            final(self).rest_as(old(self)),
            total_balance(final(self).accounts()) == total_balance(old(self).accounts()),
    {
        self.handle_order(directory, OrderType::Buy, player_name, item, quantity)
    }

    /// Takes a sell order: [`Store::handle_order`] with `OrderType::Sell`.
    pub fn handle_sell_order(
        &mut self,
        directory: &Directory,
        player_name: &str,
        item: &str,
        quantity: u32,
    ) -> (r: Result<Notice, CommandError>)
        requires
            old(self).wf(),
        ensures
            final(self).wf(),
            reply_view(r) == command_reply(
                old(self).accounts(),
                old(self).markets(),
                directory@,
                player_name@,
                CommandView::Sell { item: item@, quantity },
            ),
            final(self).accounts() == accounts_after(
                old(self).accounts(),
                directory@,
                player_name@,
                CommandView::Sell { item: item@, quantity },
            ),
            r is Err ==> *final(self) == *old(self),
            final(self).rest_as(old(self)),
            total_balance(final(self).accounts()) == total_balance(old(self).accounts()),
    {
        self.handle_order(directory, OrderType::Sell, player_name, item, quantity)
    }

    /// Carries out `command` for the player `player_name` and says what the player is to
    /// be told. A command that cannot be carried out for want of a readable number or of
    /// the player's identifier changes nothing, and so does every command that is
    /// answered with a usage line, a balance or a refusal. No command changes the sum of
    /// all balances.
    pub fn execute(&mut self, directory: &Directory, player_name: &str, command: &Command) -> (r:
        Result<Notice, CommandError>)
        requires
            old(self).wf(),
        ensures
            final(self).wf(),
            reply_view(r) == command_reply(
                old(self).accounts(),
                old(self).markets(),
                directory@,
                player_name@,
                command@,
            ),
            final(self).accounts() == accounts_after(
                old(self).accounts(),
                directory@,
                player_name@,
                command@,
            ),
            r is Err ==> *final(self) == *old(self),
            r matches Ok(notice) && (notice is Usage || notice is Balance || notice is PayRefused)
                ==> *final(self) == *old(self),
            final(self).rest_as(old(self)),
            total_balance(final(self).accounts()) == total_balance(old(self).accounts()),
    {
        match command {
            Command::Buy { item, quantity } => self.handle_buy_order(
                directory,
                player_name,
                item.as_str(),
                *quantity,
            ),
            Command::Sell { item, quantity } => self.handle_sell_order(
                directory,
                player_name,
                item.as_str(),
                *quantity,
            ),
            Command::Balance => {
                let balance = self.get_user_balance(directory, player_name);
                Ok(Notice::Balance { player: player_name.to_owned(), balance })
            },
            Command::Pay { recipient, amount } => match self.pay(
                directory,
                player_name,
                recipient.as_str(),
                *amount,
            ) {
                Ok(_) => Ok(Notice::Paid { amount: *amount, recipient: recipient.clone() }),
                Err(e) => Ok(Notice::PayRefused(e)),
            },
            Command::InvalidQuantity => Err(CommandError::InvalidQuantity),
            Command::InvalidAmount => Err(CommandError::InvalidAmount),
            Command::Usage(u) => Ok(Notice::Usage(*u)),
        }
    }

    /// Reads the chat message `command` of the player `player_name`, carries it out and
    /// says what the player is to be told: [`Store::execute`] on the command that the
    /// words of the message make up.
    pub fn handle_player_command(
        &mut self,
        directory: &Directory,
        player_name: &str,
        command: &str,
    ) -> (r: Result<Notice, CommandError>)
        requires
            old(self).wf(),
        ensures
            final(self).wf(),
            reply_view(r) == command_reply(
                old(self).accounts(),
                old(self).markets(),
                directory@,
                player_name@,
                command_of(whitespace_words(command@)),
            ),
            final(self).accounts() == accounts_after(
                old(self).accounts(),
                directory@,
                player_name@,
                command_of(whitespace_words(command@)),
            ),
            r is Err ==> *final(self) == *old(self),
            r matches Ok(notice) && (notice is Usage || notice is Balance || notice is PayRefused)
                ==> *final(self) == *old(self),
            final(self).rest_as(old(self)),
            total_balance(final(self).accounts()) == total_balance(old(self).accounts()),
    {
        let parsed = Command::parse(command);
        self.execute(directory, player_name, &parsed)
    }

    /// Makes a store of what was loaded. `Validation` comes back where the accounts or
    /// the market records break what the store keeps: two accounts of one player, an
    /// account overdrawn, a total beyond `i64`, or two records of one item.
    pub fn new(
        config: Config,
        pairs: Vec<Pair>,
        users: Vec<User>,
        orders: VecDeque<Order>,
        trades: Vec<Trade>,
        storage: Storage,
    ) -> (r: Result<Store, ErrorKind>)
        ensures
            match r {
                Ok(store) => store.wf() && store == (Store {
                    config,
                    pairs,
                    users,
                    orders,
                    trades,
                    storage,
                }),
                Err(e) => e == ErrorKind::Validation && !(accounts_wf(accounts_of(users@))
                    && distinct_pairs(markets_of(pairs@))),
            },
    {
        if check_accounts(&users) && check_pairs(&pairs) {
            Ok(Store { config, pairs, users, orders, trades, storage })
        } else {
            Err(ErrorKind::Validation)
        }
    }

    /// Whether this store keeps what its methods expect: see [`Store::wf`].
    pub fn check(&self) -> (ok: bool)
        ensures
            ok == self.wf(),
    {
        check_accounts(&self.users) && check_pairs(&self.pairs)
    }

    /// A copy of all accounts, as they are now.
    pub fn balances(&self) -> (copy: Vec<User>)
        ensures
            copy@ == self.users@,
    {
        let mut copy: Vec<User> = Vec::new();
        let mut i: usize = 0;
        while i < self.users.len()
            invariant
                i <= self.users.len(),
                copy@ == self.users@.take(i as int),
            decreases self.users.len() - i,
        {
            copy.push(self.users[i].clone());
            assert(copy@ =~= self.users@.take(i as int + 1));
            i = i + 1;
        }
        assert(self.users@.take(i as int) =~= self.users@);
        assert(copy@ =~= self.users@);
        copy
    }

    /// Looks at the request `message` of the console and says what is to be done about
    /// it. No request changes the store.
    pub fn handle_cli_message(&mut self, message: &CliMessage) -> (action: CliAction)
        ensures
            *final(self) == *old(self),
            is_cli_action(old(self), *message, action),
    {
        match message {
            CliMessage::QueryBalances => CliAction::ReplyBalances(self.balances()),
            CliMessage::UpdatePrice { item_name, new_price } => CliAction::ReplyPrice(
                self.update_item_price(item_name.as_str(), *new_price),
            ),
            CliMessage::RestartBot => CliAction::Forward(BotInstruction::Restart),
            CliMessage::Shutdown => CliAction::Forward(BotInstruction::Shutdown),
        }
    }

    /// Carries out what the game session told: the command of a player, as
    /// [`Store::handle_player_command`] does.
    pub fn handle_bot_message(&mut self, directory: &Directory, message: &BotMessage) -> (r: Result<
        Notice,
        CommandError,
    >)
        requires
            old(self).wf(),
        ensures
            final(self).wf(),
            message matches BotMessage::PlayerCommand { player_name, command } && reply_view(r)
                == command_reply(
                old(self).accounts(),
                old(self).markets(),
                directory@,
                player_name@,
                command_of(whitespace_words(command@)),
            ) && final(self).accounts() == accounts_after(
                old(self).accounts(),
                directory@,
                player_name@,
                command_of(whitespace_words(command@)),
            ),
            r is Err ==> *final(self) == *old(self),
            final(self).rest_as(old(self)),
            total_balance(final(self).accounts()) == total_balance(old(self).accounts()),
    {
        match message {
            BotMessage::PlayerCommand { player_name, command } => self.handle_player_command(
                directory,
                player_name.as_str(),
                command.as_str(),
            ),
        }
    }

    /// Takes the store one message further. The store is as [`Store::handle_bot_message`]
    /// leaves it for a message of the game session, and unchanged for a request of the
    /// console; the sum of all balances is the same after every message.
    pub fn handle_message(&mut self, directory: &Directory, message: &StoreMessage) -> (outcome:
        Outcome)
        requires
            old(self).wf(),
        ensures
            final(self).wf(),
            final(self).rest_as(old(self)),
            total_balance(final(self).accounts()) == total_balance(old(self).accounts()),
            match *message {
                StoreMessage::FromBot(BotMessage::PlayerCommand { player_name, command }) => {
                    &&& outcome matches Outcome::Player(r)
                    &&& reply_view(r) == command_reply(
                        old(self).accounts(),
                        old(self).markets(),
                        directory@,
                        player_name@,
                        command_of(whitespace_words(command@)),
                    )
                    &&& final(self).accounts() == accounts_after(
                        old(self).accounts(),
                        directory@,
                        player_name@,
                        command_of(whitespace_words(command@)),
                    )
                },
                StoreMessage::FromCli(request) => {
                    &&& outcome matches Outcome::Console(action)
                    &&& is_cli_action(old(self), request, action)
                    &&& *final(self) == *old(self)
                },
            },
    {
        match message {
            StoreMessage::FromBot(told) => Outcome::Player(self.handle_bot_message(directory, told)),
            StoreMessage::FromCli(request) => Outcome::Console(self.handle_cli_message(request)),
        }
    }

    /// Plans the save of the whole store: what is written and what is removed so that
    /// the directories of the market records, the accounts and the trades mirror the
    /// store, and the files of the order queue and of the chests.
    pub fn save(&self, found: &Listings) -> (plan: StorePlan)
        ensures
            names_of(plan.pairs.writes@) == stems_of(self.pairs@).map_values(
                |stem: Seq<char>| json_name(stem),
            ),
            names_of(plan.pairs.removals@) == orphan_names(
                names_of(found.pairs@),
                names_of(plan.pairs.writes@),
            ),
            names_of(plan.users.writes@) == stems_of(self.users@).map_values(
                |stem: Seq<char>| json_name(stem),
            ),
            names_of(plan.users.removals@) == orphan_names(
                names_of(found.users@),
                names_of(plan.users.writes@),
            ),
            plan.trades is Some <==> all_timed(self.trades@),
            plan.trades matches Some(p) ==> names_of(p.writes@) == trade_file_names(self.trades@)
                && names_of(p.removals@) == orphan_names(
                names_of(found.trades@),
                names_of(p.writes@),
            ),
            plan.orders@ == "data/orders.json"@,
            names_of(plan.chests@) == storage_files(self.storage.nodes@),
    {
        StorePlan {
            pairs: Pair::save_all(&self.pairs, &found.pairs),
            users: User::save_all(&self.users, &found.users),
            trades: Trade::save_all(&self.trades, &found.trades),
            orders: "data/orders.json".to_owned(),
            chests: self.storage.save(),
        }
    }
}

} // verus!
