//! Accounts: one per player, found by the player's stable identifier.

use vstd::prelude::*;
use vstd::string::*;
use crate::directory::DirectoryError;
use crate::repository::{
    gather, gathered, json_name, names_of, orphan_names, save_all, stems_of, Keyed, SavePlan,
};
use crate::text::same_text;

verus! {

/// The account of one player. Balances are counted in thousandths of a diamond.
#[derive(Debug, PartialEq, Eq)]
pub struct User {
    /// The stable identifier: it never changes once the account exists.
    pub uuid: String,
    /// The display name last seen for this player.
    pub username: String,
    pub balance: i64,
}

/// The mathematical value of a [`User`].
pub struct UserView {
    pub uuid: Seq<char>,
    pub username: Seq<char>,
    pub balance: int,
}

impl View for User {
    type V = UserView;

    open spec fn view(&self) -> UserView {
        UserView { uuid: self.uuid@, username: self.username@, balance: self.balance as int }
    }
}

impl Clone for User {
    fn clone(&self) -> (r: User)
        ensures
            r == *self,
    {
        User { uuid: self.uuid.clone(), username: self.username.clone(), balance: self.balance }
    }
}

impl User {
    /// A fresh account for the player `uuid`, seen under `username`, with nothing in it.
    pub fn new(uuid: String, username: String) -> (u: User)
        ensures
            u.uuid == uuid,
            u.username == username,
            u.balance == 0,
    {
        User { uuid, username, balance: 0 }
    }
}

/// The sum of the balances of `users`.
pub open spec fn total_balance(users: Seq<UserView>) -> int
    decreases users.len(),
{
    if users.len() == 0 {
        0
    } else {
        total_balance(users.drop_last()) + users.last().balance
    }
}

/// The position of the account of `uuid` in `users`, or `None` where there is none.
pub open spec fn account_index(users: Seq<UserView>, uuid: Seq<char>) -> Option<int> {
    if exists|i: int| 0 <= i < users.len() && users[i].uuid == uuid {
        Some(choose|i: int| 0 <= i < users.len() && users[i].uuid == uuid)
    } else {
        None
    }
}

/// No two accounts of `users` belong to the same player.
pub open spec fn distinct_accounts(users: Seq<UserView>) -> bool {
    forall|i: int, j: int|
        0 <= i < users.len() && 0 <= j < users.len() && i != j ==> users[i].uuid != users[j].uuid
}

/// No account of `users` is overdrawn.
pub open spec fn no_debts(users: Seq<UserView>) -> bool {
    forall|i: int| 0 <= i < users.len() ==> (#[trigger] users[i]).balance >= 0
}

/// What the engine keeps true of its accounts: one account per player, no account
/// overdrawn, and a total that an `i64` can hold.
pub open spec fn accounts_wf(users: Seq<UserView>) -> bool {
    &&& distinct_accounts(users)
    &&& no_debts(users)
    &&& total_balance(users) <= i64::MAX
}

/// The balance shown for the player that the directory resolved as `id`: that of the
/// account, and zero where there is no account or no identifier.
pub open spec fn balance_of(users: Seq<UserView>, id: Result<Seq<char>, DirectoryError>) -> int {
    match id {
        Ok(uuid) => match account_index(users, uuid) {
            Some(i) => users[i].balance,
            None => 0,
        },
        Err(_) => 0,
    }
}

/// The accounts once the player `uuid` is sure to have one: as they are where the player
/// has one, and with an empty account under `username` at the end where not.
pub open spec fn with_account(users: Seq<UserView>, uuid: Seq<char>, username: Seq<char>) -> Seq<
    UserView,
> {
    if account_index(users, uuid) is Some {
        users
    } else {
        users.push(UserView { uuid, username, balance: 0 })
    }
}

/// The accounts of `users` as mathematical values.
pub open spec fn accounts_of(users: Seq<User>) -> Seq<UserView> {
    users.map_values(|u: User| u@)
}

/// Adding an account adds its balance to the total.
pub proof fn lemma_total_push(users: Seq<UserView>, user: UserView)
    ensures
        total_balance(users.push(user)) == total_balance(users) + user.balance,
{
    assert(users.push(user).drop_last() =~= users);
}

/// Replacing one account changes the total by the difference of the two balances.
pub proof fn lemma_total_update(users: Seq<UserView>, i: int, user: UserView)
    requires
        0 <= i < users.len(),
    ensures
        total_balance(users.update(i, user)) == total_balance(users) - users[i].balance
            + user.balance,
    decreases users.len(),
{
    let updated = users.update(i, user);
    if i == users.len() - 1 {
        assert(updated.drop_last() =~= users.drop_last());
    } else {
        assert(updated.drop_last() =~= users.drop_last().update(i, user));
        lemma_total_update(users.drop_last(), i, user);
    }
}

/// Where no account is overdrawn, no account holds more than the total.
pub proof fn lemma_balance_within_total(users: Seq<UserView>, i: int)
    requires
        no_debts(users),
        0 <= i < users.len(),
    ensures
        0 <= users[i].balance <= total_balance(users),
    decreases users.len(),
{
    lemma_total_nonnegative(users.drop_last());
    assert(users.last().balance >= 0);
    if i < users.len() - 1 {
        assert(users.drop_last()[i] == users[i]);
        lemma_balance_within_total(users.drop_last(), i);
    }
}

/// Where no account is overdrawn, the total is not negative.
pub proof fn lemma_total_nonnegative(users: Seq<UserView>)
    requires
        no_debts(users),
    ensures
        total_balance(users) >= 0,
    decreases users.len(),
{
    if users.len() > 0 {
        assert(users.last().balance >= 0);
        assert forall|i: int| 0 <= i < users.drop_last().len() implies (
        #[trigger] users.drop_last()[i]).balance >= 0 by {
            assert(users.drop_last()[i] == users[i]);
        }
        lemma_total_nonnegative(users.drop_last());
    }
}

/// Where every player has one account, the account of `uuid` is found at one place only.
pub proof fn lemma_account_index_unique(users: Seq<UserView>, uuid: Seq<char>, i: int)
    requires
        distinct_accounts(users),
        0 <= i < users.len(),
        users[i].uuid == uuid,
    ensures
        account_index(users, uuid) == Some(i),
{
}

/// Looks for the account of `uuid`: its position, or `None` where the player has none.
pub fn find_account(users: &Vec<User>, uuid: &str) -> (r: Option<usize>)
    ensures
        match r {
            Some(i) => i < users.len() && users[i as int].uuid@ == uuid@ && forall|k: int|
                0 <= k < i ==> users[k].uuid@ != uuid@,
            None => forall|k: int| 0 <= k < users.len() ==> users[k].uuid@ != uuid@,
        },
        r is Some <==> account_index(accounts_of(users@), uuid@) is Some,
{
    let mut i: usize = 0;
    while i < users.len()
        invariant
            i <= users.len(),
            forall|k: int| 0 <= k < i ==> users[k].uuid@ != uuid@,
        decreases users.len() - i,
    {
        if same_text(users[i].uuid.as_str(), uuid) {
            assert(accounts_of(users@)[i as int].uuid == uuid@);
            return Some(i);
        }
        i = i + 1;
    }
    assert forall|k: int| 0 <= k < accounts_of(users@).len() implies accounts_of(users@)[k].uuid
        != uuid@ by {
        assert(accounts_of(users@)[k] == users[k]@);
    }
    None
}

impl Keyed for User {
    /// An account is kept under the player's identifier.
    open spec fn spec_file_stem(&self) -> Seq<char> {
        self.uuid@
    }

    fn file_stem(&self) -> (stem: &str) {
        self.uuid.as_str()
    }
}

/// The identifier `id`, 32 characters without hyphens, written with hyphens in groups
/// of 8, 4, 4, 4 and 12. Characters after the 32nd are dropped.
pub open spec fn hyphenated(id: Seq<char>) -> Seq<char> {
    id.subrange(0, 8) + "-"@ + id.subrange(8, 12) + "-"@ + id.subrange(12, 16) + "-"@
        + id.subrange(16, 20) + "-"@ + id.subrange(20, 32)
}

/// What the directory's answer means: status 204 says that there is no such player; any
/// other status outside 200 to 299, an answer without identifier and an identifier
/// shorter than 32 characters say that the lookup failed; everything else gives the
/// identifier, with hyphens.
pub open spec fn directory_answer(status: u16, id: Option<Seq<char>>) -> Result<
    Seq<char>,
    DirectoryError,
> {
    if status == 204 {
        Err(DirectoryError::NotFound)
    } else if !(200 <= status <= 299) {
        Err(DirectoryError::LookupFailed)
    } else {
        match id {
            Some(text) => if text.len() >= 32 {
                Ok(hyphenated(text))
            } else {
                Err(DirectoryError::LookupFailed)
            },
            None => Err(DirectoryError::LookupFailed),
        }
    }
}

impl User {
    /// Where the directory is asked for the player `username`.
    pub fn profile_url(username: &str) -> (url: String)
        ensures
            url@ == "https://api.mojang.com/users/profiles/minecraft/"@ + username@,
    {
        let mut url = "https://api.mojang.com/users/profiles/minecraft/".to_owned();
        url.append(username);
        url
    }

    /// Writes the identifier `id` with hyphens.
    pub fn hyphenate(id: &str) -> (r: String)
        requires
            id@.len() >= 32,
        ensures
            r@ == hyphenated(id@),
    {
        let mut r = id.substring_char(0, 8).to_owned();
        r.append("-");
        r.append(id.substring_char(8, 12));
        r.append("-");
        r.append(id.substring_char(12, 16));
        r.append("-");
        r.append(id.substring_char(16, 20));
        r.append("-");
        r.append(id.substring_char(20, 32));
        r
    }

    /// Reads the directory's answer for a player: the status of the answer and the
    /// identifier in it, if one could be read.
    pub fn get_uuid(status: u16, id: Option<&str>) -> (r: Result<String, DirectoryError>)
        ensures
            crate::directory::outcome_view(r) == directory_answer(
                status,
                match id {
                    Some(text) => Some(text@),
                    None => None,
                },
            ),
    {
        if status == 204 {
            return Err(DirectoryError::NotFound);
        }
        if status < 200 || status > 299 {
            return Err(DirectoryError::LookupFailed);
        }
        match id {
            Some(text) => {
                if text.unicode_len() >= 32 {
                    Ok(User::hyphenate(text))
                } else {
                    Err(DirectoryError::LookupFailed)
                }
            },
            None => Err(DirectoryError::LookupFailed),
        }
    }

    /// Where the account of the player `uuid` is kept.
    pub fn get_user_file_path(uuid: &str) -> (path: String)
        ensures
            path@ == "data/users/"@ + json_name(uuid@),
    {
        let mut path = "data/users/".to_owned();
        path.append(uuid);
        path.append(".json");
        assert(path@ =~= "data/users/"@ + json_name(uuid@));
        path
    }

    /// Makes the accounts of what a load read from the files of the accounts' directory:
    /// one entry per file, `None` for a file that could not be read as an account. Such
    /// files are left out, and of two accounts of one player the later one stays.
    pub fn load_all(loaded: Vec<Option<User>>) -> (users: Vec<User>)
        ensures
            users@ == gathered(loaded@),
            distinct_accounts(accounts_of(users@)),
    {
        let users = gather(loaded);
        proof {
            assert forall|i: int, j: int|
                0 <= i < users@.len() && 0 <= j < users@.len() && i != j implies accounts_of(
                users@,
            )[i].uuid != accounts_of(users@)[j].uuid by {
                assert(users[i].spec_file_stem() != users[j].spec_file_stem());
            }
        }
        users
    }

    /// Plans the save of `users` into a directory that holds the files `listing`: one
    /// file per account is written, named by the player's identifier, and every other
    /// file is removed.
    pub fn save_all(users: &Vec<User>, listing: &Vec<String>) -> (plan: SavePlan)
        ensures
            names_of(plan.writes@) == stems_of(users@).map_values(
                |stem: Seq<char>| json_name(stem),
            ),
            names_of(plan.removals@) == orphan_names(names_of(listing@), names_of(plan.writes@)),
    {
        save_all(users, listing)
    }
}

/// Whether `users` can be the accounts of a store: see [`accounts_wf`].
pub fn check_accounts(users: &Vec<User>) -> (ok: bool)
    ensures
        ok == accounts_wf(accounts_of(users@)),
{
    let ghost views = accounts_of(users@);
    let mut total: i64 = 0;
    let mut i: usize = 0;
    assert(views.take(0) =~= Seq::<UserView>::empty());
    while i < users.len()
        invariant
            i <= users.len(),
            views == accounts_of(users@),
            distinct_accounts(views.take(i as int)),
            no_debts(views.take(i as int)),
            total == total_balance(views.take(i as int)),
            0 <= total,
        decreases users.len() - i,
    {
        let ghost seen = views.take(i as int);
        let ghost more = views.take(i as int + 1);
        proof {
            assert(more.drop_last() =~= seen);
            assert(more.last() == users[i as int]@);
        }
        let balance = users[i].balance;
        if balance < 0 {
            assert(views[i as int].balance < 0);
            return false;
        }
        if balance > i64::MAX - total {
            proof {
                lemma_total_prefix(views, i as int + 1);
            }
            return false;
        }
        match find_account_before(users, i, users[i].uuid.as_str()) {
            Some(j) => {
                assert(views[j as int].uuid == views[i as int].uuid);
                return false;
            },
            None => {},
        }
        proof {
            assert forall|a: int, b: int|
                0 <= a < more.len() && 0 <= b < more.len() && a != b implies more[a].uuid
                != more[b].uuid by {
                if a < i && b < i {
                    assert(seen[a] == more[a] && seen[b] == more[b]);
                } else if a < i {
                    assert(users[a]@ == more[a]);
                } else {
                    assert(users[b]@ == more[b]);
                }
            }
            assert forall|a: int| 0 <= a < more.len() implies (#[trigger] more[a]).balance >= 0 by {
                if a < i {
                    assert(seen[a] == more[a]);
                }
            }
        }
        total = total + balance;
        i = i + 1;
    }
    assert(views.take(i as int) =~= views);
    true
}

/// Looks for an account of `uuid` among the first `end` of `users`.
fn find_account_before(users: &Vec<User>, end: usize, uuid: &str) -> (r: Option<usize>)
    requires
        end <= users.len(),
    ensures
        match r {
            Some(j) => j < end && users[j as int].uuid@ == uuid@,
            None => forall|k: int| 0 <= k < end ==> users[k].uuid@ != uuid@,
        },
{
    let mut j: usize = 0;
    while j < end
        invariant
            j <= end <= users.len(),
            forall|k: int| 0 <= k < j ==> users[k].uuid@ != uuid@,
        decreases end - j,
    {
        if same_text(users[j].uuid.as_str(), uuid) {
            return Some(j);
        }
        j = j + 1;
    }
    None
}

/// Where no account is overdrawn, the first accounts hold no more than all of them.
pub proof fn lemma_total_prefix(users: Seq<UserView>, n: int)
    requires
        0 <= n <= users.len(),
        no_debts(users.take(n)),
        total_balance(users.take(n)) > i64::MAX,
    ensures
        !no_debts(users) || total_balance(users) > i64::MAX,
    decreases users.len() - n,
{
    if n == users.len() {
        assert(users.take(n) =~= users);
    } else if no_debts(users) {
        let more = users.take(n + 1);
        assert(more.drop_last() =~= users.take(n));
        assert(more.last() == users[n]);
        assert(users[n].balance >= 0);
        assert forall|a: int| 0 <= a < more.len() implies (#[trigger] more[a]).balance >= 0 by {
            assert(more[a] == users[a]);
        }
        lemma_total_prefix(users, n + 1);
    }
}

/// Once a player is sure to have an account, making sure again changes nothing: the
/// account is found, and it is left as it is, whatever name the player is seen under.
pub proof fn lemma_with_account_idempotent(
    users: Seq<UserView>,
    uuid: Seq<char>,
    username: Seq<char>,
    later_name: Seq<char>,
)
    ensures
        account_index(with_account(users, uuid, username), uuid) is Some,
        with_account(with_account(users, uuid, username), uuid, later_name) == with_account(
            users,
            uuid,
            username,
        ),
        total_balance(with_account(users, uuid, username)) == total_balance(users),
        accounts_wf(users) ==> accounts_wf(with_account(users, uuid, username)),
{
    let fresh = UserView { uuid, username, balance: 0 };
    if account_index(users, uuid) is None {
        lemma_total_push(users, fresh);
        let after = users.push(fresh);
        assert(after[users.len() as int].uuid == uuid);
    }
}

} // verus!
