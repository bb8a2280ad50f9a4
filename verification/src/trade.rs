//! Trades: the record of what was done, one entry per action, never changed afterwards.

use vstd::prelude::*;
use vstd::string::*;
use crate::repository::{
    files_after_save, keep_present, lemma_read_after_save, names_of, orphan_names, orphans,
    present, read_in_order, SavePlan,
};
use crate::sorting::{lemma_stable_sorted, sorted_by_key, stable_sort, stable_sorted, SortKey};

verus! {

/// What a trade did.
#[derive(Debug, Clone, Copy, PartialEq, Eq, Structural)]
pub enum TradeType {
    Buy,
    Sell,
    AddStock,
    RemoveStock,
}

impl Default for TradeType {
    fn default() -> (t: TradeType)
        ensures
            t == TradeType::Buy,
    {
        TradeType::Buy
    }
}

/// A point in time, in UTC: whole seconds since the start of 1970, and the nanoseconds
/// into that second.
#[derive(Debug, Clone, Copy, PartialEq, Eq, Structural)]
pub struct Timestamp {
    pub secs: i64,
    pub nanos: u32,
}

impl SortKey for Timestamp {
    /// Earlier times have smaller keys; within one second the nanoseconds decide.
    open spec fn spec_key(&self) -> int {
        self.secs as int * 0x1_0000_0000 + self.nanos as int
    }

    fn key(&self) -> (k: i128) {
        self.secs as i128 * 0x1_0000_0000 + self.nanos as i128
    }
}

/// One entry of the record. The time is its key: two trades of the same instant are one.
#[derive(Debug, PartialEq, Eq)]
pub struct Trade {
    pub trade_type: TradeType,
    pub item: String,
    pub amount: i32,
    /// In thousandths of a diamond.
    pub amount_currency: i64,
    /// The stable identifier of the player who traded.
    pub user_uuid: String,
    pub timestamp: Timestamp,
}

/// The mathematical value of a [`Trade`].
pub struct TradeView {
    pub trade_type: TradeType,
    pub item: Seq<char>,
    pub amount: int,
    pub amount_currency: int,
    pub user_uuid: Seq<char>,
    pub timestamp: Timestamp,
}

impl View for Trade {
    type V = TradeView;

    open spec fn view(&self) -> TradeView {
        TradeView {
            trade_type: self.trade_type,
            item: self.item@,
            amount: self.amount as int,
            amount_currency: self.amount_currency as int,
            user_uuid: self.user_uuid@,
            timestamp: self.timestamp,
        }
    }
}

impl SortKey for Trade {
    /// Trades are put in order by their time.
    open spec fn spec_key(&self) -> int {
        self.timestamp.spec_key()
    }

    fn key(&self) -> (k: i128) {
        self.timestamp.key()
    }
}

/// The time `(secs, nanos)` written as RFC 3339 by chrono's `DateTime::to_rfc3339`, and
/// `None` for numbers that chrono's `DateTime::from_timestamp` takes for no time.
pub uninterp spec fn rfc3339_text(secs: i64, nanos: u32) -> Option<Seq<char>>;

/// `text` with `to` in place of every `from`.
pub open spec fn replaced(text: Seq<char>, from: char, to: Seq<char>) -> Seq<char>
    decreases text.len(),
{
    if text.len() == 0 {
        Seq::<char>::empty()
    } else if text.last() == from {
        replaced(text.drop_last(), from, to) + to
    } else {
        replaced(text.drop_last(), from, to).push(text.last())
    }
}

/// Once every `from` is replaced by a text without `from`, there is no `from` left.
pub proof fn lemma_replaced_has_none(text: Seq<char>, from: char, to: Seq<char>)
    requires
        !to.contains(from),
    ensures
        !replaced(text, from, to).contains(from),
    decreases text.len(),
{
    if text.len() > 0 {
        let before = replaced(text.drop_last(), from, to);
        lemma_replaced_has_none(text.drop_last(), from, to);
        let all = replaced(text, from, to);
        if all.contains(from) {
            let i = choose|i: int| 0 <= i < all.len() && all[i] == from;
            if i < before.len() {
                assert(before[i] == from);
            } else if text.last() == from {
                assert(to[i - before.len()] == from);
            }
        }
    }
}

/// The name of the file of a trade made at the time that `rfc3339` is the text of: the
/// text with `-` for every `:`, and `.json` behind it.
pub open spec fn trade_file_name_of(rfc3339: Seq<char>) -> Seq<char> {
    replaced(rfc3339, ':', "-"@) + ".json"@
}

/// Makes a chrono `DateTime<Utc>` of `secs` and `nanos` with `DateTime::from_timestamp`
/// and writes it with `DateTime::to_rfc3339`. The contract gives the text the name
/// [`rfc3339_text`]: it claims that the text depends on the two numbers alone, and that
/// there is none exactly where `from_timestamp` gives no time.
#[verifier::external_body]
fn to_rfc3339(secs: i64, nanos: u32) -> (text: Option<String>)
    ensures
        match text {
            Some(t) => rfc3339_text(secs, nanos) == Some(t@),
            None => rfc3339_text(secs, nanos) is None,
        },
{
    match chrono::DateTime::from_timestamp(secs, nanos) {
        Some(time) => Some(time.to_rfc3339()),
        None => None,
    }
}

/// Reads the clock with chrono's `Utc::now` and takes the time apart with
/// `DateTime::timestamp` and `DateTime::timestamp_subsec_nanos`. The contract claims
/// that the two numbers are a time again, which chrono documents of `from_timestamp`.
/// `Utc::now` stops the program where the clock stands before 1970.
#[verifier::external_body]
fn utc_now() -> (now: Timestamp)
    ensures
        rfc3339_text(now.secs, now.nanos) is Some,
{
    let now = chrono::Utc::now();
    Timestamp { secs: now.timestamp(), nanos: now.timestamp_subsec_nanos() }
}

/// Puts `to` in place of every `from` in `text`, with `str::replace`.
#[verifier::external_body]
fn replace_char(text: &str, from: char, to: &str) -> (r: String)
    ensures
        r@ == replaced(text@, from, to@),
{
    text.replace(from, to)
}

impl Timestamp {
    /// Whether this is a time: whether [`rfc3339_text`] has a text for it.
    pub open spec fn valid(&self) -> bool {
        rfc3339_text(self.secs, self.nanos) is Some
    }

    /// The time now.
    pub fn now() -> (t: Timestamp)
        ensures
            t.valid(),
    {
        utc_now()
    }

    /// This time in RFC 3339, such as `2024-05-01T12:30:00+00:00`; `None` where the
    /// numbers are no time.
    pub fn to_rfc3339(&self) -> (text: Option<String>)
        ensures
            match text {
                Some(t) => rfc3339_text(self.secs, self.nanos) == Some(t@),
                None => !self.valid(),
            },
    {
        to_rfc3339(self.secs, self.nanos)
    }
}

impl Trade {
    /// A trade made now.
    pub fn new(
        trade_type: TradeType,
        item: String,
        amount: i32,
        amount_currency: i64,
        user_uuid: String,
    ) -> (t: Trade)
        ensures
            t.trade_type == trade_type,
            t.item == item,
            t.amount == amount,
            t.amount_currency == amount_currency,
            t.user_uuid == user_uuid,
            t.timestamp.valid(),
    {
        Trade::at(trade_type, item, amount, amount_currency, user_uuid, Timestamp::now())
    }

    /// A trade made at `timestamp`.
    pub fn at(
        trade_type: TradeType,
        item: String,
        amount: i32,
        amount_currency: i64,
        user_uuid: String,
        timestamp: Timestamp,
    ) -> (t: Trade)
        ensures
            t == (Trade { trade_type, item, amount, amount_currency, user_uuid, timestamp }),
    {
        Trade { trade_type, item, amount, amount_currency, user_uuid, timestamp }
    }

    /// The name of the file of a trade whose time reads `rfc3339`.
    pub fn file_name_for(rfc3339: &str) -> (name: String)
        ensures
            name@ == trade_file_name_of(rfc3339@),
            !name@.contains(':'),
    {
        let mut name = replace_char(rfc3339, ':', "-");
        proof {
            reveal_strlit("-");
            reveal_strlit(".json");
            assert(!"-"@.contains(':')) by {
                if "-"@.contains(':') {
                    let i = choose|i: int| 0 <= i < "-"@.len() && "-"@[i] == ':';
                }
            }
            lemma_replaced_has_none(rfc3339@, ':', "-"@);
        }
        let ghost stem = name@;
        name.append(".json");
        proof {
            if name@.contains(':') {
                let i = choose|i: int| 0 <= i < name@.len() && name@[i] == ':';
                if i < stem.len() {
                    assert(stem[i] == ':');
                } else {
                    assert(".json"@[i - stem.len()] == ':');
                }
            }
        }
        name
    }

    /// The name of the file of the trade made at `timestamp`; `None` where the numbers
    /// are no time.
    pub fn file_name(timestamp: &Timestamp) -> (name: Option<String>)
        ensures
            match name {
                Some(n) => timestamp.valid() && n@ == trade_file_name_of(
                    rfc3339_text(timestamp.secs, timestamp.nanos)->0,
                ),
                None => !timestamp.valid(),
            },
    {
        match timestamp.to_rfc3339() {
            Some(text) => Some(Trade::file_name_for(text.as_str())),
            None => None,
        }
    }

    /// Where the trade made at `timestamp` is kept: its file under `data/trades/`.
    pub fn get_trade_file_path(timestamp: &Timestamp) -> (path: Option<String>)
        ensures
            match path {
                Some(p) => timestamp.valid() && p@ == "data/trades/"@ + trade_file_name_of(
                    rfc3339_text(timestamp.secs, timestamp.nanos)->0,
                ),
                None => !timestamp.valid(),
            },
    {
        match Trade::file_name(timestamp) {
            Some(name) => {
                let mut path = "data/trades/".to_owned();
                path.append(name.as_str());
                Some(path)
            },
            None => None,
        }
    }
}

/// Whether every trade of `trades` was made at a time.
pub open spec fn all_timed(trades: Seq<Trade>) -> bool {
    forall|i: int| 0 <= i < trades.len() ==> (#[trigger] trades[i]).timestamp.valid()
}

/// The names of the files of `trades`, in the order of the trades.
pub open spec fn trade_file_names(trades: Seq<Trade>) -> Seq<Seq<char>> {
    trades.map_values(
        |t: Trade| trade_file_name_of(rfc3339_text(t.timestamp.secs, t.timestamp.nanos)->0),
    )
}

impl Trade {
    /// Makes the record of what a load read from the files of the trades' directory:
    /// one entry per file, `None` for a file that could not be read as a trade. Such
    /// files are left out, and the trades come out oldest first.
    pub fn load_all(loaded: Vec<Option<Trade>>) -> (trades: Vec<Trade>)
        ensures
            trades@ == stable_sorted(present(loaded@)),
            sorted_by_key(trades@),
            trades@.to_multiset() == present(loaded@).to_multiset(),
    {
        stable_sort(keep_present(loaded))
    }

    /// Plans the save of `trades` into a directory that holds the files `listing`: one
    /// file per trade is written, named by the trade's time, and every other file is
    /// removed. There is no plan where a trade was made at no time.
    pub fn save_all(trades: &Vec<Trade>, listing: &Vec<String>) -> (plan: Option<SavePlan>)
        ensures
            plan is Some <==> all_timed(trades@),
            plan matches Some(p) ==> names_of(p.writes@) == trade_file_names(trades@)
                && names_of(p.removals@) == orphan_names(names_of(listing@), names_of(p.writes@)),
    {
        let mut writes: Vec<String> = Vec::new();
        let mut i: usize = 0;
        while i < trades.len()
            invariant
                i <= trades.len(),
                writes@.len() == i,
                forall|k: int| 0 <= k < i ==> (#[trigger] trades[k]).timestamp.valid(),
                forall|k: int|
                    0 <= k < i ==> (#[trigger] writes[k])@ == trade_file_name_of(
                        rfc3339_text(trades[k].timestamp.secs, trades[k].timestamp.nanos)->0,
                    ),
            decreases trades.len() - i,
        {
            match Trade::file_name(&trades[i].timestamp) {
                Some(name) => {
                    writes.push(name);
                },
                None => {
                    return None;
                },
            }
            i = i + 1;
        }
        assert(names_of(writes@) =~= trade_file_names(trades@));
        let removals = orphans(listing, &writes);
        Some(SavePlan { writes, removals })
    }
}

/// Trades that are equal are filed under one name: the name of a trade's file follows
/// from the trade.
pub proof fn lemma_equal_trades_one_file(trades: Seq<Trade>, i: int, j: int)
    requires
        0 <= i < trades.len(),
        0 <= j < trades.len(),
        trades[i] == trades[j],
    ensures
        trade_file_names(trades)[i] == trade_file_names(trades)[j],
{
}

/// A load of the trades after a save gives what was saved, oldest first. When the
/// trades `trades` were saved, each into a file of its own, with `files` the names of
/// their files, and a load then reads every file of the directory once, in whatever
/// order `order`, and sorts what it read, it has the trades that were saved, each once
/// and no others, in the order of their times.
pub proof fn lemma_trades_load_after_save(
    before: Map<Seq<char>, Option<Trade>>,
    listing: Seq<Seq<char>>,
    files: Seq<Seq<char>>,
    trades: Seq<Trade>,
    order: Seq<Seq<char>>,
)
    requires
        listing.to_set() == before.dom(),
        files.len() == trades.len(),
        files.no_duplicates(),
        forall|i: int, j: int|
            0 <= i < trades.len() && 0 <= j < trades.len() && trades[i] == trades[j] ==> files[i]
                == files[j],
        order.no_duplicates(),
        forall|name: Seq<char>|
            order.contains(name) <==> files_after_save(
                before,
                files,
                trades,
                orphan_names(listing, files),
            ).dom().contains(name),
    ensures
        ({
            let loaded = read_in_order(
                files_after_save(before, files, trades, orphan_names(listing, files)),
                order,
            );
            &&& stable_sorted(present(loaded)).to_multiset() == trades.to_multiset()
            &&& sorted_by_key(stable_sorted(present(loaded)))
        }),
{
    lemma_read_after_save(before, listing, files, trades, order);
    let loaded = read_in_order(
        files_after_save(before, files, trades, orphan_names(listing, files)),
        order,
    );
    lemma_stable_sorted(present(loaded));
}

} // verus!
