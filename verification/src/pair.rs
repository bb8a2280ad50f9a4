//! Tradable items: one market record per item.

use vstd::prelude::*;
use vstd::string::*;
use crate::repository::{
    gather, gathered, json_name, names_of, orphan_names, save_all, stems_of, Keyed, SavePlan,
};
use crate::text::same_text;

verus! {

/// The market record of one item: how much of the item and of the currency is in stock.
#[derive(Debug, PartialEq, Eq)]
pub struct Pair {
    /// The item's name: the key of the record.
    pub item: String,
    pub item_stock: i32,
    /// In thousandths of a diamond.
    pub currency_stock: i64,
}

/// The mathematical value of a [`Pair`].
pub struct PairView {
    pub item: Seq<char>,
    pub item_stock: int,
    pub currency_stock: int,
}

impl View for Pair {
    type V = PairView;

    open spec fn view(&self) -> PairView {
        PairView {
            item: self.item@,
            item_stock: self.item_stock as int,
            currency_stock: self.currency_stock as int,
        }
    }
}

impl Clone for Pair {
    fn clone(&self) -> (r: Pair)
        ensures
            r == *self,
    {
        Pair {
            item: self.item.clone(),
            item_stock: self.item_stock,
            currency_stock: self.currency_stock,
        }
    }
}

/// Whether `pairs` holds a record for `item`.
pub open spec fn has_pair(pairs: Seq<PairView>, item: Seq<char>) -> bool {
    exists|i: int| 0 <= i < pairs.len() && (#[trigger] pairs[i]).item == item
}

/// No two records of `pairs` are for the same item.
pub open spec fn distinct_pairs(pairs: Seq<PairView>) -> bool {
    forall|i: int, j: int|
        0 <= i < pairs.len() && 0 <= j < pairs.len() && i != j ==> pairs[i].item != pairs[j].item
}

/// The records of `pairs` as mathematical values.
pub open spec fn markets_of(pairs: Seq<Pair>) -> Seq<PairView> {
    pairs.map_values(|p: Pair| p@)
}

/// Looks for the market record of `item`: its position, or `None` where there is none.
pub fn find_pair(pairs: &Vec<Pair>, item: &str) -> (r: Option<usize>)
    ensures
        match r {
            Some(i) => i < pairs.len() && pairs[i as int].item@ == item@,
            None => forall|k: int| 0 <= k < pairs.len() ==> pairs[k].item@ != item@,
        },
        r is Some <==> has_pair(markets_of(pairs@), item@),
{
    let mut i: usize = 0;
    while i < pairs.len()
        invariant
            i <= pairs.len(),
            forall|k: int| 0 <= k < i ==> pairs[k].item@ != item@,
        decreases pairs.len() - i,
    {
        if same_text(pairs[i].item.as_str(), item) {
            assert(markets_of(pairs@)[i as int].item == item@);
            return Some(i);
        }
        i = i + 1;
    }
    assert forall|k: int| 0 <= k < markets_of(pairs@).len() implies (#[trigger] markets_of(
        pairs@,
    )[k]).item != item@ by {
        assert(markets_of(pairs@)[k] == pairs[k]@);
    }
    None
}

impl Keyed for Pair {
    /// A market record is kept under the name of its item.
    open spec fn spec_file_stem(&self) -> Seq<char> {
        self.item@
    }

    fn file_stem(&self) -> (stem: &str) {
        self.item.as_str()
    }
}

impl Pair {
    /// Where the market record of `item_name` is kept.
    pub fn get_pair_file_path(item_name: &str) -> (path: String)
        ensures
            path@ == "data/pairs/"@ + json_name(item_name@),
    {
        let mut path = "data/pairs/".to_owned();
        path.append(item_name);
        path.append(".json");
        assert(path@ =~= "data/pairs/"@ + json_name(item_name@));
        path
    }

    /// Makes the market records of what a load read from the files of their directory:
    /// one entry per file, `None` for a file that could not be read as a record. Such
    /// files are left out, and of two records of one item the later one stays.
    pub fn load_all(loaded: Vec<Option<Pair>>) -> (pairs: Vec<Pair>)
        ensures
            pairs@ == gathered(loaded@),
            distinct_pairs(markets_of(pairs@)),
    {
        let pairs = gather(loaded);
        proof {
            assert forall|i: int, j: int|
                0 <= i < pairs@.len() && 0 <= j < pairs@.len() && i != j implies markets_of(
                pairs@,
            )[i].item != markets_of(pairs@)[j].item by {
                assert(pairs[i].spec_file_stem() != pairs[j].spec_file_stem());
            }
        }
        pairs
    }

    /// Plans the save of `pairs` into a directory that holds the files `listing`: one
    /// file per record is written, named by the item, and every other file is
    /// removed.
    pub fn save_all(pairs: &Vec<Pair>, listing: &Vec<String>) -> (plan: SavePlan)
        ensures
            names_of(plan.writes@) == stems_of(pairs@).map_values(
                |stem: Seq<char>| json_name(stem),
            ),
            names_of(plan.removals@) == orphan_names(names_of(listing@), names_of(plan.writes@)),
    {
        save_all(pairs, listing)
    }
}

/// Whether no two records of `pairs` are for the same item.
pub fn check_pairs(pairs: &Vec<Pair>) -> (ok: bool)
    ensures
        ok == distinct_pairs(markets_of(pairs@)),
{
    let ghost views = markets_of(pairs@);
    let mut i: usize = 0;
    while i < pairs.len()
        invariant
            i <= pairs.len(),
            views == markets_of(pairs@),
            forall|a: int, b: int| 0 <= a < b < i ==> views[a].item != views[b].item,
        decreases pairs.len() - i,
    {
        let mut j: usize = 0;
        while j < i
            invariant
                j <= i < pairs.len(),
                views == markets_of(pairs@),
                forall|a: int| 0 <= a < j ==> views[a].item != views[i as int].item,
            decreases i - j,
        {
            if same_text(pairs[j].item.as_str(), pairs[i].item.as_str()) {
                assert(views[j as int].item == views[i as int].item);
                return false;
            }
            j = j + 1;
        }
        i = i + 1;
    }
    assert forall|a: int, b: int|
        0 <= a < views.len() && 0 <= b < views.len() && a != b implies views[a].item
        != views[b].item by {
        if a < b {
        } else {
            assert(views[b].item != views[a].item);
        }
    }
    true
}

} // verus!
