//! Keeping records in files, one file per record: which files a save writes, which it
//! removes, and which files a load reads.
//!
//! A record is kept in the file `<key>.json` of the directory of its kind. Saving a
//! whole collection writes the file of every record and then removes every other file
//! of the directory, so that the directory mirrors the collection; a load reads every
//! file of the directory. Reading and writing the files is the caller's work; what is
//! decided here is decided on names alone.

use vstd::prelude::*;
use vstd::string::*;
use crate::sorting::turned_round;
use crate::text::same_text;

verus! {

/// The name of the file that keeps the record with the key `stem`.
pub open spec fn json_name(stem: Seq<char>) -> Seq<char> {
    stem + ".json"@
}

/// Whether `name` is a key with `.json` behind it: whether the name ends in `.json` and
/// has something before that.
pub open spec fn is_json_name(name: Seq<char>) -> bool {
    name.len() > 5 && name.subrange(name.len() - 5, name.len() as int) == ".json"@
}

/// The names of `names` as plain characters.
pub open spec fn names_of(names: Seq<String>) -> Seq<Seq<char>> {
    names.map_values(|n: String| n@)
}

/// The files of `listing` that a save removes when it has written `written`: every file
/// that it has not written.
pub open spec fn orphan_names(listing: Seq<Seq<char>>, written: Seq<Seq<char>>) -> Seq<
    Seq<char>,
> {
    listing.filter(|name: Seq<char>| !written.contains(name))
}

/// What saving a collection does to its directory.
#[derive(Debug, PartialEq, Eq)]
pub struct SavePlan {
    /// The files to write, one per record, in the order of the records.
    pub writes: Vec<String>,
    /// The files to remove afterwards.
    pub removals: Vec<String>,
}

/// The files of a directory after a save that wrote `writes` and removed `removals`,
/// when it held `before`.
pub open spec fn after_save(
    before: Set<Seq<char>>,
    writes: Seq<Seq<char>>,
    removals: Seq<Seq<char>>,
) -> Set<Seq<char>> {
    before.union(writes.to_set()).difference(removals.to_set())
}

/// The name of the file that keeps the record with the key `stem`.
pub fn file_name(stem: &str) -> (name: String)
    ensures
        name@ == json_name(stem@),
        stem@.len() > 0 ==> is_json_name(name@),
{
    let mut name = stem.to_owned();
    name.append(".json");
    proof {
        reveal_strlit(".json");
        assert(name@.subrange(name@.len() - 5, name@.len() as int) =~= ".json"@);
    }
    name
}

/// Whether `name` is a key with `.json` behind it.
pub fn has_json_extension(name: &str) -> (r: bool)
    ensures
        r == is_json_name(name@),
{
    proof {
        reveal_strlit(".json");
    }
    let n = name.unicode_len();
    if n <= 5 {
        return false;
    }
    let tail = name.substring_char(n - 5, n);
    same_text(tail, ".json")
}

/// Whether `names` holds the name `name`.
pub fn contains_name(names: &Vec<String>, name: &str) -> (r: bool)
    ensures
        r == names_of(names@).contains(name@),
{
    let mut i: usize = 0;
    while i < names.len()
        invariant
            i <= names.len(),
            forall|k: int| 0 <= k < i ==> names[k]@ != name@,
        decreases names.len() - i,
    {
        if same_text(names[i].as_str(), name) {
            assert(names_of(names@)[i as int] == name@);
            return true;
        }
        i = i + 1;
    }
    assert forall|k: int| 0 <= k < names_of(names@).len() implies names_of(names@)[k] != name@ by {
        assert(names_of(names@)[k] == names[k]@);
    }
    false
}

/// The files of `listing` that a save removes when it has written `written`.
pub fn orphans(listing: &Vec<String>, written: &Vec<String>) -> (removals: Vec<String>)
    ensures
        names_of(removals@) == orphan_names(names_of(listing@), names_of(written@)),
{
    let ghost kept = names_of(written@);
    let ghost drop = |name: Seq<char>| !kept.contains(name);
    let mut removals: Vec<String> = Vec::new();
    let mut i: usize = 0;
    assert(names_of(listing@).take(0) =~= Seq::<Seq<char>>::empty());
    assert(names_of(removals@) =~= Seq::<Seq<char>>::empty());
    while i < listing.len()
        invariant
            i <= listing.len(),
            kept == names_of(written@),
            drop == |name: Seq<char>| !kept.contains(name),
            names_of(removals@) == names_of(listing@).take(i as int).filter(drop),
        decreases listing.len() - i,
    {
        let ghost seen = names_of(listing@).take(i as int);
        let ghost done = names_of(removals@);
        proof {
            assert(names_of(listing@).take(i as int + 1) =~= seen.push(listing[i as int]@));
            filter_push(seen, listing[i as int]@, drop);
        }
        if !contains_name(written, listing[i].as_str()) {
            removals.push(listing[i].clone());
            assert(names_of(removals@) =~= done.push(listing[i as int]@));
        }
        i = i + 1;
    }
    assert(names_of(listing@).take(i as int) =~= names_of(listing@));
    removals
}

/// Filtering a sequence with one more item at its end filters the sequence and then
/// looks at the item.
pub proof fn filter_push<T>(s: Seq<T>, x: T, keep: spec_fn(T) -> bool)
    ensures
        s.push(x).filter(keep) == if keep(x) {
            s.filter(keep).push(x)
        } else {
            s.filter(keep)
        },
{
    reveal(Seq::filter);
    assert(s.push(x).drop_last() =~= s);
}

/// Plans the save of the records with the keys `stems` into a directory that holds the
/// files `listing`.
pub fn plan_save(stems: &Vec<String>, listing: &Vec<String>) -> (plan: SavePlan)
    ensures
        names_of(plan.writes@) == names_of(stems@).map_values(|stem: Seq<char>| json_name(stem)),
        names_of(plan.removals@) == orphan_names(names_of(listing@), names_of(plan.writes@)),
{
    let ghost name_of = |stem: Seq<char>| json_name(stem);
    let mut writes: Vec<String> = Vec::new();
    let mut i: usize = 0;
    while i < stems.len()
        invariant
            i <= stems.len(),
            writes@.len() == i,
            forall|k: int| 0 <= k < i ==> (#[trigger] writes[k])@ == json_name(stems[k]@),
        decreases stems.len() - i,
    {
        writes.push(file_name(stems[i].as_str()));
        i = i + 1;
    }
    assert(names_of(writes@) =~= names_of(stems@).map_values(name_of));
    let removals = orphans(listing, &writes);
    SavePlan { writes, removals }
}

/// After a save, the files of the directory are the files that were written, no more
/// and no fewer, whatever the directory held before.
pub proof fn lemma_save_mirrors(listing: Seq<Seq<char>>, writes: Seq<Seq<char>>, name: Seq<char>)
    ensures
        after_save(listing.to_set(), writes, orphan_names(listing, writes)).contains(name)
            <==> writes.contains(name),
{
    let drop = |n: Seq<char>| !writes.contains(n);
    let removals = listing.filter(drop);
    if removals.contains(name) {
        let j = choose|j: int| 0 <= j < removals.len() && removals[j] == name;
        listing.lemma_filter_pred(drop, j);
        listing.lemma_filter_contains_rev(drop, name);
    }
    if listing.contains(name) && drop(name) {
        let i = choose|i: int| 0 <= i < listing.len() && listing[i] == name;
        listing.lemma_filter_contains(drop, i);
    }
}

/// A record that is kept in a file of its own, named by its key.
pub trait Keyed {
    /// The key of this record.
    spec fn spec_file_stem(&self) -> Seq<char>;

    /// The key of this record.
    fn file_stem(&self) -> (stem: &str)
        ensures
            stem@ == self.spec_file_stem(),
    ;
}

/// The keys of `records`, in the order of the records.
pub open spec fn stems_of<T: Keyed>(records: Seq<T>) -> Seq<Seq<char>> {
    records.map_values(|r: T| r.spec_file_stem())
}

/// No two of `records` have the same key.
pub open spec fn distinct_keys<T: Keyed>(records: Seq<T>) -> bool {
    forall|i: int, j: int|
        0 <= i < records.len() && 0 <= j < records.len() && i != j
            ==> records[i].spec_file_stem() != records[j].spec_file_stem()
}

/// The place in `records` of the record with the key `stem`, or `None`.
pub open spec fn record_index<T: Keyed>(records: Seq<T>, stem: Seq<char>) -> Option<int> {
    if exists|i: int| 0 <= i < records.len() && records[i].spec_file_stem() == stem {
        Some(choose|i: int| 0 <= i < records.len() && records[i].spec_file_stem() == stem)
    } else {
        None
    }
}

/// The collection that a load makes of what it read, file by file: files that could
/// not be read as a record (`None`) are left out, and a record whose key came before
/// takes the place of the earlier one.
pub open spec fn gathered<T: Keyed>(loaded: Seq<Option<T>>) -> Seq<T>
    decreases loaded.len(),
{
    if loaded.len() == 0 {
        Seq::<T>::empty()
    } else {
        let before = gathered(loaded.drop_last());
        match loaded.last() {
            None => before,
            Some(record) => match record_index(before, record.spec_file_stem()) {
                Some(i) => before.update(i, record),
                None => before.push(record),
            },
        }
    }
}

/// What a load gathers has one record per key.
pub proof fn lemma_gathered_distinct<T: Keyed>(loaded: Seq<Option<T>>)
    ensures
        distinct_keys(gathered(loaded)),
    decreases loaded.len(),
{
    if loaded.len() > 0 {
        lemma_gathered_distinct(loaded.drop_last());
    }
}

/// A load of files that hold the records `records`, each readable and each with a key of
/// its own, gathers exactly `records`.
pub proof fn lemma_gathered_round_trip<T: Keyed>(records: Seq<T>)
    requires
        distinct_keys(records),
    ensures
        gathered(records.map_values(|r: T| Some(r))) == records,
    decreases records.len(),
{
    let loaded = records.map_values(|r: T| Some(r));
    if records.len() > 0 {
        let front = records.drop_last();
        assert(loaded.drop_last() =~= front.map_values(|r: T| Some(r)));
        lemma_gathered_round_trip(front);
        assert(record_index(front, records.last().spec_file_stem()) is None) by {
            if exists|i: int|
                0 <= i < front.len() && front[i].spec_file_stem() == records.last().spec_file_stem() {
                let i = choose|i: int|
                    0 <= i < front.len() && front[i].spec_file_stem()
                        == records.last().spec_file_stem();
                assert(front[i] == records[i]);
            }
        }
        assert(front.push(records.last()) =~= records);
    } else {
        assert(gathered(loaded) =~= records);
    }
}

/// Looks for the record with the key `stem`.
pub fn find_record<T: Keyed>(records: &Vec<T>, stem: &str) -> (r: Option<usize>)
    ensures
        match r {
            Some(i) => i < records.len() && records[i as int].spec_file_stem() == stem@,
            None => forall|k: int|
                0 <= k < records.len() ==> records[k].spec_file_stem() != stem@,
        },
        r is Some <==> record_index(records@, stem@) is Some,
{
    let mut i: usize = 0;
    while i < records.len()
        invariant
            i <= records.len(),
            forall|k: int| 0 <= k < i ==> records[k].spec_file_stem() != stem@,
        decreases records.len() - i,
    {
        if same_text(records[i].file_stem(), stem) {
            return Some(i);
        }
        i = i + 1;
    }
    None
}

/// Makes a collection of what a load read, file by file: see [`gathered`].
pub fn gather<T: Keyed>(loaded: Vec<Option<T>>) -> (records: Vec<T>)
    ensures
        records@ == gathered(loaded@),
        distinct_keys(records@),
{
    let ghost given = loaded@;
    let mut taken = turned_round(loaded);
    let mut records: Vec<T> = Vec::new();
    let ghost mut done: int = 0;
    assert(given.take(0) =~= Seq::<Option<T>>::empty());
    while taken.len() > 0
        invariant
            0 <= done <= given.len(),
            taken@.len() == given.len() - done,
            forall|i: int|
                0 <= i < taken@.len() ==> #[trigger] taken@[i] == given[given.len() - 1 - i],
            records@ == gathered(given.take(done)),
        decreases taken.len(),
    {
        let next = taken.pop().unwrap();
        proof {
            assert(next == given[done]);
            assert(given.take(done + 1).drop_last() =~= given.take(done));
            assert(given.take(done + 1).last() == given[done]);
            lemma_gathered_distinct(given.take(done));
        }
        match next {
            None => {},
            Some(record) => {
                match find_record(&records, record.file_stem()) {
                    Some(i) => {
                        records[i] = record;
                    },
                    None => {
                        records.push(record);
                    },
                }
            },
        }
        proof {
            done = done + 1;
        }
    }
    proof {
        assert(given.take(done) =~= given);
        lemma_gathered_distinct(given);
    }
    records
}

/// Plans the save of `records` into a directory that holds the files `listing`: the
/// file of every record is written, and every other file is removed.
pub fn save_all<T: Keyed>(records: &Vec<T>, listing: &Vec<String>) -> (plan: SavePlan)
    ensures
        names_of(plan.writes@) == stems_of(records@).map_values(|stem: Seq<char>| json_name(stem)),
        names_of(plan.removals@) == orphan_names(names_of(listing@), names_of(plan.writes@)),
{
    let mut stems: Vec<String> = Vec::new();
    let mut i: usize = 0;
    while i < records.len()
        invariant
            i <= records.len(),
            stems@.len() == i,
            forall|k: int| 0 <= k < i ==> (#[trigger] stems[k])@ == records[k].spec_file_stem(),
        decreases records.len() - i,
    {
        stems.push(records[i].file_stem().to_owned());
        i = i + 1;
    }
    assert(names_of(stems@) =~= stems_of(records@));
    plan_save(&stems, listing)
}

/// The entries of `loaded` that are there, in their order.
pub open spec fn present<T>(loaded: Seq<Option<T>>) -> Seq<T>
    decreases loaded.len(),
{
    if loaded.len() == 0 {
        Seq::<T>::empty()
    } else {
        match loaded.last() {
            Some(x) => present(loaded.drop_last()).push(x),
            None => present(loaded.drop_last()),
        }
    }
}

/// Leaves out what is not there.
pub fn keep_present<T>(loaded: Vec<Option<T>>) -> (kept: Vec<T>)
    ensures
        kept@ == present(loaded@),
{
    let ghost given = loaded@;
    let mut taken = turned_round(loaded);
    let mut kept: Vec<T> = Vec::new();
    let ghost mut done: int = 0;
    assert(given.take(0) =~= Seq::<Option<T>>::empty());
    while taken.len() > 0
        invariant
            0 <= done <= given.len(),
            taken@.len() == given.len() - done,
            forall|i: int|
                0 <= i < taken@.len() ==> #[trigger] taken@[i] == given[given.len() - 1 - i],
            kept@ == present(given.take(done)),
        decreases taken.len(),
    {
        let next = taken.pop().unwrap();
        proof {
            assert(next == given[done]);
            assert(given.take(done + 1).drop_last() =~= given.take(done));
            assert(given.take(done + 1).last() == given[done]);
        }
        match next {
            Some(x) => {
                kept.push(x);
            },
            None => {},
        }
        proof {
            done = done + 1;
        }
    }
    assert(given.take(done) =~= given);
    kept
}

/// After a save that wrote no file twice, the directory holds the files that were
/// written and no others: as many files as there are records, however many it held
/// before.
pub proof fn lemma_save_leaves_one_file_per_record(
    listing: Seq<Seq<char>>,
    writes: Seq<Seq<char>>,
)
    requires
        writes.no_duplicates(),
    ensures
        after_save(listing.to_set(), writes, orphan_names(listing, writes)) == writes.to_set(),
        writes.to_set().len() == writes.len(),
{
    let after = after_save(listing.to_set(), writes, orphan_names(listing, writes));
    assert forall|name: Seq<char>| after.contains(name) <==> writes.to_set().contains(name) by {
        lemma_save_mirrors(listing, writes, name);
    }
    assert(after =~= writes.to_set());
    writes.unique_seq_to_set();
}

/// Different keys have different files.
pub proof fn lemma_json_name_injective(a: Seq<char>, b: Seq<char>)
    requires
        json_name(a) == json_name(b),
    ensures
        a == b,
{
    let suffix = ".json"@;
    assert((a + suffix).len() == (b + suffix).len());
    assert(a =~= (a + suffix).subrange(0, a.len() as int));
    assert(b =~= (b + suffix).subrange(0, b.len() as int));
}

/// The names of the files of `records`.
pub open spec fn files_of<T: Keyed>(records: Seq<T>) -> Seq<Seq<char>> {
    stems_of(records).map_values(|stem: Seq<char>| json_name(stem))
}

/// Records with keys of their own have files of their own.
pub proof fn lemma_distinct_keys_distinct_files<T: Keyed>(records: Seq<T>)
    requires
        distinct_keys(records),
    ensures
        files_of(records).no_duplicates(),
{
    let files = files_of(records);
    assert forall|i: int, j: int| 0 <= i < files.len() && 0 <= j < files.len() && i
        != j implies files[i] != files[j] by {
        if files[i] == files[j] {
            lemma_json_name_injective(records[i].spec_file_stem(), records[j].spec_file_stem());
        }
    }
}

/// The place among `files` of the file `name`.
pub open spec fn place_of_file(files: Seq<Seq<char>>, name: Seq<char>) -> int {
    choose|i: int| 0 <= i < files.len() && files[i] == name
}

/// What the files of a directory yield after a save that wrote the records `records`
/// into the files `files`, record by record, when the files yielded `before`: for each
/// name the record that a load reads from the file, or `None` for a file that cannot be
/// read as a record. The files that were written yield the record that was written,
/// and the files of `removals` are gone.
pub open spec fn files_after_save<T>(
    before: Map<Seq<char>, Option<T>>,
    files: Seq<Seq<char>>,
    records: Seq<T>,
    removals: Seq<Seq<char>>,
) -> Map<Seq<char>, Option<T>> {
    Map::new(
        |name: Seq<char>|
            (before.dom().contains(name) || files.contains(name)) && !removals.contains(name),
        |name: Seq<char>|
            if files.contains(name) {
                Some(records[place_of_file(files, name)])
            } else {
                before[name]
            },
    )
}

/// What a load reads from the files of `directory` when it reads them in the order
/// `order`.
pub open spec fn read_in_order<T>(directory: Map<Seq<char>, Option<T>>, order: Seq<Seq<char>>) -> Seq<
    Option<T>,
> {
    order.map_values(|name: Seq<char>| directory[name])
}

/// A load after a save reads what was saved. When records were saved, each into a file
/// of its own, and a load then reads every file of the directory once, in whatever
/// order `order`, every file yields a record, and the records that the load reads are
/// the records that were saved, each once and no others, whatever the directory held
/// before.
pub proof fn lemma_read_after_save<T>(
    before: Map<Seq<char>, Option<T>>,
    listing: Seq<Seq<char>>,
    files: Seq<Seq<char>>,
    records: Seq<T>,
    order: Seq<Seq<char>>,
)
    requires
        listing.to_set() == before.dom(),
        files.len() == records.len(),
        files.no_duplicates(),
        forall|i: int, j: int|
            0 <= i < records.len() && 0 <= j < records.len() && records[i] == records[j]
                ==> files[i] == files[j],
        order.no_duplicates(),
        forall|name: Seq<char>|
            order.contains(name) <==> files_after_save(
                before,
                files,
                records,
                orphan_names(listing, files),
            ).dom().contains(name),
    ensures
        ({
            let loaded = read_in_order(
                files_after_save(before, files, records, orphan_names(listing, files)),
                order,
            );
            let read = present(loaded);
            &&& loaded == read.map_values(|r: T| Some(r))
            &&& read.len() == order.len()
            &&& read.to_multiset() == records.to_multiset()
            &&& forall|p: int|
                0 <= p < order.len() ==> {
                    &&& 0 <= place_of_file(files, #[trigger] order[p]) < files.len()
                    &&& files[place_of_file(files, order[p])] == order[p]
                    &&& read[p] == records[place_of_file(files, order[p])]
                }
        }),
{
    let after = files_after_save(before, files, records, orphan_names(listing, files));
    let loaded = read_in_order(after, order);
    // The load reads exactly the files that were written.
    assert forall|name: Seq<char>| order.contains(name) <==> files.contains(name) by {
        lemma_save_mirrors(listing, files, name);
    }
    let read = order.map_values(|name: Seq<char>| records[place_of_file(files, name)]);
    assert forall|p: int| 0 <= p < order.len() implies {
        let k = place_of_file(files, order[p]);
        &&& 0 <= k < files.len()
        &&& files[k] == #[trigger] order[p]
        &&& loaded[p] == Some(records[k])
        &&& read[p] == records[k]
    } by {
        assert(order.contains(order[p]));
    }
    assert(loaded =~= read.map_values(|r: T| Some(r)));
    lemma_present_of_some(read);
    assert(present(loaded) == read);
    // What was read and what was saved are the same records, each once.
    assert forall|x: T| read.contains(x) <==> records.contains(x) by {
        if read.contains(x) {
            let p = choose|p: int| 0 <= p < read.len() && read[p] == x;
            assert(0 <= place_of_file(files, order[p]) < records.len());
        }
        if records.contains(x) {
            let k = choose|k: int| 0 <= k < records.len() && records[k] == x;
            assert(files.contains(files[k]));
            let p = choose|p: int| 0 <= p < order.len() && order[p] == files[k];
            assert(place_of_file(files, order[p]) == k);
            assert(read[p] == x);
        }
    }
    assert(read.no_duplicates()) by {
        assert forall|p: int, q: int|
            0 <= p < read.len() && 0 <= q < read.len() && p != q implies read[p] != read[q] by {
            let a = place_of_file(files, order[p]);
            let b = place_of_file(files, order[q]);
            assert(files[a] == order[p] && files[b] == order[q]);
        }
    }
    assert(records.no_duplicates()) by {
        assert forall|i: int, j: int|
            0 <= i < records.len() && 0 <= j < records.len() && i != j implies records[i]
            != records[j] by {
            assert(files[i] != files[j]);
        }
    }
    read.lemma_multiset_has_no_duplicates();
    records.lemma_multiset_has_no_duplicates();
    read.to_multiset_ensures();
    records.to_multiset_ensures();
    assert forall|x: T| read.to_multiset().count(x) == records.to_multiset().count(x) by {
        if read.contains(x) {
            assert(read.to_multiset().contains(x));
            assert(records.to_multiset().contains(x));
        }
    }
    assert(read.to_multiset() =~= records.to_multiset());
}

/// Where every entry is there, nothing is left out.
pub proof fn lemma_present_of_some<T>(read: Seq<T>)
    ensures
        present(read.map_values(|r: T| Some(r))) == read,
    decreases read.len(),
{
    let loaded = read.map_values(|r: T| Some(r));
    if read.len() > 0 {
        assert(loaded.drop_last() =~= read.drop_last().map_values(|r: T| Some(r)));
        lemma_present_of_some(read.drop_last());
        assert(read.drop_last().push(read.last()) =~= read);
    } else {
        assert(present(loaded) =~= read);
    }
}

/// A load after a save gathers what was saved: when records with keys of their own were
/// saved into a directory, and a load then reads every file of the directory once, in
/// whatever order `order`, it gathers the records that were saved, each once and no
/// others, whatever the directory held before.
pub proof fn lemma_load_after_save<T: Keyed>(
    before: Map<Seq<char>, Option<T>>,
    listing: Seq<Seq<char>>,
    records: Seq<T>,
    order: Seq<Seq<char>>,
)
    requires
        listing.to_set() == before.dom(),
        distinct_keys(records),
        order.no_duplicates(),
        forall|name: Seq<char>|
            order.contains(name) <==> files_after_save(
                before,
                files_of(records),
                records,
                orphan_names(listing, files_of(records)),
            ).dom().contains(name),
    ensures
        gathered(
            read_in_order(
                files_after_save(
                    before,
                    files_of(records),
                    records,
                    orphan_names(listing, files_of(records)),
                ),
                order,
            ),
        ).to_multiset() == records.to_multiset(),
{
    let files = files_of(records);
    lemma_distinct_keys_distinct_files(records);
    lemma_read_after_save(before, listing, files, records, order);
    let after = files_after_save(before, files, records, orphan_names(listing, files));
    let loaded = read_in_order(after, order);
    let read = present(loaded);
    assert(distinct_keys(read)) by {
        assert forall|p: int, q: int|
            0 <= p < read.len() && 0 <= q < read.len() && p != q implies read[p].spec_file_stem()
            != read[q].spec_file_stem() by {
            let a = place_of_file(files, order[p]);
            let b = place_of_file(files, order[q]);
            assert(files[a] == order[p] && files[b] == order[q]);
            assert(files[a] == json_name(read[p].spec_file_stem()));
            assert(files[b] == json_name(read[q].spec_file_stem()));
        }
    }
    lemma_gathered_round_trip(read);
}

} // verus!
