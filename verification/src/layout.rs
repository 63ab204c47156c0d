//! A dictionary laid out as a run of entries, as the storage keeps it in
//! memory, and as records, as it is kept in a file.

use vstd::prelude::*;

use crate::model::{names_distinct, Dictionary, EntryView, ErrorView};

verus! {

/// No two of `entries` are for the same abbreviation.
pub open spec fn keys_distinct(entries: Seq<EntryView>) -> bool {
    forall|i: int, j: int|
        0 <= i < j < entries.len() ==> (#[trigger] entries[i]).acronym != (
        #[trigger] entries[j]).acronym
}

/// Whether one of `entries` is for the abbreviation `key`.
pub open spec fn holds_key(entries: Seq<EntryView>, key: Seq<char>) -> bool {
    exists|i: int| 0 <= i < entries.len() && (#[trigger] entries[i]).acronym == key
}

/// A position in `entries` of an entry for `key`, where there is one.
pub open spec fn index_of(entries: Seq<EntryView>, key: Seq<char>) -> int {
    choose|i: int| 0 <= i < entries.len() && (#[trigger] entries[i]).acronym == key
}

/// The dictionary that a run of entries stands for: each abbreviation with
/// the items of its entry.
pub open spec fn dictionary_of(entries: Seq<EntryView>) -> Dictionary {
    Map::new(
        |key: Seq<char>| holds_key(entries, key),
        |key: Seq<char>| entries[index_of(entries, key)].items,
    )
}

/// Each entry of a run with distinct abbreviations is what the dictionary
/// holds under its abbreviation.
pub proof fn lemma_dictionary_at(entries: Seq<EntryView>, i: int)
    requires
        keys_distinct(entries),
        0 <= i < entries.len(),
    ensures
        dictionary_of(entries).dom().contains(entries[i].acronym),
        dictionary_of(entries)[entries[i].acronym] == entries[i].items,
{
    let key = entries[i].acronym;
    assert(holds_key(entries, key));
    let j = index_of(entries, key);
    assert(0 <= j < entries.len() && entries[j].acronym == key);
    if i < j {
        assert(entries[i].acronym != entries[j].acronym);
    } else if j < i {
        assert(entries[j].acronym != entries[i].acronym);
    }
}

/// An entry for a new abbreviation, added at the end, is an insertion into
/// the dictionary.
pub proof fn lemma_dictionary_push(entries: Seq<EntryView>, entry: EntryView)
    requires
        keys_distinct(entries),
        !holds_key(entries, entry.acronym),
    ensures
        keys_distinct(entries.push(entry)),
        dictionary_of(entries.push(entry)) == dictionary_of(entries).insert(
            entry.acronym,
            entry.items,
        ),
{
    let after = entries.push(entry);
    assert forall|i: int, j: int| 0 <= i < j < after.len() implies (#[trigger] after[i]).acronym
        != (#[trigger] after[j]).acronym by {
        if j < entries.len() {
            assert(entries[i].acronym != entries[j].acronym);
        } else {
            assert(entries[i].acronym != entry.acronym);
        }
    }
    let d = dictionary_of(entries).insert(entry.acronym, entry.items);
    assert forall|key: Seq<char>| dictionary_of(after).dom().contains(key) <==> d.dom().contains(
        key,
    ) by {
        if holds_key(after, key) {
            let i = index_of(after, key);
            if i < entries.len() {
                assert(entries[i].acronym == key);
            }
        }
        if holds_key(entries, key) {
            let i = index_of(entries, key);
            assert(after[i].acronym == key);
        }
        if key == entry.acronym {
            assert(after[entries.len() as int].acronym == key);
        }
    }
    assert forall|key: Seq<char>| d.dom().contains(key) implies dictionary_of(after)[key]
        == d[key] by {
        if key == entry.acronym {
            lemma_dictionary_at(after, entries.len() as int);
        } else {
            let i = index_of(entries, key);
            lemma_dictionary_at(entries, i);
            lemma_dictionary_at(after, i);
        }
    }
    assert(dictionary_of(after) =~= d);
}

/// Replacing an entry by another for the same abbreviation replaces what the
/// dictionary holds under it.
pub proof fn lemma_dictionary_update(entries: Seq<EntryView>, i: int, entry: EntryView)
    requires
        keys_distinct(entries),
        0 <= i < entries.len(),
        entry.acronym == entries[i].acronym,
    ensures
        keys_distinct(entries.update(i, entry)),
        dictionary_of(entries.update(i, entry)) == dictionary_of(entries).insert(
            entry.acronym,
            entry.items,
        ),
{
    let after = entries.update(i, entry);
    assert forall|a: int, b: int| 0 <= a < b < after.len() implies (#[trigger] after[a]).acronym
        != (#[trigger] after[b]).acronym by {
        assert(entries[a].acronym != entries[b].acronym);
    }
    let d = dictionary_of(entries).insert(entry.acronym, entry.items);
    assert forall|key: Seq<char>| dictionary_of(after).dom().contains(key) <==> d.dom().contains(
        key,
    ) by {
        if holds_key(after, key) {
            let j = index_of(after, key);
            assert(entries[j].acronym == key);
        }
        if holds_key(entries, key) {
            let j = index_of(entries, key);
            assert(after[j].acronym == key);
        }
        if key == entry.acronym {
            assert(after[i].acronym == key);
        }
    }
    assert forall|key: Seq<char>| d.dom().contains(key) implies dictionary_of(after)[key]
        == d[key] by {
        if key == entry.acronym {
            lemma_dictionary_at(after, i);
        } else {
            let j = index_of(entries, key);
            lemma_dictionary_at(entries, j);
            lemma_dictionary_at(after, j);
        }
    }
    assert(dictionary_of(after) =~= d);
}

/// Taking an entry out takes its abbreviation out of the dictionary.
pub proof fn lemma_dictionary_remove(entries: Seq<EntryView>, i: int)
    requires
        keys_distinct(entries),
        0 <= i < entries.len(),
    ensures
        keys_distinct(entries.remove(i)),
        dictionary_of(entries.remove(i)) == dictionary_of(entries).remove(entries[i].acronym),
{
    let after = entries.remove(i);
    let gone = entries[i].acronym;
    assert forall|a: int, b: int| 0 <= a < b < after.len() implies (#[trigger] after[a]).acronym
        != (#[trigger] after[b]).acronym by {
        let a0 = if a < i { a } else { a + 1 };
        let b0 = if b < i { b } else { b + 1 };
        assert(entries[a0].acronym != entries[b0].acronym);
    }
    let d = dictionary_of(entries).remove(gone);
    assert forall|key: Seq<char>| dictionary_of(after).dom().contains(key) <==> d.dom().contains(
        key,
    ) by {
        if holds_key(after, key) {
            let j = index_of(after, key);
            let j0 = if j < i { j } else { j + 1 };
            assert(entries[j0].acronym == key);
            if j0 < i {
                assert(entries[j0].acronym != entries[i].acronym);
            } else {
                assert(entries[i].acronym != entries[j0].acronym);
            }
        }
        if holds_key(entries, key) && key != gone {
            let j = index_of(entries, key);
            let j1 = if j < i { j } else { j - 1 };
            assert(after[j1].acronym == key);
        }
    }
    assert forall|key: Seq<char>| d.dom().contains(key) implies dictionary_of(after)[key]
        == d[key] by {
        let j = index_of(entries, key);
        let j1 = if j < i { j } else { j - 1 };
        lemma_dictionary_at(entries, j);
        assert(after[j1] == entries[j]);
        lemma_dictionary_at(after, j1);
    }
    assert(dictionary_of(after) =~= d);
}

/// The stored form of the dictionary: one record for each abbreviation, the
/// key it is filed under beside the entry itself.
pub type Records = Seq<(Seq<char>, EntryView)>;

/// The entries of the records, without their keys.
pub open spec fn record_entries(records: Records) -> Seq<EntryView> {
    records.map_values(|record: (Seq<char>, EntryView)| record.1)
}

/// Records that a storage can be made of: each is filed under its own
/// abbreviation, has at least one item and no two items of one name, and no
/// abbreviation comes twice.
pub open spec fn well_formed_records(records: Records) -> bool {
    &&& forall|i: int|
        0 <= i < records.len() ==> (#[trigger] records[i]).0 == records[i].1.acronym
    &&& forall|i: int| 0 <= i < records.len() ==> (#[trigger] records[i]).1.items.len() > 0
    &&& forall|i: int| 0 <= i < records.len() ==> names_distinct((#[trigger] records[i]).1.items)
    &&& forall|i: int, j: int|
        0 <= i < j < records.len() ==> (#[trigger] records[i]).0 != (#[trigger] records[j]).0
}

/// Whether a record before position `i` is filed under `key`.
pub open spec fn key_seen(records: Records, i: int, key: Seq<char>) -> bool {
    exists|j: int| 0 <= j < i && (#[trigger] records[j]).0 == key
}

/// What is wrong with the record at position `i`, if anything, given the
/// records before it.
pub open spec fn fault_at(records: Records, i: int) -> Option<Seq<char>> {
    let key = records[i].0;
    let entry = records[i].1;
    if key != entry.acronym {
        Some("key "@ + key + " does not match acronym "@ + entry.acronym)
    } else if entry.items.len() == 0 {
        Some("entry "@ + key + " has no items"@)
    } else if key_seen(records, i, key) {
        Some("entry "@ + key + " appears more than once"@)
    } else if !names_distinct(entry.items) {
        Some("entry "@ + key + " has two items of one name"@)
    } else {
        None
    }
}

/// The fault of the first faulty record among the first `n`, if there is one.
pub open spec fn first_fault(records: Records, n: int) -> Option<Seq<char>>
    decreases n,
{
    if n <= 0 {
        None
    } else {
        match first_fault(records, n - 1) {
            Some(text) => Some(text),
            None => fault_at(records, n - 1),
        }
    }
}

/// The dictionary that records stand for, or the parsing problem that their
/// first fault is.
pub open spec fn decode(records: Records) -> Result<Dictionary, ErrorView> {
    match first_fault(records, records.len() as int) {
        Some(text) => Err(ErrorView::ParsingProblem(text)),
        None => Ok(dictionary_of(record_entries(records))),
    }
}

/// Whether `records` are a stored form of the dictionary `d`.
pub open spec fn encodes(records: Records, d: Dictionary) -> bool {
    &&& well_formed_records(records)
    &&& dictionary_of(record_entries(records)) == d
}

/// The first `n` records are without fault exactly when they are well formed.
pub proof fn lemma_fault_free_prefix(records: Records, n: int)
    requires
        0 <= n <= records.len(),
    ensures
        first_fault(records, n) is None <==> well_formed_records(records.take(n)),
    decreases n,
{
    if n > 0 {
        lemma_fault_free_prefix(records, n - 1);
        let shorter = records.take(n - 1);
        let longer = records.take(n);
        let key = records[n - 1].0;
        if first_fault(records, n) is None {
            assert(fault_at(records, n - 1) is None);
            assert forall|i: int| 0 <= i < longer.len() implies (#[trigger] longer[i]).0
                == longer[i].1.acronym by {
                if i < n - 1 {
                    assert(shorter[i] == longer[i]);
                }
            }
            assert forall|i: int| 0 <= i < longer.len() implies (
            #[trigger] longer[i]).1.items.len() > 0 by {
                if i < n - 1 {
                    assert(shorter[i] == longer[i]);
                }
            }
            assert forall|i: int| 0 <= i < longer.len() implies names_distinct(
                (#[trigger] longer[i]).1.items,
            ) by {
                if i < n - 1 {
                    assert(shorter[i] == longer[i]);
                }
            }
            assert forall|i: int, j: int| 0 <= i < j < longer.len() implies (#[trigger] longer[i]).0
                != (#[trigger] longer[j]).0 by {
                if j < n - 1 {
                    assert(shorter[i] == longer[i]);
                    assert(shorter[j] == longer[j]);
                } else {
                    assert(records[i].0 == longer[i].0);
                }
            }
        }
        if well_formed_records(longer) {
            assert forall|i: int| 0 <= i < shorter.len() implies (#[trigger] shorter[i]).0
                == shorter[i].1.acronym by {
                assert(shorter[i] == longer[i]);
            }
            assert forall|i: int| 0 <= i < shorter.len() implies (
            #[trigger] shorter[i]).1.items.len() > 0 by {
                assert(shorter[i] == longer[i]);
            }
            assert forall|i: int| 0 <= i < shorter.len() implies names_distinct(
                (#[trigger] shorter[i]).1.items,
            ) by {
                assert(shorter[i] == longer[i]);
            }
            assert forall|i: int, j: int| 0 <= i < j < shorter.len() implies (
            #[trigger] shorter[i]).0 != (#[trigger] shorter[j]).0 by {
                assert(shorter[i] == longer[i]);
                assert(shorter[j] == longer[j]);
            }
            assert(longer[n - 1] == records[n - 1]);
            if key_seen(records, n - 1, key) {
                let j = choose|j: int| 0 <= j < n - 1 && (#[trigger] records[j]).0 == key;
                assert(longer[j] == records[j]);
                assert(longer[j].0 != longer[n - 1].0);
            }
        }
    }
}

/// A fault at position `i`, after a prefix without fault, is the fault of the
/// whole.
pub proof fn lemma_first_fault_found(records: Records, i: int)
    requires
        0 <= i < records.len(),
        first_fault(records, i) is None,
        fault_at(records, i) is Some,
    ensures
        first_fault(records, records.len() as int) == fault_at(records, i),
{
    lemma_first_fault_stays(records, i + 1, records.len() as int);
}

/// Once the first `n` records hold a fault, every longer prefix reports the
/// same one.
pub proof fn lemma_first_fault_stays(records: Records, n: int, m: int)
    requires
        0 <= n <= m,
        first_fault(records, n) is Some,
    ensures
        first_fault(records, m) == first_fault(records, n),
    decreases m - n,
{
    if n < m {
        lemma_first_fault_stays(records, n, m - 1);
    }
}

/// Records are decoded to a dictionary exactly when they are well formed.
pub proof fn lemma_decode_accepts(records: Records)
    ensures
        decode(records) is Ok <==> well_formed_records(records),
{
    lemma_fault_free_prefix(records, records.len() as int);
    assert(records.take(records.len() as int) =~= records);
}

/// Whatever records encode a dictionary are decoded to that dictionary.
pub proof fn lemma_decode_encoded(records: Records, d: Dictionary)
    requires
        encodes(records, d),
    ensures
        decode(records) == Ok::<Dictionary, ErrorView>(d),
{
    lemma_decode_accepts(records);
}

/// Records in another order encode the same dictionary: what counts is which
/// records there are, not where they stand.
pub proof fn lemma_encodes_in_any_order(records: Records, reordered: Records, d: Dictionary)
    requires
        encodes(records, d),
        reordered.to_multiset() == records.to_multiset(),
    ensures
        encodes(reordered, d),
{
    records.to_multiset_ensures();
    reordered.to_multiset_ensures();
    // Each record of one run is a record of the other.
    assert forall|i: int| 0 <= i < reordered.len() implies records.contains(
        #[trigger] reordered[i],
    ) by {
        assert(reordered.contains(reordered[i]));
        assert(reordered.to_multiset().count(reordered[i]) > 0);
        assert(records.to_multiset().count(reordered[i]) > 0);
    }
    assert forall|i: int| 0 <= i < records.len() implies reordered.contains(
        #[trigger] records[i],
    ) by {
        assert(records.contains(records[i]));
        assert(records.to_multiset().count(records[i]) > 0);
        assert(reordered.to_multiset().count(records[i]) > 0);
    }
    // No record comes twice, in either run.
    assert forall|i: int, j: int|
        0 <= i < records.len() && 0 <= j < records.len() && i != j implies records[i]
        != records[j] by {
        if i < j {
            assert(records[i].0 != records[j].0);
        } else {
            assert(records[j].0 != records[i].0);
        }
    }
    records.lemma_multiset_has_no_duplicates();
    reordered.lemma_multiset_has_no_duplicates_conv();

    assert forall|i: int| 0 <= i < reordered.len() implies (#[trigger] reordered[i]).0
        == reordered[i].1.acronym && reordered[i].1.items.len() > 0 && names_distinct(
        reordered[i].1.items,
    ) by {
        let a = choose|a: int| 0 <= a < records.len() && records[a] == reordered[i];
        assert(records[a].0 == records[a].1.acronym);
    }
    assert forall|i: int, j: int| 0 <= i < j < reordered.len() implies (#[trigger] reordered[i]).0
        != (#[trigger] reordered[j]).0 by {
        let a = choose|a: int| 0 <= a < records.len() && records[a] == reordered[i];
        let b = choose|b: int| 0 <= b < records.len() && records[b] == reordered[j];
        assert(reordered[i] != reordered[j]);
        if a < b {
            assert(records[a].0 != records[b].0);
        } else {
            assert(records[b].0 != records[a].0);
        }
    }
    let before = record_entries(records);
    let after = record_entries(reordered);
    assert forall|i: int, j: int| 0 <= i < j < before.len() implies (#[trigger] before[i]).acronym
        != (#[trigger] before[j]).acronym by {
        assert(records[i].0 != records[j].0);
    }
    assert forall|i: int, j: int| 0 <= i < j < after.len() implies (#[trigger] after[i]).acronym
        != (#[trigger] after[j]).acronym by {
        assert(reordered[i].0 != reordered[j].0);
    }
    assert forall|key: Seq<char>| holds_key(after, key) implies holds_key(before, key)
        && dictionary_of(before)[key] == dictionary_of(after)[key] by {
        let i = index_of(after, key);
        let a = choose|a: int| 0 <= a < records.len() && records[a] == reordered[i];
        assert(before[a].acronym == key);
        lemma_dictionary_at(before, a);
        lemma_dictionary_at(after, i);
    }
    assert forall|key: Seq<char>| holds_key(before, key) implies holds_key(after, key) by {
        let a = index_of(before, key);
        let i = choose|i: int| 0 <= i < reordered.len() && reordered[i] == records[a];
        assert(after[i].acronym == key);
    }
    assert(dictionary_of(after) =~= dictionary_of(before));
}

} // verus!
