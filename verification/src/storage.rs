//! The dictionary itself: abbreviations with their items, and the operations
//! that store, look up, change and remove them.

use vstd::prelude::*;
use vstd::string::*;

use crate::entry::{item_views, names_are_distinct, text_view, Entry, Item};
pub use crate::error::StorageError;
use crate::layout::{
    decode, dictionary_of, encodes, fault_at, first_fault, holds_key, key_seen, keys_distinct,
    lemma_dictionary_at, lemma_dictionary_push, lemma_dictionary_remove, lemma_dictionary_update,
    lemma_fault_free_prefix, lemma_first_fault_found, record_entries, well_formed_records,
};
use crate::model::{
    apply_changes, delete_spec, lemma_own_name_is_free, lemma_push_keeps_distinct,
    lemma_remove_keeps_distinct, lemma_update_keeps_distinct, lookup, modify_spec, names_distinct,
    put_spec, rename_collides, target, valid_dictionary, Dictionary, EntryView, ErrorView,
    ItemView, ModificationView,
};

verus! {

/// The views of a run of entries.
pub open spec fn entry_views(entries: Seq<Entry>) -> Seq<EntryView> {
    entries.map_values(|entry: Entry| entry@)
}

/// Picks the position that an optional id selects among `len` items.
pub fn resolve_target(len: usize, id: Option<usize>) -> (r: Result<usize, StorageError>)
    ensures
        match target(len as nat, id) {
            Ok(i) => r == Ok::<usize, StorageError>(i as usize) && i < len,
            Err(e) => r is Err && r->Err_0@ == e,
        },
{
    match id {
        Some(i) => if i < len {
            Ok(i)
        } else {
            Err(StorageError::NoSuchItem)
        },
        None => if len > 1 {
            Err(StorageError::AmbiguousItem)
        } else if len == 1 {
            Ok(0)
        } else {
            Err(StorageError::NoSuchItem)
        },
    }
}

/// The views of a run of records.
pub open spec fn record_views(records: Seq<(String, Entry)>) -> Seq<(Seq<char>, EntryView)> {
    records.map_values(|record: (String, Entry)| (record.0@, record.1@))
}

/// The position of the entry for `key` among `entries`, where there is one.
fn find_entry(entries: &Vec<Entry>, key: &String) -> (r: Option<usize>)
    ensures
        match r {
            Some(i) => i < entries.len() && entries[i as int].acronym@ == key@,
            None => !holds_key(entry_views(entries@), key@),
        },
{
    let mut i: usize = 0;
    while i < entries.len()
        invariant
            i <= entries.len(),
            forall|j: int| 0 <= j < i ==> (#[trigger] entries[j]).acronym@ != key@,
        decreases entries.len() - i,
    {
        if entries[i].acronym == *key {
            return Some(i);
        }
        i = i + 1;
    }
    proof {
        let views = entry_views(entries@);
        assert forall|j: int| 0 <= j < views.len() implies (#[trigger] views[j]).acronym
            != key@ by {
            assert(views[j] == entries[j]@);
        }
    }
    None
}

/// A change to make to one item: which abbreviation and which of its items,
/// and the fields to replace. A field that was not set stays as it is.
pub struct StorageModification {
    acronym: String,
    id: Option<usize>,
    new_name: Option<String>,
    new_description: Option<Option<String>>,
}

impl View for StorageModification {
    type V = ModificationView;

    closed spec fn view(&self) -> ModificationView {
        ModificationView {
            acronym: self.acronym@,
            id: self.id,
            new_name: text_view(self.new_name),
            new_description: match self.new_description {
                Some(d) => Some(text_view(d)),
                None => None,
            },
        }
    }
}

impl StorageModification {
    /// A modification of the item at position `id` of `acronym`, or of its
    /// only item where no id is given, that changes nothing yet.
    pub fn new(acronym: String, id: Option<usize>) -> (m: StorageModification)
        ensures
            m@ == (ModificationView {
                acronym: acronym@,
                id,
                new_name: None,
                new_description: None,
            }),
    {
        StorageModification { acronym, id, new_name: None, new_description: None }
    }

    /// Asks for a new meaning.
    pub fn name(self, new_name: String) -> (m: StorageModification)
        ensures
            m@ == (ModificationView { new_name: Some(new_name@), ..self@ }),
    {
        StorageModification {
            acronym: self.acronym,
            id: self.id,
            new_name: Some(new_name),
            new_description: self.new_description,
        }
    }

    /// Asks for a new description, or with `None` for the description to be
    /// cleared.
    pub fn description(self, new_description: Option<String>) -> (m: StorageModification)
        ensures
            m@ == (ModificationView {
                new_description: Some(text_view(new_description)),
                ..self@
            }),
    {
        StorageModification {
            acronym: self.acronym,
            id: self.id,
            new_name: self.new_name,
            new_description: Some(new_description),
        }
    }
}

/// The dictionary of abbreviations. Each abbreviation has one entry, and an
/// entry in the storage always has at least one item and never two items of
/// one name.
///
/// Abbreviations are compared as they are given: whoever wants `cpu` and
/// `CPU` to be one abbreviation brings them to one form first, as the
/// commands of this crate do.
#[derive(Debug)]
pub struct Storage {
    entries: Vec<Entry>,
}

impl View for Storage {
    type V = Dictionary;

    closed spec fn view(&self) -> Dictionary {
        dictionary_of(entry_views(self.entries@))
    }
}

impl Storage {
    /// No abbreviation has two entries, no entry is without items, and no
    /// entry has two items of one name.
    #[verifier::type_invariant]
    pub closed spec fn well_formed(self) -> bool {
        &&& keys_distinct(entry_views(self.entries@))
        &&& forall|i: int| 0 <= i < self.entries.len() ==> (#[trigger] self.entries[i]).items.len() > 0
        &&& forall|i: int|
            0 <= i < self.entries.len() ==> names_distinct((#[trigger] self.entries[i])@.items)
    }

    /// The dictionary of a well-formed storage is valid.
    pub proof fn lemma_valid(self)
        requires
            self.well_formed(),
        ensures
            valid_dictionary(self@),
    {
        let stored = entry_views(self.entries@);
        assert forall|k: Seq<char>| self@.dom().contains(k) implies (#[trigger] self@[k]).len() > 0
            && names_distinct(self@[k]) by {
            let i = crate::layout::index_of(stored, k);
            lemma_dictionary_at(stored, i);
            assert(stored[i] == self.entries[i]@);
            assert(self.entries[i]@.items.len() == self.entries[i].items.len());
        }
    }

    /// An empty storage.
    pub fn new() -> (s: Storage)
        ensures
            s@ == Map::<Seq<char>, Seq<ItemView>>::empty(),
    {
        let s = Storage { entries: Vec::new() };
        assert(s@ =~= Map::<Seq<char>, Seq<ItemView>>::empty());
        s
    }

    /// The storage that a file without any content stands for: the empty
    /// one. A file with content has to be parsed, and gets no answer here.
    pub fn from_blank(contents: &str) -> (r: Option<Storage>)
        ensures
            r is Some <==> contents@.len() == 0,
            r is Some ==> r->Some_0@ == Map::<Seq<char>, Seq<ItemView>>::empty(),
    {
        if contents.is_empty() {
            Some(Storage::new())
        } else {
            None
        }
    }

    /// Looks `acronym` up. The answer is a copy of its entry, or an entry
    /// without items where the abbreviation is not stored.
    pub fn get(&self, acronym: &str) -> (entry: Entry)
        ensures
            entry@ == lookup(self@, acronym@),
            entry.items.len() > 0 <==> self@.dom().contains(acronym@),
            names_distinct(entry@.items),
    {
        proof {
            use_type_invariant(self);
        }
        let key = acronym.to_owned();
        let ghost stored = entry_views(self.entries@);
        match find_entry(&self.entries, &key) {
            Some(at) => {
                proof {
                    assert(stored[at as int] == self.entries[at as int]@);
                    lemma_dictionary_at(stored, at as int);
                }
                let entry = self.entries[at].clone();
                assert(entry@.items.len() == entry.items.len());
                assert(self.entries[at as int]@.items.len() == self.entries[at as int].items.len());
                entry
            },
            None => {
                let entry = Entry::new(key, Vec::new());
                assert(entry@.items =~= Seq::<ItemView>::empty());
                entry
            },
        }
    }

    /// Stores a meaning under `acronym`: as the first item of a new entry, or
    /// at the end of the entry that is there. Where that entry already has an
    /// item of this name, nothing changes and the name comes back in the error.
    pub fn put(&mut self, acronym: String, name: String, description: Option<String>) -> (r:
        Result<(), StorageError>)
        ensures
            match put_spec(
                old(self)@,
                acronym@,
                ItemView { name: name@, description: text_view(description) },
            ) {
                Ok(d) => r is Ok && final(self)@ == d,
                Err(e) => r is Err && r->Err_0@ == e && final(self)@ == old(self)@,
            },
    {
        proof {
            use_type_invariant(&*self);
        }
        let ghost before = entry_views(self.entries@);
        let ghost item = ItemView { name: name@, description: text_view(description) };
        match find_entry(&self.entries, &acronym) {
            Some(at) => {
                proof {
                    assert(before[at as int] == self.entries[at as int]@);
                    lemma_dictionary_at(before, at as int);
                }
                let mut entries: Vec<Entry> = Vec::new();
                std::mem::swap(&mut self.entries, &mut entries);
                let ghost stored = entries@;
                let r = entries[at].add_item(name, description);
                proof {
                    assert(entries@ =~= stored.update(at as int, entries[at as int]));
                    assert(entries[at as int]@.items.len() == entries[at as int].items.len());
                    assert forall|i: int| 0 <= i < entries.len() implies (
                    #[trigger] entries[i]).items.len() > 0 by {
                        if i != at {
                            assert(entries[i] == stored[i]);
                        }
                    }
                    assert forall|i: int| 0 <= i < entries.len() implies names_distinct(
                        (#[trigger] entries[i])@.items,
                    ) by {
                        if i != at {
                            assert(entries[i] == stored[i]);
                        } else if r is Ok {
                            lemma_push_keeps_distinct(stored[at as int]@.items, item);
                        }
                    }
                    if r is Ok {
                        assert(entry_views(entries@) =~= before.update(
                            at as int,
                            entries[at as int]@,
                        ));
                        lemma_dictionary_update(before, at as int, entries[at as int]@);
                    } else {
                        assert(entries@ =~= old(self).entries@);
                    }
                }
                self.entries = entries;
                r
            },
            None => {
                let mut items: Vec<Item> = Vec::new();
                items.push(Item::new(name, description));
                let entry = Entry::new(acronym, items);
                proof {
                    assert(entry@.items =~= seq![item]);
                    lemma_dictionary_push(before, entry@);
                }
                let ghost stored = self.entries@;
                let mut entries: Vec<Entry> = Vec::new();
                std::mem::swap(&mut self.entries, &mut entries);
                entries.push(entry);
                proof {
                    assert(entry_views(entries@) =~= before.push(entry@));
                    assert forall|i: int| 0 <= i < entries.len() implies names_distinct(
                        (#[trigger] entries[i])@.items,
                    ) by {
                        if i < stored.len() {
                            assert(entries[i] == stored[i]);
                        }
                    }
                }
                self.entries = entries;
                Ok(())
            },
        }
    }

    /// Changes one item as `modification` asks: the one at its id, or the
    /// only one where it has no id. Only the fields that the modification
    /// names change. A new name that another item of the abbreviation has
    /// already is refused as a duplicate. On an error nothing changes.
    pub fn modify(&mut self, modification: StorageModification) -> (r: Result<(), StorageError>)
        ensures
            match modify_spec(old(self)@, modification@) {
                Ok(d) => r is Ok && final(self)@ == d,
                Err(e) => r is Err && r->Err_0@ == e && final(self)@ == old(self)@,
            },
    {
        proof {
            use_type_invariant(&*self);
        }
        let ghost change = modification@;
        let StorageModification { acronym, id, new_name, new_description } = modification;
        let ghost before = entry_views(self.entries@);
        let at = match find_entry(&self.entries, &acronym) {
            Some(at) => at,
            None => {
                return Err(StorageError::NoSuchItem);
            },
        };
        proof {
            assert(before[at as int] == self.entries[at as int]@);
            lemma_dictionary_at(before, at as int);
        }
        let index = match resolve_target(self.entries[at].items.len(), id) {
            Ok(index) => index,
            Err(e) => {
                return Err(e);
            },
        };
        if let Some(name) = &new_name {
            if self.entries[at].has_other_item(index, name) {
                return Err(StorageError::DuplicatePut(name.clone()));
            }
        }
        assert(!rename_collides(before[at as int].items, index as int, change));
        let mut entries: Vec<Entry> = Vec::new();
        std::mem::swap(&mut self.entries, &mut entries);
        let ghost stored = entries@;
        let ghost old_item = entries[at as int].items[index as int]@;
        if let Some(name) = new_name {
            entries[at].items[index].name = name;
        }
        if let Some(description) = new_description {
            entries[at].items[index].description = description;
        }
        proof {
            let entry = entries[at as int]@;
            let new_item = apply_changes(old_item, change);
            assert(entries[at as int].items[index as int]@ == new_item);
            assert(entry.items =~= before[at as int].items.update(index as int, new_item));
            assert(entry_views(entries@) =~= before.update(at as int, entry));
            lemma_dictionary_update(before, at as int, entry);
            assert(old_item == before[at as int].items[index as int]);
            if change.new_name is None {
                lemma_own_name_is_free(before[at as int].items, index as int);
            }
            lemma_update_keeps_distinct(before[at as int].items, index as int, new_item);
            assert forall|i: int| 0 <= i < entries.len() implies (
            #[trigger] entries[i]).items.len() > 0 && names_distinct(entries[i]@.items) by {
                if i != at {
                    assert(entries[i] == stored[i]);
                } else {
                    assert(entries[i]@.items.len() == entries[i].items.len());
                }
            }
        }
        self.entries = entries;
        Ok(())
    }

    /// Removes one item of `acronym`: the one at position `id`, or the only
    /// one where no id is given. With its last item the abbreviation itself
    /// leaves the storage. On an error nothing changes.
    pub fn delete(&mut self, acronym: &str, id: Option<usize>) -> (r: Result<(), StorageError>)
        ensures
            match delete_spec(old(self)@, acronym@, id) {
                Ok(d) => r is Ok && final(self)@ == d,
                Err(e) => r is Err && r->Err_0@ == e && final(self)@ == old(self)@,
            },
    {
        proof {
            use_type_invariant(&*self);
        }
        let key = acronym.to_owned();
        let ghost before = entry_views(self.entries@);
        let at = match find_entry(&self.entries, &key) {
            Some(at) => at,
            None => {
                return Err(StorageError::NoSuchItem);
            },
        };
        proof {
            assert(before[at as int] == self.entries[at as int]@);
            lemma_dictionary_at(before, at as int);
        }
        let index = match resolve_target(self.entries[at].items.len(), id) {
            Ok(index) => index,
            Err(e) => {
                return Err(e);
            },
        };
        let mut entries: Vec<Entry> = Vec::new();
        std::mem::swap(&mut self.entries, &mut entries);
        let mut entry = entries.remove(at);
        entry.items.remove(index);
        proof {
            lemma_dictionary_remove(before, at as int);
            assert(entry_views(entries@) =~= before.remove(at as int));
            assert(entry@.items =~= before[at as int].items.remove(index as int));
            lemma_remove_keeps_distinct(before[at as int].items, index as int);
        }
        if !entry.items.is_empty() {
            proof {
                let rest = entry_views(entries@);
                assert(rest.insert(at as int, entry@) =~= before.update(at as int, entry@));
                lemma_dictionary_update(before, at as int, entry@);
            }
            entries.insert(at, entry);
            proof {
                assert(entry_views(entries@) =~= before.update(at as int, entry@));
            }
        }
        self.entries = entries;
        Ok(())
    }

    /// The storage as records, one for each abbreviation: the key it is filed
    /// under, and a copy of its entry.
    pub fn to_records(&self) -> (records: Vec<(String, Entry)>)
        ensures
            encodes(record_views(records@), self@),
    {
        proof {
            use_type_invariant(self);
        }
        let ghost stored = entry_views(self.entries@);
        let mut records: Vec<(String, Entry)> = Vec::new();
        let mut i: usize = 0;
        while i < self.entries.len()
            invariant
                i <= self.entries.len(),
                records.len() == i,
                forall|j: int|
                    0 <= j < i ==> (#[trigger] records[j]).0@ == self.entries[j].acronym@
                        && records[j].1@ == self.entries[j]@,
            decreases self.entries.len() - i,
        {
            let entry = self.entries[i].clone();
            records.push((self.entries[i].acronym.clone(), entry));
            i = i + 1;
        }
        proof {
            let views = record_views(records@);
            assert(record_entries(views) =~= stored);
            assert forall|j: int| 0 <= j < views.len() implies (#[trigger] views[j]).0
                == views[j].1.acronym && views[j].1.items.len() > 0 && names_distinct(
                views[j].1.items,
            ) by {
                assert(views[j].1 == self.entries[j]@);
                assert(self.entries[j]@.items.len() == self.entries[j].items.len());
            }
            assert forall|a: int, b: int| 0 <= a < b < views.len() implies (#[trigger] views[a]).0
                != (#[trigger] views[b]).0 by {
                assert(stored[a].acronym != stored[b].acronym);
            }
        }
        records
    }

    /// Makes a storage of records. They are taken in order, and the first
    /// faulty one is reported as a parsing problem: a record filed under a key
    /// that is not its entry's abbreviation, one without items, one whose key
    /// came before, or one with two items of one name.
    pub fn from_records(records: Vec<(String, Entry)>) -> (r: Result<Storage, StorageError>)
        ensures
            match decode(record_views(records@)) {
                Ok(d) => r is Ok && r->Ok_0@ == d,
                Err(e) => r is Err && r->Err_0@ == e,
            },
    {
        let ghost views = record_views(records@);
        let mut entries: Vec<Entry> = Vec::new();
        let mut i: usize = 0;
        while i < records.len()
            invariant
                i <= records.len(),
                views == record_views(records@),
                first_fault(views, i as int) is None,
                well_formed_records(views.take(i as int)),
                entry_views(entries@) == record_entries(views.take(i as int)),
                forall|j: int| 0 <= j < entries.len() ==> (#[trigger] entries[j]).items.len() > 0,
                forall|j: int|
                    0 <= j < entries.len() ==> names_distinct((#[trigger] entries[j])@.items),
            decreases records.len() - i,
        {
            let key = &records[i].0;
            let entry = &records[i].1;
            let ghost seen = views.take(i as int);
            proof {
                assert(views[i as int] == (key@, entry@));
                assert(entry@.items.len() == entry.items.len());
            }
            if !(*key == entry.acronym) {
                let mut text = String::from_str("key ");
                text.append(key.as_str());
                text.append(" does not match acronym ");
                text.append(entry.acronym.as_str());
                proof {
                    lemma_first_fault_found(views, i as int);
                }
                return Err(StorageError::ParsingProblem(text));
            }
            if entry.items.len() == 0 {
                let mut text = String::from_str("entry ");
                text.append(key.as_str());
                text.append(" has no items");
                proof {
                    lemma_first_fault_found(views, i as int);
                }
                return Err(StorageError::ParsingProblem(text));
            }
            let found = find_entry(&entries, key);
            proof {
                if let Some(at) = found {
                    assert(entry_views(entries@)[at as int].acronym == key@);
                }
                if holds_key(entry_views(entries@), key@) {
                    let j = choose|j: int|
                        0 <= j < seen.len() && (#[trigger] record_entries(seen)[j]).acronym
                            == key@;
                    assert(seen[j] == views[j]);
                    assert(views[j].0 == key@);
                }
                if key_seen(views, i as int, key@) {
                    let j = choose|j: int| 0 <= j < i && (#[trigger] views[j]).0 == key@;
                    assert(seen[j] == views[j]);
                    assert(record_entries(seen)[j].acronym == key@);
                }
                assert(holds_key(entry_views(entries@), key@) == key_seen(views, i as int, key@));
            }
            if found.is_some() {
                let mut text = String::from_str("entry ");
                text.append(key.as_str());
                text.append(" appears more than once");
                proof {
                    lemma_first_fault_found(views, i as int);
                }
                return Err(StorageError::ParsingProblem(text));
            }
            if !names_are_distinct(&entry.items) {
                let mut text = String::from_str("entry ");
                text.append(key.as_str());
                text.append(" has two items of one name");
                proof {
                    lemma_first_fault_found(views, i as int);
                }
                return Err(StorageError::ParsingProblem(text));
            }
            proof {
                assert(fault_at(views, i as int) is None);
                lemma_fault_free_prefix(views, i + 1);
                assert(record_entries(views.take(i + 1)) =~= record_entries(seen).push(entry@));
            }
            entries.push(entry.clone());
            i = i + 1;
        }
        proof {
            assert(views.take(i as int) =~= views);
            let all = record_entries(views);
            assert forall|a: int, b: int| 0 <= a < b < all.len() implies (#[trigger] all[a]).acronym
                != (#[trigger] all[b]).acronym by {
                assert(views[a].0 != views[b].0);
            }
        }
        Ok(Storage { entries })
    }
}

} // verus!
