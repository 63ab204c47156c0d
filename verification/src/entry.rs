//! Items and entries: the meanings recorded for one abbreviation.

use vstd::prelude::*;
use vstd::string::*;

use crate::decimal::to_decimal;
use crate::error::StorageError;
use crate::model::{
    has_name, names_distinct, render_entry, render_header, render_item, render_lines, EntryView,
    ErrorView, ItemView,
};

verus! {

/// The view of an optional text.
pub open spec fn text_view(text: Option<String>) -> Option<Seq<char>> {
    match text {
        Some(t) => Some(t@),
        None => None,
    }
}

/// One recorded meaning: the long form, and a description where one was given.
#[derive(Debug)]
pub struct Item {
    pub name: String,
    pub description: Option<String>,
}

impl View for Item {
    type V = ItemView;

    open spec fn view(&self) -> ItemView {
        ItemView { name: self.name@, description: text_view(self.description) }
    }
}

impl Clone for Item {
    fn clone(&self) -> (copy: Item)
        ensures
            copy@ == self@,
    {
        let description = match &self.description {
            Some(d) => Some(d.clone()),
            None => None,
        };
        Item { name: self.name.clone(), description }
    }
}

impl Item {
    pub fn new(name: String, description: Option<String>) -> (item: Item)
        ensures
            item.name == name,
            item.description == description,
    {
        Item { name, description }
    }

    /// The item as text: its meaning, then a colon and its description where
    /// it has one.
    pub fn to_string(&self) -> (s: String)
        ensures
            s@ == render_item(self@),
    {
        let mut s = self.name.clone();
        match &self.description {
            Some(d) => {
                s.append(": ");
                s.append(d.as_str());
            },
            None => {},
        }
        s
    }
}

/// The views of a run of items.
pub open spec fn item_views(items: Seq<Item>) -> Seq<ItemView> {
    items.map_values(|item: Item| item@)
}

/// All meanings recorded for one abbreviation, in the order they were added.
/// Positions in `items` are what an id refers to.
#[derive(Debug)]
pub struct Entry {
    pub acronym: String,
    pub items: Vec<Item>,
}

impl View for Entry {
    type V = EntryView;

    open spec fn view(&self) -> EntryView {
        EntryView { acronym: self.acronym@, items: item_views(self.items@) }
    }
}

/// A copy of `items`, item by item.
pub fn clone_items(items: &Vec<Item>) -> (copy: Vec<Item>)
    ensures
        item_views(copy@) == item_views(items@),
{
    let mut copy: Vec<Item> = Vec::new();
    let mut i: usize = 0;
    while i < items.len()
        invariant
            i <= items.len(),
            copy.len() == i,
            forall|j: int| 0 <= j < i ==> copy[j]@ == items[j]@,
        decreases items.len() - i,
    {
        copy.push(items[i].clone());
        i = i + 1;
    }
    assert(item_views(copy@) =~= item_views(items@));
    copy
}

/// Whether no two of `items` carry the same meaning.
pub fn names_are_distinct(items: &Vec<Item>) -> (distinct: bool)
    ensures
        distinct == names_distinct(item_views(items@)),
{
    let ghost views = item_views(items@);
    let mut j: usize = 0;
    while j < items.len()
        invariant
            j <= items.len(),
            views == item_views(items@),
            forall|a: int, b: int|
                0 <= a < b < j ==> (#[trigger] views[a]).name != (#[trigger] views[b]).name,
        decreases items.len() - j,
    {
        let mut i: usize = 0;
        while i < j
            invariant
                i <= j < items.len(),
                views == item_views(items@),
                forall|a: int| 0 <= a < i ==> (#[trigger] views[a]).name != views[j as int].name,
            decreases j - i,
        {
            if items[i].name == items[j].name {
                assert(views[i as int].name == views[j as int].name);
                return false;
            }
            i = i + 1;
        }
        j = j + 1;
    }
    true
}

impl Clone for Entry {
    fn clone(&self) -> (copy: Entry)
        ensures
            copy@ == self@,
    {
        Entry { acronym: self.acronym.clone(), items: clone_items(&self.items) }
    }
}

impl Entry {
    pub fn new(acronym: String, items: Vec<Item>) -> (entry: Entry)
        ensures
            entry.acronym == acronym,
            entry.items == items,
    {
        Entry { acronym, items }
    }

    /// Whether one of the items carries the meaning `name`.
    pub fn has_item(&self, name: &String) -> (found: bool)
        ensures
            found == has_name(self@.items, name@),
    {
        let mut i: usize = 0;
        while i < self.items.len()
            invariant
                i <= self.items.len(),
                forall|j: int| 0 <= j < i ==> self.items[j].name@ != name@,
            decreases self.items.len() - i,
        {
            if self.items[i].name == *name {
                assert(self@.items[i as int].name == name@);
                return true;
            }
            i = i + 1;
        }
        assert forall|j: int| 0 <= j < self@.items.len() implies (#[trigger] self@.items[j]).name
            != name@ by {
            assert(self@.items[j] == self.items[j]@);
        }
        false
    }

    /// Whether an item other than the one at position `index` carries the
    /// meaning `name`.
    pub fn has_other_item(&self, index: usize, name: &String) -> (found: bool)
        requires
            index < self.items.len(),
        ensures
            found == has_name(self@.items.remove(index as int), name@),
    {
        let ghost others = self@.items.remove(index as int);
        let mut j: usize = 0;
        while j < self.items.len()
            invariant
                j <= self.items.len(),
                index < self.items.len(),
                others == self@.items.remove(index as int),
                forall|k: int| 0 <= k < j && k != index ==> self.items[k].name@ != name@,
            decreases self.items.len() - j,
        {
            if j != index && self.items[j].name == *name {
                proof {
                    let at = if j < index { j as int } else { j - 1 };
                    assert(others[at] == self@.items[j as int]);
                    assert(others[at].name == name@);
                }
                return true;
            }
            j = j + 1;
        }
        assert forall|k: int| 0 <= k < others.len() implies (#[trigger] others[k]).name
            != name@ by {
            let from = if k < index { k } else { k + 1 };
            assert(others[k] == self.items[from]@);
        }
        false
    }

    /// Adds a meaning at the end, unless the entry already has one of that
    /// name: then the entry stays as it is and the name comes back in the error.
    pub fn add_item(&mut self, name: String, description: Option<String>) -> (r: Result<
        (),
        StorageError,
    >)
        ensures
            match r {
                Ok(_) => {
                    &&& !has_name(old(self)@.items, name@)
                    &&& final(self)@ == EntryView {
                        acronym: old(self)@.acronym,
                        items: old(self)@.items.push(
                            ItemView { name: name@, description: text_view(description) },
                        ),
                    }
                },
                Err(e) => {
                    &&& has_name(old(self)@.items, name@)
                    &&& e@ == ErrorView::DuplicatePut(name@)
                    &&& *final(self) == *old(self)
                },
            },
    {
        if self.has_item(&name) {
            return Err(StorageError::DuplicatePut(name));
        }
        self.items.push(Item::new(name, description));
        assert(self@.items =~= old(self)@.items.push(
            ItemView { name: name@, description: text_view(description) },
        ));
        Ok(())
    }

    /// The entry as text: a header and one numbered line for each item, or
    /// a note that nothing matches where it has no items.
    pub fn to_string(&self) -> (s: String)
        ensures
            s@ == render_entry(self@),
    {
        let mut s = self.acronym.clone();
        if self.items.len() == 0 {
            s.append(" has no matches");
            return s;
        }
        if self.items.len() == 1 {
            s.append(":");
        } else {
            s.append(" is one of the following:");
        }
        let mut i: usize = 0;
        while i < self.items.len()
            invariant
                i <= self.items.len(),
                s@ == render_header(self@) + render_lines(self@.items.take(i as int)),
            decreases self.items.len() - i,
        {
            let number = to_decimal(i + 1);
            let line = self.items[i].to_string();
            proof {
                let before = self@.items.take(i as int);
                let now = self@.items.take(i + 1);
                assert(now.drop_last() =~= before);
                assert(now.last() == self.items[i as int]@);
                assert(s@ + "\n "@ + number@ + ") "@ + line@ =~= render_header(self@)
                    + render_lines(now));
            }
            s.append("\n ");
            s.append(number.as_str());
            s.append(") ");
            s.append(line.as_str());
            i = i + 1;
        }
        assert(self@.items.take(i as int) =~= self@.items);
        s
    }
}

} // verus!
