//! The mathematical model of the dictionary: what an item, an entry and the
//! whole storage are, and what each operation does to them.

use vstd::prelude::*;

use crate::decimal::decimal;

verus! {

/// One recorded meaning of an abbreviation.
pub struct ItemView {
    pub name: Seq<char>,
    pub description: Option<Seq<char>>,
}

/// All meanings recorded for one abbreviation, in the order they were added.
pub struct EntryView {
    pub acronym: Seq<char>,
    pub items: Seq<ItemView>,
}

/// A requested change of one item.
pub struct ModificationView {
    pub acronym: Seq<char>,
    pub id: Option<usize>,
    pub new_name: Option<Seq<char>>,
    pub new_description: Option<Option<Seq<char>>>,
}

/// What can go wrong, with texts as sequences of characters.
pub enum ErrorView {
    NoSuchFile,
    NoSuchItem,
    AmbiguousItem,
    ParsingProblem(Seq<char>),
    DuplicatePut(Seq<char>),
    Other(Seq<char>),
}

/// The dictionary: each stored abbreviation with its items.
pub type Dictionary = Map<Seq<char>, Seq<ItemView>>;

/// Whether one of `items` carries the meaning `name`.
pub open spec fn has_name(items: Seq<ItemView>, name: Seq<char>) -> bool {
    exists|i: int| 0 <= i < items.len() && (#[trigger] items[i]).name == name
}

/// How many of `items` carry the meaning `name`.
pub open spec fn count_name(items: Seq<ItemView>, name: Seq<char>) -> nat
    decreases items.len(),
{
    if items.len() == 0 {
        0
    } else {
        count_name(items.drop_last(), name) + if items.last().name == name {
            1nat
        } else {
            0nat
        }
    }
}

/// No two of `items` carry the same meaning.
pub open spec fn names_distinct(items: Seq<ItemView>) -> bool {
    forall|i: int, j: int|
        0 <= i < j < items.len() ==> (#[trigger] items[i]).name != (#[trigger] items[j]).name
}

/// One more item keeps the names distinct, if none of the items has its name.
pub proof fn lemma_push_keeps_distinct(items: Seq<ItemView>, item: ItemView)
    requires
        names_distinct(items),
        !has_name(items, item.name),
    ensures
        names_distinct(items.push(item)),
{
    let longer = items.push(item);
    assert forall|i: int, j: int| 0 <= i < j < longer.len() implies (#[trigger] longer[i]).name
        != (#[trigger] longer[j]).name by {
        if j < items.len() {
            assert(items[i].name != items[j].name);
        } else {
            assert(items[i].name != item.name);
        }
    }
}

/// Taking an item out keeps the names distinct.
pub proof fn lemma_remove_keeps_distinct(items: Seq<ItemView>, i: int)
    requires
        names_distinct(items),
        0 <= i < items.len(),
    ensures
        names_distinct(items.remove(i)),
{
    let rest = items.remove(i);
    assert forall|a: int, b: int| 0 <= a < b < rest.len() implies (#[trigger] rest[a]).name != (
    #[trigger] rest[b]).name by {
        let a0 = if a < i { a } else { a + 1 };
        let b0 = if b < i { b } else { b + 1 };
        assert(items[a0].name != items[b0].name);
    }
}

/// Among items with distinct names, none of the others has the name of the
/// item at position `i`.
pub proof fn lemma_own_name_is_free(items: Seq<ItemView>, i: int)
    requires
        names_distinct(items),
        0 <= i < items.len(),
    ensures
        !has_name(items.remove(i), items[i].name),
{
    let rest = items.remove(i);
    assert forall|a: int| 0 <= a < rest.len() implies (#[trigger] rest[a]).name
        != items[i].name by {
        if a < i {
            assert(items[a].name != items[i].name);
        } else {
            assert(items[i].name != items[a + 1].name);
        }
    }
}

/// Putting another item in the place of one keeps the names distinct, if none
/// of the others has its name.
pub proof fn lemma_update_keeps_distinct(items: Seq<ItemView>, i: int, item: ItemView)
    requires
        names_distinct(items),
        0 <= i < items.len(),
        !has_name(items.remove(i), item.name),
    ensures
        names_distinct(items.update(i, item)),
{
    let rest = items.remove(i);
    let after = items.update(i, item);
    assert forall|a: int, b: int| 0 <= a < b < after.len() implies (#[trigger] after[a]).name != (
    #[trigger] after[b]).name by {
        if a == i {
            assert(rest[b - 1] == items[b]);
            assert(rest[b - 1].name != item.name);
        } else if b == i {
            assert(rest[a] == items[a]);
            assert(rest[a].name != item.name);
        } else {
            assert(items[a].name != items[b].name);
        }
    }
}

/// Every stored abbreviation has at least one item.
pub open spec fn no_empty_entry(d: Dictionary) -> bool {
    forall|k: Seq<char>| d.dom().contains(k) ==> (#[trigger] d[k]).len() > 0
}

/// In every stored abbreviation, no two items carry the same meaning.
pub open spec fn all_names_distinct(d: Dictionary) -> bool {
    forall|k: Seq<char>| d.dom().contains(k) ==> names_distinct(#[trigger] d[k])
}

/// What holds of the dictionary of every storage: no abbreviation is without
/// items, and none has two items of one name.
pub open spec fn valid_dictionary(d: Dictionary) -> bool {
    &&& no_empty_entry(d)
    &&& all_names_distinct(d)
}

/// The entry that a lookup of `acronym` gives: its items, or none where the
/// abbreviation is not stored.
pub open spec fn lookup(d: Dictionary, acronym: Seq<char>) -> EntryView {
    EntryView {
        acronym,
        items: if d.dom().contains(acronym) {
            d[acronym]
        } else {
            Seq::empty()
        },
    }
}

/// Storing `item` under `acronym`: a new entry, one more item in an existing
/// entry, or a refusal where the entry already has an item of that name.
pub open spec fn put_spec(d: Dictionary, acronym: Seq<char>, item: ItemView) -> Result<
    Dictionary,
    ErrorView,
> {
    if !d.dom().contains(acronym) {
        Ok(d.insert(acronym, seq![item]))
    } else if has_name(d[acronym], item.name) {
        Err(ErrorView::DuplicatePut(item.name))
    } else {
        Ok(d.insert(acronym, d[acronym].push(item)))
    }
}

/// The position that an optional id selects among `len` items. A given id is
/// the position itself; without one the only item is meant.
pub open spec fn target(len: nat, id: Option<usize>) -> Result<int, ErrorView> {
    match id {
        Some(i) => if i < len {
            Ok(i as int)
        } else {
            Err(ErrorView::NoSuchItem)
        },
        None => if len > 1 {
            Err(ErrorView::AmbiguousItem)
        } else if len == 1 {
            Ok(0)
        } else {
            Err(ErrorView::NoSuchItem)
        },
    }
}

/// Removing the selected item of `acronym`; the abbreviation goes with its
/// last item.
pub open spec fn delete_spec(d: Dictionary, acronym: Seq<char>, id: Option<usize>) -> Result<
    Dictionary,
    ErrorView,
> {
    if !d.dom().contains(acronym) {
        Err(ErrorView::NoSuchItem)
    } else {
        match target(d[acronym].len(), id) {
            Err(e) => Err(e),
            Ok(i) => {
                let rest = d[acronym].remove(i);
                if rest.len() == 0 {
                    Ok(d.remove(acronym))
                } else {
                    Ok(d.insert(acronym, rest))
                }
            },
        }
    }
}

/// `item` with the fields that `m` names replaced, the others kept.
pub open spec fn apply_changes(item: ItemView, m: ModificationView) -> ItemView {
    ItemView {
        name: match m.new_name {
            Some(n) => n,
            None => item.name,
        },
        description: match m.new_description {
            Some(d) => d,
            None => item.description,
        },
    }
}

/// Whether giving the item at position `i` the name that `m` asks for would
/// make it share that name with another of the items.
pub open spec fn rename_collides(items: Seq<ItemView>, i: int, m: ModificationView) -> bool {
    m.new_name matches Some(name) && has_name(items.remove(i), name)
}

/// Changing the selected item as `m` asks. A new name that another item of
/// the abbreviation carries already is refused as a duplicate.
pub open spec fn modify_spec(d: Dictionary, m: ModificationView) -> Result<Dictionary, ErrorView> {
    if !d.dom().contains(m.acronym) {
        Err(ErrorView::NoSuchItem)
    } else {
        match target(d[m.acronym].len(), m.id) {
            Err(e) => Err(e),
            Ok(i) => if rename_collides(d[m.acronym], i, m) {
                Err(ErrorView::DuplicatePut(m.new_name->Some_0))
            } else {
                Ok(d.insert(m.acronym, d[m.acronym].update(i, apply_changes(d[m.acronym][i], m))))
            },
        }
    }
}

/// One item as text: its meaning, then its description where it has one.
pub open spec fn render_item(item: ItemView) -> Seq<char> {
    match item.description {
        Some(d) => item.name + ": "@ + d,
        None => item.name,
    }
}

/// The numbered lines of a listing, one per item, counted from 1.
pub open spec fn render_lines(items: Seq<ItemView>) -> Seq<char>
    decreases items.len(),
{
    if items.len() == 0 {
        Seq::empty()
    } else {
        render_lines(items.drop_last()) + "\n "@ + decimal(items.len()) + ") "@ + render_item(
            items.last(),
        )
    }
}

/// The line above a listing: the abbreviation alone where it has one
/// meaning, and a remark that there is a choice where it has several.
pub open spec fn render_header(e: EntryView) -> Seq<char> {
    if e.items.len() == 1 {
        e.acronym + ":"@
    } else {
        e.acronym + " is one of the following:"@
    }
}

/// An entry as text: a note that nothing matches, or the header above the
/// numbered items.
pub open spec fn render_entry(e: EntryView) -> Seq<char> {
    if e.items.len() == 0 {
        e.acronym + " has no matches"@
    } else {
        render_header(e) + render_lines(e.items)
    }
}

/// The text that reports an error.
pub open spec fn error_text(e: ErrorView) -> Seq<char> {
    match e {
        ErrorView::NoSuchFile => "Tried to load a file which doesn't exist"@,
        ErrorView::NoSuchItem => "Item does not exist in storage"@,
        ErrorView::AmbiguousItem =>
            "Not enough information to decide which item, please provide an id"@,
        ErrorView::ParsingProblem(s) => "Failed to parse storage: "@ + s,
        ErrorView::DuplicatePut(s) => s + " already exists in storage"@,
        ErrorView::Other(s) => "Unexpected storage error: "@ + s,
    }
}

} // verus!
