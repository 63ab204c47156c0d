//! What holds of the operations on a dictionary, whatever it holds.

use vstd::prelude::*;

use crate::model::{
    apply_changes, count_name, delete_spec, has_name, lemma_own_name_is_free,
    lemma_push_keeps_distinct, lemma_remove_keeps_distinct, lemma_update_keeps_distinct, lookup,
    modify_spec, names_distinct, put_spec, rename_collides, target, valid_dictionary,
    Dictionary, ErrorView, ItemView, ModificationView,
};

verus! {

/// The dictionary after an attempt to change it: the new one, or the old one
/// where the attempt was refused.
pub open spec fn after(d: Dictionary, attempt: Result<Dictionary, ErrorView>) -> Dictionary {
    match attempt {
        Ok(changed) => changed,
        Err(_) => d,
    }
}

/// Items hold a name exactly when they hold it at least once.
pub proof fn lemma_count_has_name(items: Seq<ItemView>, name: Seq<char>)
    ensures
        has_name(items, name) <==> count_name(items, name) >= 1,
    decreases items.len(),
{
    if items.len() > 0 {
        let front = items.drop_last();
        lemma_count_has_name(front, name);
        if has_name(front, name) {
            let i = choose|i: int| 0 <= i < front.len() && (#[trigger] front[i]).name == name;
            assert(items[i].name == name);
        }
        if items.last().name == name {
            assert(items[items.len() - 1].name == name);
        }
        if has_name(items, name) {
            let i = choose|i: int| 0 <= i < items.len() && (#[trigger] items[i]).name == name;
            if i < front.len() {
                assert(front[i].name == name);
            }
        }
    }
}

/// Items with distinct names hold each name at most once.
pub proof fn lemma_distinct_counts(items: Seq<ItemView>, name: Seq<char>)
    requires
        names_distinct(items),
    ensures
        count_name(items, name) <= 1,
    decreases items.len(),
{
    if items.len() > 0 {
        let front = items.drop_last();
        assert forall|i: int, j: int| 0 <= i < j < front.len() implies (#[trigger] front[i]).name
            != (#[trigger] front[j]).name by {
            assert(items[i].name != items[j].name);
        }
        lemma_distinct_counts(front, name);
        lemma_count_has_name(front, name);
        if items.last().name == name && has_name(front, name) {
            let i = choose|i: int| 0 <= i < front.len() && (#[trigger] front[i]).name == name;
            assert(items[i].name != items[items.len() - 1].name);
        }
    }
}

/// A lookup always has an answer: the items of a stored abbreviation, and no
/// items for any other.
pub proof fn lemma_lookup_total(d: Dictionary, acronym: Seq<char>)
    ensures
        lookup(d, acronym).acronym == acronym,
        !d.dom().contains(acronym) ==> lookup(d, acronym).items.len() == 0,
        d.dom().contains(acronym) ==> lookup(d, acronym).items == d[acronym],
{
}

/// Storing the same meaning twice under one abbreviation: the second attempt
/// is refused as a duplicate and changes nothing, and the abbreviation is
/// left with exactly one item of that name.
pub proof fn lemma_put_twice(
    d: Dictionary,
    acronym: Seq<char>,
    first: ItemView,
    second: ItemView,
)
    requires
        valid_dictionary(d),
        first.name == second.name,
    ensures
        ({
            let once = after(d, put_spec(d, acronym, first));
            let twice = put_spec(once, acronym, second);
            &&& twice == Err::<Dictionary, ErrorView>(ErrorView::DuplicatePut(second.name))
            &&& after(once, twice) == once
            &&& once.dom().contains(acronym)
            &&& count_name(once[acronym], first.name) == 1
        }),
{
    let name = first.name;
    let once = after(d, put_spec(d, acronym, first));
    if !d.dom().contains(acronym) {
        let items = seq![first];
        assert(items[0].name == name);
        assert(items.drop_last() =~= Seq::<ItemView>::empty());
        assert(count_name(items.drop_last(), name) == 0);
        assert(count_name(items, name) == 1);
        lemma_count_has_name(items, name);
    } else if has_name(d[acronym], name) {
        lemma_count_has_name(d[acronym], name);
        lemma_distinct_counts(d[acronym], name);
    } else {
        let items = d[acronym].push(first);
        lemma_count_has_name(d[acronym], name);
        assert(items.drop_last() =~= d[acronym]);
        assert(count_name(items, name) == 1);
        lemma_count_has_name(items, name);
    }
}

/// Deleting the only item of an abbreviation, with or without naming it,
/// removes the abbreviation from the dictionary.
pub proof fn lemma_delete_only_item(d: Dictionary, acronym: Seq<char>, id: Option<usize>)
    requires
        d.dom().contains(acronym),
        d[acronym].len() == 1,
        id is None || id == Some(0usize),
    ensures
        delete_spec(d, acronym, id) == Ok::<Dictionary, ErrorView>(d.remove(acronym)),
        !delete_spec(d, acronym, id)->Ok_0.dom().contains(acronym),
{
}

/// Without an id, an abbreviation with two or more items cannot be deleted
/// from: the request is ambiguous.
pub proof fn lemma_delete_ambiguous(d: Dictionary, acronym: Seq<char>)
    requires
        d.dom().contains(acronym),
        d[acronym].len() >= 2,
    ensures
        delete_spec(d, acronym, None) == Err::<Dictionary, ErrorView>(ErrorView::AmbiguousItem),
{
}

/// Without an id, an abbreviation with two or more items cannot be modified:
/// the request is ambiguous.
pub proof fn lemma_modify_ambiguous(d: Dictionary, m: ModificationView)
    requires
        d.dom().contains(m.acronym),
        d[m.acronym].len() >= 2,
        m.id is None,
    ensures
        modify_spec(d, m) == Err::<Dictionary, ErrorView>(ErrorView::AmbiguousItem),
{
}

/// With an id in range, a deletion from an abbreviation with two or more
/// items removes exactly the item at that position: the others keep their
/// order, and every other abbreviation stays as it was.
pub proof fn lemma_delete_targets(d: Dictionary, acronym: Seq<char>, id: usize)
    requires
        d.dom().contains(acronym),
        d[acronym].len() >= 2,
        id < d[acronym].len(),
    ensures
        delete_spec(d, acronym, Some(id)) is Ok,
        ({
            let after = delete_spec(d, acronym, Some(id))->Ok_0;
            &&& after.dom() == d.dom()
            &&& after[acronym].len() == d[acronym].len() - 1
            &&& forall|i: int| 0 <= i < id ==> #[trigger] after[acronym][i] == d[acronym][i]
            &&& forall|i: int|
                id <= i < after[acronym].len() ==> #[trigger] after[acronym][i] == d[acronym][i
                    + 1]
            &&& forall|other: Seq<char>|
                other != acronym && d.dom().contains(other) ==> #[trigger] after[other]
                    == d[other]
        }),
{
    let after = delete_spec(d, acronym, Some(id))->Ok_0;
    assert(after.dom() =~= d.dom());
}

/// A modification that would give an item the name of another item of the
/// same abbreviation is refused as a duplicate.
pub proof fn lemma_modify_duplicate(d: Dictionary, m: ModificationView)
    requires
        d.dom().contains(m.acronym),
        m.id matches Some(id) && id < d[m.acronym].len(),
        rename_collides(d[m.acronym], m.id->Some_0 as int, m),
    ensures
        modify_spec(d, m) == Err::<Dictionary, ErrorView>(
            ErrorView::DuplicatePut(m.new_name->Some_0),
        ),
{
}

/// With an id in range, a modification that is no such duplicate changes
/// exactly the item at that position, and in it only the fields that the
/// modification names: every other item and every other abbreviation stays
/// as it was.
pub proof fn lemma_modify_targets(d: Dictionary, m: ModificationView)
    requires
        d.dom().contains(m.acronym),
        m.id matches Some(id) && id < d[m.acronym].len(),
        !rename_collides(d[m.acronym], m.id->Some_0 as int, m),
    ensures
        modify_spec(d, m) is Ok,
        ({
            let after = modify_spec(d, m)->Ok_0;
            let id = m.id->Some_0 as int;
            &&& after.dom() == d.dom()
            &&& after[m.acronym].len() == d[m.acronym].len()
            &&& after[m.acronym][id] == apply_changes(d[m.acronym][id], m)
            &&& forall|i: int|
                0 <= i < d[m.acronym].len() && i != id ==> #[trigger] after[m.acronym][i]
                    == d[m.acronym][i]
            &&& forall|other: Seq<char>|
                other != m.acronym && d.dom().contains(other) ==> #[trigger] after[other]
                    == d[other]
        }),
{
    let after = modify_spec(d, m)->Ok_0;
    assert(after.dom() =~= d.dom());
}

/// Every operation keeps the dictionary valid: no abbreviation is left
/// without items, and none gets two items of one name.
pub proof fn lemma_valid_kept(
    d: Dictionary,
    acronym: Seq<char>,
    item: ItemView,
    id: Option<usize>,
    m: ModificationView,
)
    requires
        valid_dictionary(d),
    ensures
        valid_dictionary(after(d, put_spec(d, acronym, item))),
        valid_dictionary(after(d, delete_spec(d, acronym, id))),
        valid_dictionary(after(d, modify_spec(d, m))),
{
    let put = after(d, put_spec(d, acronym, item));
    assert forall|k: Seq<char>| put.dom().contains(k) implies (#[trigger] put[k]).len() > 0
        && names_distinct(put[k]) by {
        if k != acronym {
            assert(d[k].len() > 0);
        } else if !d.dom().contains(acronym) {
            assert(names_distinct(seq![item]));
        } else {
            assert(d[k].len() > 0);
            if put_spec(d, acronym, item) is Ok {
                lemma_push_keeps_distinct(d[acronym], item);
            }
        }
    }
    let deleted = after(d, delete_spec(d, acronym, id));
    assert forall|k: Seq<char>| deleted.dom().contains(k) implies (#[trigger] deleted[k]).len()
        > 0 && names_distinct(deleted[k]) by {
        assert(d[k].len() > 0);
        if k == acronym {
            if let Ok(i) = target(d[acronym].len(), id) {
                lemma_remove_keeps_distinct(d[acronym], i);
            }
        }
    }
    let modified = after(d, modify_spec(d, m));
    assert forall|k: Seq<char>| modified.dom().contains(k) implies (#[trigger] modified[k]).len()
        > 0 && names_distinct(modified[k]) by {
        assert(d[k].len() > 0);
        if k == m.acronym {
            if let Ok(i) = target(d[k].len(), m.id) {
                if m.new_name is None {
                    lemma_own_name_is_free(d[k], i);
                }
                if !rename_collides(d[k], i, m) {
                    lemma_update_keeps_distinct(d[k], i, apply_changes(d[k][i], m));
                }
            }
        }
    }
}

} // verus!
