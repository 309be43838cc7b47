//! A tab: its items, and what its selection holds.

use vstd::prelude::*;

use crate::item::{
    any, cap_u64, count, first_size_error, lemma_count_all, lemma_count_bounded, lemma_count_positive, total, DirSize, Item, ItemMetadata,
    TrashSize,
};
use crate::selection::{opt_view, SelectionStats};

verus! {

/// A tab of the file manager.
#[derive(Debug)]
pub struct Tab {
    /// Whether the tab shows the trash.
    pub is_trash: bool,
    /// Whether hidden items are shown.
    pub show_hidden: bool,
    /// The items, once they are loaded.
    pub items: Option<Vec<Item>>,
}

pub open spec fn selected_pred() -> spec_fn(Item) -> bool {
    |it: Item| it.selected
}

pub open spec fn file_pred() -> spec_fn(Item) -> bool {
    |it: Item| it.is_selected_file()
}

pub open spec fn folder_pred() -> spec_fn(Item) -> bool {
    |it: Item| it.is_selected_folder()
}

pub open spec fn entries_fn() -> spec_fn(Item) -> nat {
    |it: Item| it.known_entries()
}

pub open spec fn size_fn() -> spec_fn(Item) -> nat {
    |it: Item| it.known_size()
}

pub open spec fn unknown_entries_pred() -> spec_fn(Item) -> bool {
    |it: Item| it.has_unknown_entries()
}

pub open spec fn calculating_pred() -> spec_fn(Item) -> bool {
    |it: Item| it.is_calculating()
}

pub open spec fn unknown_size_pred() -> spec_fn(Item) -> bool {
    |it: Item| it.has_unknown_size()
}

impl SelectionStats {
    /// The statistics of the selection among `items`.
    pub open spec fn summarizes(self, items: Seq<Item>) -> bool {
        &&& self.selected_items == count(items, selected_pred())
        &&& self.selected_files == count(items, file_pred())
        &&& self.selected_folders == count(items, folder_pred())
        &&& self.contained_items == cap_u64(total(items, entries_fn()))
        &&& self.contains_items_known == !any(items, unknown_entries_pred())
        &&& self.total_size == cap_u64(total(items, size_fn()))
        &&& self.calculating_dir_size == any(items, calculating_pred())
        &&& self.unknown_size == any(items, unknown_size_pred())
        &&& opt_view(self.dir_size_error) == first_size_error(items)
    }
}

proof fn lemma_take_step(items: Seq<Item>, i: int)
    requires
        0 <= i < items.len(),
    ensures
        items.take(i + 1).drop_last() == items.take(i),
        items.take(i + 1).last() == items[i],
        items.take(i + 1).len() == i + 1,
{
    assert(items.take(i + 1).drop_last() =~= items.take(i));
}

proof fn lemma_any_step(items: Seq<Item>, i: int, p: spec_fn(Item) -> bool)
    requires
        0 <= i < items.len(),
    ensures
        any(items.take(i + 1), p) == (any(items.take(i), p) || p(items[i])),
{
    let a = items.take(i + 1);
    let b = items.take(i);
    if any(a, p) {
        let j = choose|j: int| 0 <= j < a.len() && p(#[trigger] a[j]);
        if j < i {
            assert(b[j] == a[j]);
        }
    }
    if any(b, p) {
        let j = choose|j: int| 0 <= j < b.len() && p(#[trigger] b[j]);
        assert(a[j] == b[j]);
    }
    if p(items[i]) {
        assert(a[i] == items[i]);
    }
}

proof fn lemma_total_step(items: Seq<Item>, i: int, f: spec_fn(Item) -> nat)
    requires
        0 <= i < items.len(),
    ensures
        total(items.take(i + 1), f) == total(items.take(i), f) + f(items[i]),
{
    lemma_take_step(items, i);
}

proof fn lemma_count_step(items: Seq<Item>, i: int, p: spec_fn(Item) -> bool)
    requires
        0 <= i < items.len(),
    ensures
        count(items.take(i + 1), p) == count(items.take(i), p) + if p(items[i]) {
            1nat
        } else {
            0nat
        },
{
    lemma_take_step(items, i);
}

proof fn lemma_error_step(items: Seq<Item>, i: int)
    requires
        0 <= i < items.len(),
    ensures
        first_size_error(items.take(i + 1)) == match first_size_error(items.take(i)) {
            Some(e) => Some(e),
            None => items[i].size_error(),
        },
{
    lemma_take_step(items, i);
}

impl Tab {
    /// What the selection of the tab holds: how many items, files and
    /// folders are selected, how many items the folders contain, the total
    /// size and what is not known of it; none while the items are not loaded.
    pub fn selection_stats(&self) -> (r: Option<SelectionStats>)
        ensures
            r is Some <==> self.items is Some,
            r matches Some(s) ==> s.summarizes(self.items.unwrap()@),
    {
        let items = match &self.items {
            Some(items) => items,
            None => return None,
        };
        let mut stats = SelectionStats {
            selected_items: 0,
            selected_files: 0,
            selected_folders: 0,
            contained_items: 0,
            contains_items_known: true,
            total_size: 0,
            calculating_dir_size: false,
            unknown_size: false,
            dir_size_error: None,
        };
        let n = items.len();
        let mut i: usize = 0;
        assert(items@.take(0) =~= Seq::<Item>::empty());
        while i < n
            invariant
                n == items@.len(),
                i <= n,
                stats.summarizes(items@.take(i as int)),
            decreases n - i,
        {
            let item = &items[i];
            proof {
                lemma_take_step(items@, i as int);
                lemma_count_step(items@, i as int, selected_pred());
                lemma_count_step(items@, i as int, file_pred());
                lemma_count_step(items@, i as int, folder_pred());
                lemma_total_step(items@, i as int, entries_fn());
                lemma_total_step(items@, i as int, size_fn());
                lemma_any_step(items@, i as int, unknown_entries_pred());
                lemma_any_step(items@, i as int, calculating_pred());
                lemma_any_step(items@, i as int, unknown_size_pred());
                lemma_error_step(items@, i as int);
                lemma_count_bounded(items@.take(i as int), selected_pred());
                lemma_count_bounded(items@.take(i as int), file_pred());
                lemma_count_bounded(items@.take(i as int), folder_pred());
            }
            if item.selected {
                stats.selected_items += 1;
                if item.metadata.is_dir() {
                    stats.selected_folders += 1;
                    match &item.metadata {
                        ItemMetadata::Path { children_opt, .. } => {
                            if let Some(children) = children_opt {
                                stats.contained_items = stats.contained_items.saturating_add(
                                    *children as u64,
                                );
                            } else {
                                stats.contains_items_known = false;
                            }
                        },
                        ItemMetadata::Trash { size, .. } => match size {
                            TrashSize::Entries(entries) => {
                                stats.contained_items = stats.contained_items.saturating_add(
                                    *entries as u64,
                                );
                            },
                            TrashSize::Bytes(_) => {
                                stats.contains_items_known = false;
                            },
                        },
                        ItemMetadata::SimpleDir { entries } => {
                            stats.contained_items = stats.contained_items.saturating_add(*entries);
                        },
                        ItemMetadata::SimpleFile { .. } => {},
                    }
                    match &item.dir_size {
                        DirSize::Calculating => {
                            stats.calculating_dir_size = true;
                        },
                        DirSize::Directory(size) => {
                            stats.total_size = stats.total_size.saturating_add(*size);
                        },
                        DirSize::NotDirectory => {
                            stats.unknown_size = true;
                        },
                        DirSize::Error(err) => {
                            if stats.dir_size_error.is_none() {
                                stats.dir_size_error = Some(err.clone());
                            }
                        },
                    }
                } else {
                    stats.selected_files += 1;
                    if let Some(size) = item.metadata.file_size() {
                        stats.total_size = stats.total_size.saturating_add(size);
                    } else {
                        stats.unknown_size = true;
                    }
                }
            }
            i = i + 1;
        }
        assert(items@.take(n as int) =~= items@);
        Some(stats)
    }
}

pub open spec fn selectable_pred(show_hidden: bool) -> spec_fn(Item) -> bool {
    |it: Item| show_hidden || !it.hidden
}

pub open spec fn selectable_selected_pred(show_hidden: bool) -> spec_fn(Item) -> bool {
    |it: Item| (show_hidden || !it.hidden) && it.selected
}

impl Tab {
    /// Whether an item is shown and can be selected.
    pub open spec fn is_selectable(self, item: Item) -> bool {
        self.show_hidden || !item.hidden
    }

    pub open spec fn spec_all_selectable_items_selected(self) -> bool {
        &&& self.items is Some
        &&& exists|i: int|
            0 <= i < self.items.unwrap()@.len() && self.is_selectable(
                #[trigger] self.items.unwrap()@[i],
            )
        &&& forall|i: int|
            0 <= i < self.items.unwrap()@.len() && self.is_selectable(
                #[trigger] self.items.unwrap()@[i],
            ) ==> self.items.unwrap()@[i].selected
    }

    /// Whether some item can be selected and all that can are selected.
    pub fn all_selectable_items_selected(&self) -> (r: bool)
        ensures
            r == self.spec_all_selectable_items_selected(),
    {
        match &self.items {
            None => false,
            Some(items) => {
                let mut selectable_items: usize = 0;
                let mut selected_items: usize = 0;
                let n = items.len();
                let mut i: usize = 0;
                assert(items@.take(0) =~= Seq::<Item>::empty());
                while i < n
                    invariant
                        n == items@.len(),
                        i <= n,
                        selectable_items == count(items@.take(i as int), selectable_pred(self.show_hidden)),
                        selected_items == count(items@.take(i as int), selectable_selected_pred(self.show_hidden)),
                    decreases n - i,
                {
                    proof {
                        lemma_count_step(items@, i as int, selectable_pred(self.show_hidden));
                        lemma_count_step(items@, i as int, selectable_selected_pred(self.show_hidden));
                        lemma_count_bounded(items@.take(i as int), selectable_pred(self.show_hidden));
                        lemma_count_all(
                            items@.take(i as int),
                            selectable_pred(self.show_hidden),
                            selectable_selected_pred(self.show_hidden),
                            selected_pred(),
                        );
                    }
                    let item = &items[i];
                    if !self.show_hidden && item.hidden {
                        i = i + 1;
                        continue;
                    }
                    selectable_items += 1;
                    if item.selected {
                        selected_items += 1;
                    }
                    i = i + 1;
                }
                proof {
                    assert(items@.take(n as int) =~= items@);
                    lemma_count_positive(items@, selectable_pred(self.show_hidden));
                    lemma_count_all(
                        items@,
                        selectable_pred(self.show_hidden),
                        selectable_selected_pred(self.show_hidden),
                        selected_pred(),
                    );
                    if any(items@, selectable_pred(self.show_hidden)) {
                        let j = choose|j: int| 0 <= j < items@.len() && selectable_pred(self.show_hidden)(#[trigger] items@[j]);
                        assert(self.is_selectable(items@[j]));
                    }
                    if self.spec_all_selectable_items_selected() {
                        let j = choose|j: int| 0 <= j < items@.len() && self.is_selectable(#[trigger] items@[j]);
                        assert(selectable_pred(self.show_hidden)(items@[j]));
                    }
                    assert(forall|j: int| 0 <= j < items@.len() ==> (selectable_pred(self.show_hidden)(#[trigger] items@[j]) == self.is_selectable(items@[j])));
                    assert(forall|j: int| 0 <= j < items@.len() ==> (selected_pred()(#[trigger] items@[j]) == items@[j].selected));
                }
                selectable_items > 0 && selected_items == selectable_items
            },
        }
    }
}

impl Tab {
    /// Whether some item of the tab is selected.
    pub open spec fn has_selected_item(self) -> bool {
        &&& self.items is Some
        &&& exists|i: int|
            0 <= i < self.items.unwrap()@.len() && (#[trigger] self.items.unwrap()@[i]).selected
    }

    /// Whether some item is selected.
    pub fn any_selected(&self) -> (r: bool)
        ensures
            r == self.has_selected_item(),
    {
        match &self.items {
            None => false,
            Some(items) => {
                let n = items.len();
                let mut i: usize = 0;
                while i < n
                    invariant
                        n == items@.len(),
                        i <= n,
                        forall|j: int| 0 <= j < i ==> !(#[trigger] items@[j]).selected,
                        self.items is Some,
                        self.items.unwrap()@ == items@,
                    decreases n - i,
                {
                    if items[i].selected {
                        assert(self.items.unwrap()@[i as int].selected);
                        return true;
                    }
                    i = i + 1;
                }
                false
            },
        }
    }
}

} // verus!
