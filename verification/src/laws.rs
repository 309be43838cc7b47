//! What holds of the selection and its footer across functions.

use vstd::prelude::*;

use crate::footer::{
    App, SelectionFooter, COMPACT_SELECTION_FOOTER_SCROLL_INSET, FLOATING_FOOTER_SCROLL_INSET,
};
use crate::item::{
    any, count, lemma_count_positive, lemma_count_split, lemma_first_size_error_selected,
    lemma_total_permutation, lemma_total_selected, total, first_size_error, lemma_count_all,
    DirSize, Item, ItemMetadata,
};
use crate::footer::selected_trash_entries;
use crate::preview::{permission_sources_of, PermissionSource};
use crate::paths::{
    first_parent, lemma_first_parent_known, parent_key, parent_keys, paths_under,
    spec_path_components, spec_path_parent,
};
use crate::preview::{menu_entry_for, MultiPreview};
use crate::selection::{
    spec_selection_menu_actions, Action, SelectionMenuAction, SelectionStats, SelectionTexts,
};
use crate::selection::opt_view;
use crate::tab::{
    calculating_pred, entries_fn, file_pred, folder_pred, selected_pred, size_fn,
    unknown_entries_pred, unknown_size_pred, Tab,
};
use crate::text::{comma_sep, join};

verus! {

/// Every selected item is either a file or a folder: the counts of a
/// selection's statistics add up.
pub proof fn law_selected_items_are_files_and_folders(stats: SelectionStats, items: Seq<Item>)
    requires
        stats.summarizes(items),
    ensures
        stats.selected_items == stats.selected_files + stats.selected_folders,
{
    lemma_count_split(items, selected_pred(), file_pred(), folder_pred());
}

/// The statistics of a tab report a selection exactly when some item is selected.
pub proof fn law_stats_report_selection(tab: Tab, stats: SelectionStats)
    requires
        tab.items is Some,
        stats.summarizes(tab.items.unwrap()@),
    ensures
        (stats.selected_items > 0) == tab.has_selected_item(),
{
    let items = tab.items.unwrap()@;
    lemma_count_positive(items, selected_pred());
    if any(items, selected_pred()) {
        let j = choose|j: int| 0 <= j < items.len() && selected_pred()(#[trigger] items[j]);
        assert(items[j].selected);
    }
    if tab.has_selected_item() {
        let j = choose|j: int| 0 <= j < items.len() && (#[trigger] items[j]).selected;
        assert(selected_pred()(items[j]));
    }
}

/// The active tab has a selection exactly when the selection footer has
/// statistics to show.
pub proof fn law_selection_footer_iff_selection(app: App)
    ensures
        app.spec_active_tab_has_selection() == app.spec_shows_selection_footer(),
{
    if let Some(t) = app.active_tab() {
        if t.items is Some {
            let items = t.items.unwrap()@;
            lemma_count_positive(items, selected_pred());
            if any(items, selected_pred()) {
                let j = choose|j: int| 0 <= j < items.len() && selected_pred()(#[trigger] items[j]);
                assert(items[j].selected);
            }
            if t.has_selected_item() {
                let j = choose|j: int| 0 <= j < items.len() && (#[trigger] items[j]).selected;
                assert(selected_pred()(items[j]));
            }
        }
    }
}

/// Where all selectable items are selected, something is selected.
pub proof fn law_all_selected_has_selection(tab: Tab)
    requires
        tab.spec_all_selectable_items_selected(),
    ensures
        tab.has_selected_item(),
{
    let items = tab.items.unwrap()@;
    let j = choose|j: int| 0 <= j < items.len() && tab.is_selectable(#[trigger] items[j]);
    assert(items[j].selected);
}

/// A selection that can be opened is not empty.
pub proof fn law_can_open_has_selection(stats: SelectionStats)
    requires
        stats.spec_can_open(),
    ensures
        stats.selected_items > 0,
{
}

/// The footer's scroll inset is one of two values, the larger one exactly
/// when a selection footer is shown in its compact layout.
pub proof fn law_scroll_inset(app: App)
    ensures
        app.spec_floating_footer_scroll_inset() == FLOATING_FOOTER_SCROLL_INSET
            || app.spec_floating_footer_scroll_inset() == COMPACT_SELECTION_FOOTER_SCROLL_INSET,
        (app.spec_floating_footer_scroll_inset() == COMPACT_SELECTION_FOOTER_SCROLL_INSET) == (
        app.spec_shows_selection_footer() && app.spec_uses_compact_selection_footer()),
{
}

/// The selection menu offers restoring exactly in the trash, duplicating
/// exactly outside it, opening only outside it and only where the selection
/// can be opened, moving exactly where asked, and no entry twice.
pub proof fn law_selection_menu(can_open: bool, in_trash: bool, include_move_to: bool)
    ensures
        ({
            let a = spec_selection_menu_actions(can_open, in_trash, include_move_to);
            &&& a.contains(SelectionMenuAction::RestoreFromTrash) == in_trash
            &&& a.contains(SelectionMenuAction::Duplicate) == !in_trash
            &&& a.contains(SelectionMenuAction::Open) == (!in_trash && can_open)
            &&& a.contains(SelectionMenuAction::MoveTo) == include_move_to
            &&& forall|i: int, j: int| 0 <= i < j < a.len() ==> a[i] != a[j]
        }),
{
    let a = spec_selection_menu_actions(can_open, in_trash, include_move_to);
    if in_trash {
        if include_move_to {
            assert(a =~= seq![SelectionMenuAction::RestoreFromTrash, SelectionMenuAction::MoveTo]);
        } else {
            assert(a =~= seq![SelectionMenuAction::RestoreFromTrash]);
        }
    } else {
        if can_open {
            if include_move_to {
                assert(a =~= seq![SelectionMenuAction::Open, SelectionMenuAction::Duplicate, SelectionMenuAction::MoveTo]);
            } else {
                assert(a =~= seq![SelectionMenuAction::Open, SelectionMenuAction::Duplicate]);
            }
        } else {
            if include_move_to {
                assert(a =~= seq![SelectionMenuAction::Duplicate, SelectionMenuAction::MoveTo]);
            } else {
                assert(a =~= seq![SelectionMenuAction::Duplicate]);
            }
        }
    }
    assert(a.contains(SelectionMenuAction::RestoreFromTrash) == in_trash) by {
        if in_trash { assert(a[0] == SelectionMenuAction::RestoreFromTrash); }
    }
    assert(a.contains(SelectionMenuAction::Duplicate) == !in_trash) by {
        if !in_trash { assert(a[if can_open { 1int } else { 0int }] == SelectionMenuAction::Duplicate); }
    }
    assert(a.contains(SelectionMenuAction::Open) == (!in_trash && can_open)) by {
        if !in_trash && can_open { assert(a[0] == SelectionMenuAction::Open); }
    }
    assert(a.contains(SelectionMenuAction::MoveTo) == include_move_to) by {
        if include_move_to { assert(a[a.len() - 1] == SelectionMenuAction::MoveTo); }
    }
}

/// Asking for the selected trash entries without naming a tab gives those
/// of the active tab.
pub proof fn law_trash_items_default_to_active_tab(app: App)
    ensures
        app.spec_selected_trash_items(None) == app.spec_selected_trash_items(
            Some(app.tab_model.active),
        ),
{
}

/// Only one floating footer is shown at a time: where the selection footer
/// is shown, the trash footer is not chosen.
pub proof fn law_one_footer(app: App)
    requires
        app.spec_shows_selection_footer(),
        app.selection_details_shown == false,
    ensures
        !app.spec_shows_trash_footer(),
{
    law_selection_footer_iff_selection(app);
}

/// The selection footer offers moving exactly once: the wide one in its
/// menu, the compact one as a button.
pub proof fn law_footer_move_to(app: App, f: SelectionFooter, texts: SelectionTexts)
    requires
        app.describes_selection_footer(f, texts),
    ensures
        (exists|i: int| 0 <= i < f.menu@.len() && (#[trigger] f.menu@[i]).action == Action::MoveTo)
            == !f.compact,
        f.move_to_button is Some == f.compact,
{
    let t = app.active_tab().unwrap();
    let actions = spec_selection_menu_actions(f.stats.spec_can_open(), t.is_trash, !f.compact);
    law_selection_menu(f.stats.spec_can_open(), t.is_trash, !f.compact);
    if !f.compact {
        let i = choose|i: int| 0 <= i < actions.len() && actions[i] == SelectionMenuAction::MoveTo;
        assert(app.is_menu_item(f.menu@[i], actions[i]));
    }
    if exists|i: int| 0 <= i < f.menu@.len() && (#[trigger] f.menu@[i]).action == Action::MoveTo {
        let i = choose|i: int| 0 <= i < f.menu@.len() && (#[trigger] f.menu@[i]).action == Action::MoveTo;
        assert(app.is_menu_item(f.menu@[i], actions[i]));
        assert(actions[i] == SelectionMenuAction::MoveTo);
        assert(actions.contains(SelectionMenuAction::MoveTo));
    }
}

/// The preview of a selection offers moving exactly once: as a button
/// outside the trash, in its menu in the trash.
pub proof fn law_preview_move_to_once(tab: Tab, r: MultiPreview, texts: SelectionTexts)
    requires
        tab.describes_multi_preview(r, texts),
    ensures
        (r.move_to_button is Some) != exists|i: int|
            0 <= i < r.overflow@.len() && (#[trigger] r.overflow@[i]).action == Action::MoveTo,
{
    let actions = spec_selection_menu_actions(r.stats.spec_can_open(), tab.is_trash, tab.is_trash);
    law_selection_menu(r.stats.spec_can_open(), tab.is_trash, tab.is_trash);
    if tab.is_trash {
        let i = choose|i: int| 0 <= i < actions.len() && actions[i] == SelectionMenuAction::MoveTo;
        assert(r.overflow@[i] == menu_entry_for(actions[i]));
    }
    if exists|i: int| 0 <= i < r.overflow@.len() && (#[trigger] r.overflow@[i]).action == Action::MoveTo {
        let i = choose|i: int| 0 <= i < r.overflow@.len() && (#[trigger] r.overflow@[i]).action == Action::MoveTo;
        assert(r.overflow@[i] == menu_entry_for(actions[i]));
        assert(actions[i] == SelectionMenuAction::MoveTo);
        assert(actions.contains(SelectionMenuAction::MoveTo));
    }
}

proof fn lemma_paths_under(v: Seq<Seq<char>>, i: int)
    requires
        0 <= i < v.len(),
        parent_key(v[i]) is Some,
    ensures
        parent_keys(v).contains(parent_key(v[i]).unwrap()),
        paths_under(v, parent_key(v[i]).unwrap()).contains(v[i]),
    decreases v.len(),
{
    let k = parent_key(v[i]).unwrap();
    if i < v.len() - 1 {
        lemma_paths_under(v.drop_last(), i);
        assert(v.drop_last()[i] == v[i]);
        let u = paths_under(v.drop_last(), k);
        let j = choose|j: int| 0 <= j < u.len() && u[j] == v[i];
        if parent_key(v.last()) == Some(k) {
            assert(paths_under(v, k)[j] == v[i]);
        }
    } else {
        assert(v.last() == v[i]);
        let w = paths_under(v, k);
        assert(w[w.len() - 1] == v[i]);
    }
}

proof fn lemma_paths_under_have_key(v: Seq<Seq<char>>, k: Seq<(u8, Seq<u8>)>)
    ensures
        forall|j: int|
            0 <= j < paths_under(v, k).len() ==> parent_key(#[trigger] paths_under(v, k)[j])
                == Some(k),
        first_parent(v, k) matches Some(q) ==> spec_path_components(q) == k,
    decreases v.len(),
{
    if v.len() > 0 {
        lemma_paths_under_have_key(v.drop_last(), k);
        let u = paths_under(v.drop_last(), k);
        assert forall|j: int| 0 <= j < paths_under(v, k).len() implies parent_key(
            #[trigger] paths_under(v, k)[j],
        ) == Some(k) by {
            if j < u.len() {
                assert(paths_under(v, k)[j] == u[j]);
            }
        }
    }
}

/// Duplicating copies every selected path that has a parent into a folder
/// with the same components as its parent, and every copied path is one of
/// the selected paths under that folder.
pub proof fn law_duplicate_into_parent(v: Seq<Seq<char>>, i: int)
    requires
        0 <= i < v.len(),
        spec_path_parent(v[i]) is Some,
    ensures
        ({
            let k = parent_key(v[i]).unwrap();
            &&& parent_keys(v).contains(k)
            &&& paths_under(v, k).contains(v[i])
            &&& first_parent(v, k) matches Some(q) && spec_path_components(q) == k
            &&& forall|j: int|
                0 <= j < paths_under(v, k).len() ==> parent_key(#[trigger] paths_under(v, k)[j])
                    == Some(k)
        }),
{
    lemma_paths_under(v, i);
    let k = parent_key(v[i]).unwrap();
    lemma_paths_under_have_key(v, k);
    lemma_first_parent_known(v, k);
}

/// The breakdown of a selection is empty exactly when nothing is selected,
/// where the texts of the counts are not empty.
pub proof fn law_breakdown_empty(stats: SelectionStats, texts: SelectionTexts)
    requires
        texts.files@.len() > 0,
        texts.folders@.len() > 0,
    ensures
        (stats.spec_breakdown_text(texts).len() == 0) == (stats.selected_files == 0
            && stats.selected_folders == 0),
{
    let parts = stats.breakdown_parts(texts.files@, texts.folders@);
    if parts.len() == 2 {
        assert(parts.drop_last() =~= seq![parts[0]]);
        assert(join(parts.drop_last(), comma_sep()) == parts[0]);
    } else if parts.len() == 0 {
        assert(join(parts, comma_sep()) =~= Seq::<char>::empty());
    }
}

pub open spec fn selected_of(items: Seq<Item>) -> Seq<Item> {
    items.filter(|it: Item| it.selected)
}

proof fn lemma_total_depends_on_selection(xs: Seq<Item>, ys: Seq<Item>, f: spec_fn(Item) -> nat)
    requires
        forall|it: Item| !it.selected ==> #[trigger] f(it) == 0,
        selected_of(xs).to_multiset() == selected_of(ys).to_multiset(),
    ensures
        total(xs, f) == total(ys, f),
{
    lemma_total_selected(xs, f);
    lemma_total_selected(ys, f);
    lemma_total_permutation(selected_of(xs), selected_of(ys), f);
}

proof fn lemma_count_depends_on_selection(xs: Seq<Item>, ys: Seq<Item>, p: spec_fn(Item) -> bool)
    requires
        forall|it: Item| #[trigger] p(it) ==> it.selected,
        selected_of(xs).to_multiset() == selected_of(ys).to_multiset(),
    ensures
        count(xs, p) == count(ys, p),
        any(xs, p) == any(ys, p),
{
    let f = |it: Item| if p(it) { 1nat } else { 0nat };
    assert(count(xs, p) == total(xs, f));
    assert(count(ys, p) == total(ys, f));
    lemma_total_depends_on_selection(xs, ys, f);
    lemma_count_positive(xs, p);
    lemma_count_positive(ys, p);
}

/// The statistics of a selection depend only on the selected items: the
/// unselected items change nothing, and the order of the selected items
/// changes only which size error is reported first.
pub proof fn law_stats_depend_on_selection(
    xs: Seq<Item>,
    ys: Seq<Item>,
    s1: SelectionStats,
    s2: SelectionStats,
)
    requires
        s1.summarizes(xs),
        s2.summarizes(ys),
        selected_of(xs).to_multiset() == selected_of(ys).to_multiset(),
    ensures
        s1.selected_items == s2.selected_items,
        s1.selected_files == s2.selected_files,
        s1.selected_folders == s2.selected_folders,
        s1.contained_items == s2.contained_items,
        s1.contains_items_known == s2.contains_items_known,
        s1.total_size == s2.total_size,
        s1.calculating_dir_size == s2.calculating_dir_size,
        s1.unknown_size == s2.unknown_size,
        selected_of(xs) == selected_of(ys) ==> opt_view(s1.dir_size_error) == opt_view(
            s2.dir_size_error,
        ),
{
    lemma_count_depends_on_selection(xs, ys, selected_pred());
    lemma_count_depends_on_selection(xs, ys, file_pred());
    lemma_count_depends_on_selection(xs, ys, folder_pred());
    lemma_count_depends_on_selection(xs, ys, unknown_entries_pred());
    lemma_count_depends_on_selection(xs, ys, calculating_pred());
    lemma_count_depends_on_selection(xs, ys, unknown_size_pred());
    lemma_total_depends_on_selection(xs, ys, entries_fn());
    lemma_total_depends_on_selection(xs, ys, size_fn());
    lemma_first_size_error_selected(xs);
    lemma_first_size_error_selected(ys);
}


/// Every selected item at a path with a path's metadata, folder or file
/// alike, gives the preview its owner, group and mode, in the items' order,
/// and no other item does.
pub proof fn law_permission_sources_are_selected_items_at_paths(items: Seq<Item>)
    ensures
        permission_sources_of(items) == items.filter(
            |it: Item| it.selected && it.path is Some && it.metadata is Path,
        ).map_values(
            |it: Item|
                PermissionSource {
                    uid: it.metadata->uid,
                    gid: it.metadata->gid,
                    mode: it.metadata->mode,
                },
        ),
    decreases items.len(),
{
    reveal(Seq::filter);
    if items.len() > 0 {
        law_permission_sources_are_selected_items_at_paths(items.drop_last());
        let p = |it: Item| it.selected && it.path is Some && it.metadata is Path;
        let f = |it: Item|
            PermissionSource { uid: it.metadata->uid, gid: it.metadata->gid, mode: it.metadata->mode };
        let rest = items.drop_last().filter(p);
        if p(items.last()) {
            assert(rest.push(items.last()).map_values(f) =~= rest.map_values(f).push(f(items.last())));
        }
        assert(permission_sources_of(items) =~= items.filter(p).map_values(f));
    }
}

/// Every selected item whose metadata is a trash entry, trashed file or
/// trashed folder alike, gives its entry, in the items' order, and no other
/// item does.
pub proof fn law_trash_entries_are_selected_trashed_items(items: Seq<Item>)
    ensures
        selected_trash_entries(items) == items.filter(
            |it: Item| it.selected && it.metadata is Trash,
        ).map_values(|it: Item| it.metadata->entry@),
    decreases items.len(),
{
    reveal(Seq::filter);
    if items.len() > 0 {
        law_trash_entries_are_selected_trashed_items(items.drop_last());
        let p = |it: Item| it.selected && it.metadata is Trash;
        let f = |it: Item| it.metadata->entry@;
        let rest = items.drop_last().filter(p);
        if p(items.last()) {
            assert(rest.push(items.last()).map_values(f) =~= rest.map_values(f).push(f(items.last())));
        }
        assert(selected_trash_entries(items) =~= items.filter(p).map_values(f));
    }
}


proof fn lemma_first_size_error(items: Seq<Item>)
    ensures
        (exists|i: int|
            0 <= i < items.len() && (#[trigger] items[i]).selected && items[i].metadata.spec_is_dir()
                && items[i].dir_size is Error) ==> first_size_error(items) is Some,
        first_size_error(items) matches Some(e) ==> exists|i: int|
            0 <= i < items.len() && (#[trigger] items[i]).selected && items[i].metadata.spec_is_dir()
                && (items[i].dir_size matches DirSize::Error(x) && x@ == e),
    decreases items.len(),
{
    if items.len() > 0 {
        let rest = items.drop_last();
        lemma_first_size_error(rest);
        if exists|i: int|
            0 <= i < items.len() && (#[trigger] items[i]).selected && items[i].metadata.spec_is_dir()
                && items[i].dir_size is Error {
            let i = choose|i: int|
                0 <= i < items.len() && (#[trigger] items[i]).selected
                    && items[i].metadata.spec_is_dir() && items[i].dir_size is Error;
            if i < rest.len() {
                assert(rest[i] == items[i]);
            }
        }
        if first_size_error(items) is Some {
            if first_size_error(rest) is Some {
                let e = first_size_error(rest).unwrap();
                let i = choose|i: int|
                    0 <= i < rest.len() && (#[trigger] rest[i]).selected
                        && rest[i].metadata.spec_is_dir() && (rest[i].dir_size matches DirSize::Error(
                        x,
                    ) && x@ == e);
                assert(items[i] == rest[i]);
            } else {
                assert(items[items.len() - 1] == items.last());
            }
        }
    }
}

/// The size of a selection is unknown exactly when a selected folder's size
/// is that of no directory, or a selected file has no size; it is being
/// calculated exactly when a selected folder's size is; a folder whose size
/// computation failed makes neither hold, but reports its error: where one
/// failed, an error is reported, and a reported error is that of a selected
/// folder.
pub proof fn law_size_states_of_a_selection(stats: SelectionStats, items: Seq<Item>)
    requires
        stats.summarizes(items),
    ensures
        stats.unknown_size == exists|i: int|
            0 <= i < items.len() && (#[trigger] items[i]).selected && if items[i].metadata.spec_is_dir() {
                items[i].dir_size is NotDirectory
            } else {
                items[i].metadata.spec_file_size() is None
            },
        stats.calculating_dir_size == exists|i: int|
            0 <= i < items.len() && (#[trigger] items[i]).selected && items[i].metadata.spec_is_dir()
                && items[i].dir_size is Calculating,
        (exists|i: int|
            0 <= i < items.len() && (#[trigger] items[i]).selected && items[i].metadata.spec_is_dir()
                && items[i].dir_size is Error) ==> stats.dir_size_error is Some,
        stats.dir_size_error matches Some(e) ==> exists|i: int|
            0 <= i < items.len() && (#[trigger] items[i]).selected && items[i].metadata.spec_is_dir()
                && (items[i].dir_size matches DirSize::Error(x) && x@ == e@),
{
    lemma_first_size_error(items);
    let u = unknown_size_pred();
    let c = calculating_pred();
    if stats.unknown_size {
        let i = choose|i: int| 0 <= i < items.len() && u(#[trigger] items[i]);
        assert(items[i].selected);
    }
    if stats.calculating_dir_size {
        let i = choose|i: int| 0 <= i < items.len() && c(#[trigger] items[i]);
        assert(items[i].selected);
    }
    if exists|i: int|
        0 <= i < items.len() && (#[trigger] items[i]).selected && if items[i].metadata.spec_is_dir() {
            items[i].dir_size is NotDirectory
        } else {
            items[i].metadata.spec_file_size() is None
        } {
        let i = choose|i: int|
            0 <= i < items.len() && (#[trigger] items[i]).selected && if items[i].metadata.spec_is_dir() {
                items[i].dir_size is NotDirectory
            } else {
                items[i].metadata.spec_file_size() is None
            };
        assert(u(items[i]));
    }
    if exists|i: int|
        0 <= i < items.len() && (#[trigger] items[i]).selected && items[i].metadata.spec_is_dir()
            && items[i].dir_size is Calculating {
        let i = choose|i: int|
            0 <= i < items.len() && (#[trigger] items[i]).selected && items[i].metadata.spec_is_dir()
                && items[i].dir_size is Calculating;
        assert(c(items[i]));
    }
}

spec fn only_at(items: Seq<Item>, p: spec_fn(Item) -> bool, i: int) -> bool {
    &&& 0 <= i < items.len()
    &&& p(items[i])
    &&& forall|j: int| 0 <= j < items.len() && p(#[trigger] items[j]) ==> j == i
}

proof fn lemma_count_one(items: Seq<Item>, p: spec_fn(Item) -> bool)
    ensures
        (count(items, p) == 1) == exists|i: int| only_at(items, p, i),
    decreases items.len(),
{
    if items.len() > 0 {
        let rest = items.drop_last();
        let n = items.len() - 1;
        lemma_count_one(rest, p);
        lemma_count_positive(rest, p);
        assert(items[n] == items.last());
        if p(items.last()) {
            if count(items, p) == 1 {
                assert(!any(rest, p));
                assert forall|j: int| 0 <= j < items.len() && p(#[trigger] items[j]) implies j == n by {
                    if j < n {
                        assert(rest[j] == items[j]);
                        assert(p(rest[j]));
                    }
                }
                assert(only_at(items, p, n));
            }
            if exists|i: int| only_at(items, p, i) {
                let i = choose|i: int| only_at(items, p, i);
                assert(i == n);
                if any(rest, p) {
                    let k = choose|k: int| 0 <= k < rest.len() && p(#[trigger] rest[k]);
                    assert(rest[k] == items[k]);
                    assert(p(items[k]));
                }
            }
        } else {
            if count(items, p) == 1 {
                let i = choose|i: int| only_at(rest, p, i);
                assert(rest[i] == items[i]);
                assert forall|j: int| 0 <= j < items.len() && p(#[trigger] items[j]) implies j == i by {
                    if j < n {
                        assert(rest[j] == items[j]);
                        assert(p(rest[j]));
                    }
                }
                assert(only_at(items, p, i));
            }
            if exists|i: int| only_at(items, p, i) {
                let i = choose|i: int| only_at(items, p, i);
                assert(i < n);
                assert(rest[i] == items[i]);
                assert forall|j: int| 0 <= j < rest.len() && p(#[trigger] rest[j]) implies j == i by {
                    assert(rest[j] == items[j]);
                    assert(p(items[j]));
                }
                assert(only_at(rest, p, i));
            }
        }
    }
}

/// A selection can be opened exactly when something is selected and no
/// selected item is a folder, or when a single item is selected and it is a
/// folder: a folder among two or more selected items rules opening out.
pub proof fn law_open_for_files_or_one_folder(stats: SelectionStats, items: Seq<Item>)
    requires
        stats.summarizes(items),
    ensures
        stats.spec_can_open() == (((exists|i: int| 0 <= i < items.len() && (#[trigger] items[i]).selected)
            && forall|i: int|
            0 <= i < items.len() && (#[trigger] items[i]).selected ==> !items[i].metadata.spec_is_dir())
            || exists|i: int|
            0 <= i < items.len() && (#[trigger] items[i]).selected && items[i].metadata.spec_is_dir()
                && forall|j: int| 0 <= j < items.len() && (#[trigger] items[j]).selected ==> j == i),
{
    let sel = selected_pred();
    let fol = folder_pred();
    lemma_count_positive(items, sel);
    lemma_count_positive(items, fol);
    lemma_count_one(items, sel);
    lemma_count_all(items, sel, fol, |it: Item| it.metadata.spec_is_dir());
    // Something is selected.
    if exists|i: int| 0 <= i < items.len() && (#[trigger] items[i]).selected {
        let i = choose|i: int| 0 <= i < items.len() && (#[trigger] items[i]).selected;
        assert(sel(items[i]));
    }
    if any(items, sel) {
        let i = choose|i: int| 0 <= i < items.len() && sel(#[trigger] items[i]);
        assert(items[i].selected);
    }
    // No selected folder.
    if any(items, fol) {
        let i = choose|i: int| 0 <= i < items.len() && fol(#[trigger] items[i]);
        assert(items[i].selected && items[i].metadata.spec_is_dir());
    }
    if !any(items, fol) {
        assert forall|i: int| 0 <= i < items.len() && (#[trigger] items[i]).selected implies !items[i].metadata.spec_is_dir() by {
            if items[i].metadata.spec_is_dir() {
                assert(fol(items[i]));
            }
        }
    }
    // A single selected item, a folder.
    if stats.selected_folders == 1 && stats.selected_items == 1 {
        let i = choose|i: int| only_at(items, sel, i);
        let k = choose|k: int| 0 <= k < items.len() && fol(#[trigger] items[k]);
        assert(sel(items[k]));
        assert(k == i);
        assert forall|j: int| 0 <= j < items.len() && (#[trigger] items[j]).selected implies j == i by {
            assert(sel(items[j]));
        }
    }
    if exists|i: int|
        0 <= i < items.len() && (#[trigger] items[i]).selected && items[i].metadata.spec_is_dir()
            && forall|j: int| 0 <= j < items.len() && (#[trigger] items[j]).selected ==> j == i {
        let i = choose|i: int|
            0 <= i < items.len() && (#[trigger] items[i]).selected && items[i].metadata.spec_is_dir()
                && forall|j: int| 0 <= j < items.len() && (#[trigger] items[j]).selected ==> j == i;
        assert(sel(items[i]));
        assert(fol(items[i]));
        assert forall|j: int| 0 <= j < items.len() && sel(#[trigger] items[j]) implies j == i by {
            assert(items[j].selected);
        }
        assert(only_at(items, sel, i));
    }
}

/// A folder among two or more selected items keeps opening out of the menu,
/// and files alone, or a single folder, put it first.
pub proof fn law_open_in_menu(stats: SelectionStats, include_move_to: bool)
    ensures
        stats.selected_folders >= 1 && stats.selected_items >= 2 ==> !spec_selection_menu_actions(
            stats.spec_can_open(),
            false,
            include_move_to,
        ).contains(SelectionMenuAction::Open),
        stats.selected_items == 0 ==> !spec_selection_menu_actions(
            stats.spec_can_open(),
            false,
            include_move_to,
        ).contains(SelectionMenuAction::Open),
        (stats.selected_items > 0 && stats.selected_folders == 0) || (stats.selected_items == 1
            && stats.selected_folders == 1) ==> spec_selection_menu_actions(
            stats.spec_can_open(),
            false,
            include_move_to,
        )[0] == SelectionMenuAction::Open,
{
    let a = spec_selection_menu_actions(stats.spec_can_open(), false, include_move_to);
    if !stats.spec_can_open() {
        if a.contains(SelectionMenuAction::Open) {
            let k = choose|k: int| 0 <= k < a.len() && a[k] == SelectionMenuAction::Open;
            if include_move_to {
                assert(a =~= seq![SelectionMenuAction::Duplicate, SelectionMenuAction::MoveTo]);
            } else {
                assert(a =~= seq![SelectionMenuAction::Duplicate]);
            }
        }
    }
}

/// In the active tab, a trash whose items are loaded and not empty, the
/// footer with the button to empty the trash is shown whenever nothing is
/// selected, whatever the drawer shows, and is hidden only where something
/// is selected and the drawer does not show the selection.
pub proof fn law_trash_footer_unless_selection_footer(app: App)
    requires
        app.active_tab() matches Some(t) && t.is_trash && t.items is Some && t.items.unwrap()@.len()
            > 0,
    ensures
        app.spec_shows_trash_footer() == !((exists|i: int|
            0 <= i < app.active_tab().unwrap().items.unwrap()@.len()
                && (#[trigger] app.active_tab().unwrap().items.unwrap()@[i]).selected)
            && !app.selection_details_shown),
{
}

} // verus!
