//! The application state that the floating footer reads, and the footer's layout.

use vstd::prelude::*;

use crate::item::{count, Item, ItemMetadata, TrashEntry, TrashEntryView};
use crate::selection::{
    selection_menu_actions, spec_selection_menu_actions, Action, Phrase, SelectionMenuAction,
    SelectionStats, SelectionTexts,
};
use crate::tab::{selected_pred, Tab};
use crate::laws::law_trash_entries_are_selected_trashed_items;

verus! {

/// The identifier of a tab.
pub type Entity = u64;

/// The scroll inset under the footer of a trash or of a wide selection.
pub const FLOATING_FOOTER_SCROLL_INSET: u16 = 56;

/// The scroll inset under the two-row footer of a narrow selection.
pub const COMPACT_SELECTION_FOOTER_SCROLL_INSET: u16 = 96;

/// Below this width the selection footer is compact.
pub const COMPACT_SELECTION_FOOTER_WIDTH: i64 = 720;

/// Below this width, besides the navigation bar, the selection footer is compact.
pub const COMPACT_SELECTION_FOOTER_WIDTH_WITH_NAV: i64 = 600;

/// The width that the navigation bar takes.
pub const NAV_BAR_RESERVED_WIDTH: i64 = 288;

/// A tab and its identifier.
#[derive(Debug)]
pub struct TabEntry {
    pub entity: Entity,
    pub tab: Tab,
}

/// The tabs of the window and the identifier that is active; where no tab
/// has that identifier, no tab is active.
#[derive(Debug)]
pub struct TabModel {
    pub tabs: Vec<TabEntry>,
    pub active: Entity,
}

/// The position of the first tab with identifier `e`.
pub open spec fn find_tab(tabs: Seq<TabEntry>, e: Entity) -> Option<int>
    decreases tabs.len(),
{
    if tabs.len() == 0 {
        None
    } else {
        match find_tab(tabs.drop_last(), e) {
            Some(i) => Some(i),
            None => if tabs.last().entity == e {
                Some(tabs.len() - 1)
            } else {
                None
            },
        }
    }
}

proof fn lemma_find_tab(tabs: Seq<TabEntry>, e: Entity)
    ensures
        find_tab(tabs, e) matches Some(i) ==> 0 <= i < tabs.len() && tabs[i].entity == e
            && forall|j: int| 0 <= j < i ==> tabs[j].entity != e,
        find_tab(tabs, e) is None ==> forall|j: int| 0 <= j < tabs.len() ==> tabs[j].entity != e,
    decreases tabs.len(),
{
    if tabs.len() > 0 {
        lemma_find_tab(tabs.drop_last(), e);
        assert(forall|j: int| 0 <= j < tabs.len() - 1 ==> tabs.drop_last()[j] == tabs[j]);
    }
}

impl TabModel {
    pub open spec fn spec_data(self, e: Entity) -> Option<Tab> {
        match find_tab(self.tabs@, e) {
            Some(i) => Some(self.tabs@[i].tab),
            None => None,
        }
    }

    pub open spec fn spec_active_data(self) -> Option<Tab> {
        self.spec_data(self.active)
    }

    /// The position of the tab with identifier `e`.
    pub fn position(&self, e: Entity) -> (r: Option<usize>)
        ensures
            match r {
                Some(i) => find_tab(self.tabs@, e) == Some(i as int) && i < self.tabs@.len(),
                None => find_tab(self.tabs@, e) is None,
            },
    {
        let n = self.tabs.len();
        let mut i: usize = 0;
        proof {
            lemma_find_tab(self.tabs@, e);
        }
        while i < n
            invariant
                n == self.tabs@.len(),
                i <= n,
                forall|j: int| 0 <= j < i ==> self.tabs@[j].entity != e,
                find_tab(self.tabs@, e) matches Some(k) ==> 0 <= k < n && self.tabs@[k].entity == e
                    && forall|j: int| 0 <= j < k ==> self.tabs@[j].entity != e,
                find_tab(self.tabs@, e) is None ==> forall|j: int| 0 <= j < n ==> self.tabs@[j].entity != e,
            decreases n - i,
        {
            if self.tabs[i].entity == e {
                return Some(i);
            }
            i = i + 1;
        }
        None
    }

    /// The tab with identifier `e`.
    pub fn data(&self, e: Entity) -> (r: Option<&Tab>)
        ensures
            r is Some <==> self.spec_data(e) is Some,
            r matches Some(t) ==> *t == self.spec_data(e).unwrap(),
    {
        match self.position(e) {
            Some(i) => Some(&self.tabs[i].tab),
            None => None,
        }
    }

    /// The active tab.
    pub fn active_data(&self) -> (r: Option<&Tab>)
        ensures
            r is Some <==> self.spec_active_data() is Some,
            r matches Some(t) ==> *t == self.spec_active_data().unwrap(),
    {
        self.data(self.active)
    }
}

} // verus!

verus! {

/// A key binding, written out, and the action it triggers.
#[derive(Debug)]
pub struct KeyBinding {
    pub text: String,
    pub action: Action,
}

/// What a button of the footer or of the preview sends: selecting all or
/// nothing in the tab, deleting or moving the selection, emptying the trash.
#[derive(Clone, Copy, Debug, PartialEq, Eq, Structural)]
pub enum FooterMessage {
    SelectAll,
    SelectNone,
    Delete,
    MoveTo,
    EmptyTrash,
}

/// A button with a text, and what it sends.
#[derive(Debug, PartialEq, Eq)]
pub struct TextButton {
    pub label: Phrase,
    pub message: FooterMessage,
}

/// The button that selects all items, or none where all are selected.
pub open spec fn select_button_for(all_selected: bool) -> TextButton {
    if all_selected {
        TextButton { label: Phrase::DeselectAll, message: FooterMessage::SelectNone }
    } else {
        TextButton { label: Phrase::SelectAll, message: FooterMessage::SelectAll }
    }
}

/// The button that selects all items, or none where all are selected.
pub fn select_button(all_selected: bool) -> (r: TextButton)
    ensures
        r == select_button_for(all_selected),
{
    if all_selected {
        TextButton { label: Phrase::DeselectAll, message: FooterMessage::SelectNone }
    } else {
        TextButton { label: Phrase::SelectAll, message: FooterMessage::SelectAll }
    }
}

/// An entry of the footer's menu: its label, the key binding of its action
/// where it has one, and its action.
#[derive(Debug)]
pub struct FooterMenuItem {
    pub label: Phrase,
    pub shortcut: Option<String>,
    pub action: Action,
}

/// The footer of a selection.
#[derive(Debug)]
pub struct SelectionFooter {
    pub stats: SelectionStats,
    pub in_trash: bool,
    /// The footer has two rows and a button to move the selection.
    pub compact: bool,
    /// The caption: what the selection holds and its size.
    pub summary: Phrase,
    pub select_button: TextButton,
    /// The button that moves the selection, in the compact footer.
    pub move_to_button: Option<TextButton>,
    /// What the delete button sends.
    pub delete_message: FooterMessage,
    pub menu: Vec<FooterMenuItem>,
}

/// The footer that floats over a tab.
#[derive(Debug)]
pub enum FloatingFooter {
    /// The footer of a selection.
    Selection(SelectionFooter),
    /// The footer of the trash, with its button to empty it.
    Trash(TextButton),
}

/// What a tab shows under its items.
#[derive(Debug)]
pub struct TabViewFooter {
    pub footer: Option<FloatingFooter>,
    pub scroll_inset: u16,
    /// The tab for which the messages of the tab's view are delivered.
    pub tab: Entity,
}

/// The state of the application that the footer reads.
#[derive(Debug)]
pub struct App {
    pub tab_model: TabModel,
    /// The window is condensed.
    pub condensed: bool,
    /// The navigation bar is shown.
    pub nav_bar_active: bool,
    /// The width of the window in logical pixels, rounded down, once it is known.
    pub width: Option<i64>,
    /// The context drawer shows the preview of the selection.
    pub selection_details_shown: bool,
    /// The key bindings, in the order in which they are searched.
    pub key_binds: Vec<KeyBinding>,
}

/// The trash entries of the selected items among `items`, in order.
pub open spec fn selected_trash_entries(items: Seq<Item>) -> Seq<TrashEntryView>
    decreases items.len(),
{
    if items.len() == 0 {
        Seq::empty()
    } else {
        let rest = selected_trash_entries(items.drop_last());
        let last = items.last();
        if last.selected {
            match last.metadata {
                ItemMetadata::Trash { entry, .. } => rest.push(entry@),
                _ => rest,
            }
        } else {
            rest
        }
    }
}

/// The text of the first key binding of `action`.
pub open spec fn first_shortcut(binds: Seq<KeyBinding>, action: Action) -> Option<Seq<char>>
    decreases binds.len(),
{
    if binds.len() == 0 {
        None
    } else {
        match first_shortcut(binds.drop_last(), action) {
            Some(t) => Some(t),
            None => if binds.last().action == action {
                Some(binds.last().text@)
            } else {
                None
            },
        }
    }
}

pub open spec fn opt_text(o: Option<String>) -> Option<Seq<char>> {
    match o {
        Some(s) => Some(s@),
        None => None,
    }
}

impl App {
    pub open spec fn active_tab(self) -> Option<Tab> {
        self.tab_model.spec_active_data()
    }

    pub open spec fn spec_active_tab_has_selection(self) -> bool {
        self.active_tab() matches Some(t) && t.has_selected_item()
    }

    /// The trash entries of the selected items of the tab `entity_opt`, or
    /// of the active tab.
    pub open spec fn spec_selected_trash_items(self, entity_opt: Option<Entity>) -> Seq<
        TrashEntryView,
    > {
        let e = match entity_opt {
            Some(e) => e,
            None => self.tab_model.active,
        };
        match self.tab_model.spec_data(e) {
            Some(t) => match t.items {
                Some(items) => selected_trash_entries(items@),
                None => Seq::empty(),
            },
            None => Seq::empty(),
        }
    }

    /// The trash entries of the selected items of the tab `entity_opt`, or of
    /// the active tab.
    pub fn selected_trash_items(&self, entity_opt: Option<Entity>) -> (r: Vec<TrashEntry>)
        ensures
            r@.map_values(|e: TrashEntry| e@) == self.spec_selected_trash_items(entity_opt),
            r@.map_values(|e: TrashEntry| e@) == match self.tab_model.spec_data(
                match entity_opt {
                    Some(e) => e,
                    None => self.tab_model.active,
                },
            ) {
                Some(t) => match t.items {
                    Some(items) => items@.filter(
                        |it: Item| it.selected && it.metadata is Trash,
                    ).map_values(|it: Item| it.metadata->entry@),
                    None => Seq::empty(),
                },
                None => Seq::empty(),
            },
    {
        let entity = match entity_opt {
            Some(e) => e,
            None => self.tab_model.active,
        };
        let tab = self.tab_model.data(entity);
        proof {
            let t = self.tab_model.spec_data(entity);
            if t is Some && t.unwrap().items is Some {
                law_trash_entries_are_selected_trashed_items(t.unwrap().items.unwrap()@);
            }
        }
        let mut r: Vec<TrashEntry> = Vec::new();
        match tab {
            Some(t) => match &t.items {
                Some(items) => {
                    let n = items.len();
                    let mut i: usize = 0;
                    while i < n
                        invariant
                            n == items@.len(),
                            i <= n,
                            r@.map_values(|e: TrashEntry| e@) == selected_trash_entries(
                                items@.take(i as int),
                            ),
                        decreases n - i,
                    {
                        let item = &items[i];
                        assert(items@.take(i as int + 1).drop_last() =~= items@.take(i as int));
                        let ghost before = r@;
                        if item.selected {
                            match &item.metadata {
                                ItemMetadata::Trash { entry, .. } => {
                                    r.push(entry.clone());
                                    assert(r@.map_values(|e: TrashEntry| e@) =~= before.map_values(
                                        |e: TrashEntry| e@,
                                    ).push(entry@));
                                },
                                _ => {},
                            }
                        }
                        i = i + 1;
                    }
                    assert(items@.take(n as int) =~= items@);
                },
                None => {},
            },
            None => {},
        }
        r
    }

    /// Whether some item of the active tab is selected.
    pub fn active_tab_has_selection(&self) -> (r: bool)
        ensures
            r == self.spec_active_tab_has_selection(),
    {
        match self.tab_model.active_data() {
            Some(t) => t.any_selected(),
            None => false,
        }
    }

    /// The active tab has loaded items, of which some are selected.
    pub open spec fn spec_shows_selection_footer(self) -> bool {
        self.active_tab() matches Some(t) && t.items is Some && count(
            t.items.unwrap()@,
            selected_pred(),
        ) > 0
    }

    /// What the active tab's selection holds, whether the tab shows the
    /// trash, and whether all its selectable items are selected; none where
    /// nothing is selected.
    pub fn selection_footer_stats(&self) -> (r: Option<(SelectionStats, bool, bool)>)
        ensures
            r is Some <==> self.spec_shows_selection_footer(),
            r matches Some((stats, in_trash, all_selected)) ==> {
                let t = self.active_tab().unwrap();
                &&& stats.summarizes(t.items.unwrap()@)
                &&& in_trash == t.is_trash
                &&& all_selected == t.spec_all_selectable_items_selected()
            },
    {
        let tab = match self.tab_model.active_data() {
            Some(t) => t,
            None => return None,
        };
        let stats = match tab.selection_stats() {
            Some(s) => s,
            None => return None,
        };
        if stats.has_selection() {
            let in_trash = tab.is_trash;
            let all_selected = tab.all_selectable_items_selected();
            Some((stats, in_trash, all_selected))
        } else {
            None
        }
    }

    pub open spec fn spec_uses_compact_selection_footer(self) -> bool {
        ||| self.condensed
        ||| self.width matches Some(w) && if self.nav_bar_active {
            w - NAV_BAR_RESERVED_WIDTH < COMPACT_SELECTION_FOOTER_WIDTH_WITH_NAV
        } else {
            w - 0 < COMPACT_SELECTION_FOOTER_WIDTH
        }
    }

    /// Whether the selection footer is laid out in two rows: in a condensed
    /// window, or where the width besides the navigation bar is small.
    pub fn uses_compact_selection_footer(&self) -> (r: bool)
        ensures
            r == self.spec_uses_compact_selection_footer(),
    {
        if self.condensed {
            return true;
        }
        match self.width {
            Some(w) => {
                if self.nav_bar_active {
                    w < COMPACT_SELECTION_FOOTER_WIDTH_WITH_NAV + NAV_BAR_RESERVED_WIDTH
                } else {
                    w < COMPACT_SELECTION_FOOTER_WIDTH
                }
            },
            None => false,
        }
    }

    pub open spec fn spec_floating_footer_scroll_inset(self) -> u16 {
        if self.spec_shows_selection_footer() && self.spec_uses_compact_selection_footer() {
            COMPACT_SELECTION_FOOTER_SCROLL_INSET
        } else {
            FLOATING_FOOTER_SCROLL_INSET
        }
    }

    /// How far the items of a tab scroll past their end to clear the footer.
    pub fn floating_footer_scroll_inset(&self) -> (r: u16)
        ensures
            r == self.spec_floating_footer_scroll_inset(),
    {
        if self.selection_footer_stats().is_some() && self.uses_compact_selection_footer() {
            COMPACT_SELECTION_FOOTER_SCROLL_INSET
        } else {
            FLOATING_FOOTER_SCROLL_INSET
        }
    }
}

proof fn lemma_first_shortcut(binds: Seq<KeyBinding>, action: Action)
    ensures
        first_shortcut(binds, action) matches Some(t) ==> exists|i: int|
            0 <= i < binds.len() && (#[trigger] binds[i]).action == action && t == binds[i].text@
                && forall|j: int| 0 <= j < i ==> binds[j].action != action,
        first_shortcut(binds, action) is None ==> forall|j: int|
            0 <= j < binds.len() ==> (#[trigger] binds[j]).action != action,
    decreases binds.len(),
{
    if binds.len() > 0 {
        let rest = binds.drop_last();
        lemma_first_shortcut(rest, action);
        assert(forall|j: int| 0 <= j < rest.len() ==> rest[j] == binds[j]);
        if let Some(t) = first_shortcut(rest, action) {
            let i = choose|i: int|
                0 <= i < rest.len() && (#[trigger] rest[i]).action == action && t == rest[i].text@
                    && forall|j: int| 0 <= j < i ==> rest[j].action != action;
            assert(binds[i] == rest[i]);
        } else if binds.last().action == action {
            assert(binds[binds.len() - 1].action == action);
        }
    }
}

impl App {
    pub open spec fn spec_shows_trash_footer(self) -> bool {
        &&& self.active_tab() matches Some(t)
        &&& t.is_trash
        &&& !(self.spec_active_tab_has_selection() && !self.selection_details_shown)
        &&& t.items is Some
        &&& t.items.unwrap()@.len() > 0
    }

    /// The footer of the trash, with a button to empty it: where the active
    /// tab shows a trash that is not empty, unless a selection in it is shown
    /// by the selection footer.
    pub fn trash_footer(&self) -> (r: Option<FloatingFooter>)
        ensures
            r is Some <==> self.spec_shows_trash_footer(),
            r matches Some(f) ==> f == Self::empty_trash_footer(),
    {
        let tab = match self.tab_model.active_data() {
            Some(t) => t,
            None => return None,
        };
        let showing_selection_details = self.selection_details_shown;
        if !tab.is_trash || (self.active_tab_has_selection() && !showing_selection_details) {
            return None;
        }
        match &tab.items {
            Some(items) => if items.len() > 0 {
                Some(
                    FloatingFooter::Trash(
                        TextButton { label: Phrase::EmptyTrash, message: FooterMessage::EmptyTrash },
                    ),
                )
            } else {
                None
            },
            None => None,
        }
    }

    pub open spec fn is_menu_item(self, item: FooterMenuItem, a: SelectionMenuAction) -> bool {
        &&& item.label == a.spec_label()
        &&& item.action == a.spec_app_action()
        &&& opt_text(item.shortcut) == first_shortcut(self.key_binds@, a.spec_app_action())
    }

    /// An entry of the footer's menu, with the first key binding of its action.
    pub fn floating_footer_menu_item(&self, label: Phrase, action: Action) -> (r: FooterMenuItem)
        ensures
            r.label == label,
            r.action == action,
            opt_text(r.shortcut) == first_shortcut(self.key_binds@, action),
    {
        let n = self.key_binds.len();
        let mut i: usize = 0;
        proof {
            lemma_first_shortcut(self.key_binds@, action);
        }
        while i < n
            invariant
                n == self.key_binds@.len(),
                i <= n,
                forall|j: int| 0 <= j < i ==> (#[trigger] self.key_binds@[j]).action != action,
                first_shortcut(self.key_binds@, action) matches Some(t) ==> exists|k: int|
                    0 <= k < n && (#[trigger] self.key_binds@[k]).action == action && t
                        == self.key_binds@[k].text@ && forall|j: int|
                        0 <= j < k ==> self.key_binds@[j].action != action,
                first_shortcut(self.key_binds@, action) is None ==> forall|j: int|
                    0 <= j < n ==> (#[trigger] self.key_binds@[j]).action != action,
            decreases n - i,
        {
            if self.key_binds[i].action == action {
                let text = self.key_binds[i].text.clone();
                proof {
                    if let Some(t) = first_shortcut(self.key_binds@, action) {
                        let k = choose|k: int|
                            0 <= k < n && (#[trigger] self.key_binds@[k]).action == action && t
                                == self.key_binds@[k].text@ && forall|j: int|
                                0 <= j < k ==> self.key_binds@[j].action != action;
                        assert(k == i);
                    } else {
                        assert(self.key_binds@[i as int].action == action);
                    }
                }
                return FooterMenuItem { label, shortcut: Some(text), action };
            }
            i = i + 1;
        }
        proof {
            if let Some(t) = first_shortcut(self.key_binds@, action) {
                let k = choose|k: int|
                    0 <= k < n && (#[trigger] self.key_binds@[k]).action == action && t
                        == self.key_binds@[k].text@ && forall|j: int|
                        0 <= j < k ==> self.key_binds@[j].action != action;
                assert(self.key_binds@[k].action != action);
            }
        }
        FooterMenuItem { label, shortcut: None, action }
    }

    pub open spec fn describes_selection_footer(self, f: SelectionFooter, texts: SelectionTexts) -> bool {
        let t = self.active_tab().unwrap();
        let all_selected = t.spec_all_selectable_items_selected();
        let actions = spec_selection_menu_actions(
            f.stats.spec_can_open(),
            t.is_trash,
            !self.spec_uses_compact_selection_footer(),
        );
        &&& f.stats.summarizes(t.items.unwrap()@)
        &&& f.in_trash == t.is_trash
        &&& f.compact == self.spec_uses_compact_selection_footer()
        &&& f.summary matches Phrase::SelectionFooterSummary { selection, size } && selection@
            == f.stats.spec_breakdown_text(texts) && size@ == f.stats.spec_size_text(texts)
        &&& f.select_button == select_button_for(all_selected)
        &&& f.move_to_button == if f.compact {
            Some(TextButton { label: Phrase::MoveTo, message: FooterMessage::MoveTo })
        } else {
            None
        }
        &&& f.delete_message == FooterMessage::Delete
        &&& f.menu@.len() == actions.len()
        &&& forall|i: int| 0 <= i < actions.len() ==> self.is_menu_item(#[trigger] f.menu@[i], actions[i])
    }

    /// The footer of the active tab's selection, where something is selected:
    /// its statistics and caption, its layout, its buttons to select or
    /// deselect all, to delete, and in the compact layout to move, and its
    /// menu, which offers moving where the footer is wide. `texts` render the
    /// pieces of the caption.
    pub fn selection_footer(&self, texts: &SelectionTexts) -> (r: Option<SelectionFooter>)
        ensures
            r is Some <==> self.spec_shows_selection_footer(),
            r matches Some(f) ==> self.describes_selection_footer(f, *texts),
    {
        let (stats, in_trash, all_selected) = match self.selection_footer_stats() {
            Some(s) => s,
            None => return None,
        };
        let compact = self.uses_compact_selection_footer();
        let summary = stats.footer_summary(texts);
        let select_button = select_button(all_selected);
        let move_to_button = if compact {
            Some(TextButton { label: Phrase::MoveTo, message: FooterMessage::MoveTo })
        } else {
            None
        };
        let actions = selection_menu_actions(&stats, in_trash, !compact);
        let mut menu: Vec<FooterMenuItem> = Vec::new();
        let n = actions.len();
        let mut i: usize = 0;
        while i < n
            invariant
                n == actions@.len(),
                i <= n,
                menu@.len() == i,
                forall|j: int| 0 <= j < i ==> self.is_menu_item(#[trigger] menu@[j], actions@[j]),
            decreases n - i,
        {
            let action = actions[i];
            let item = self.floating_footer_menu_item(action.label(), action.app_action());
            menu.push(item);
            i = i + 1;
        }
        Some(
            SelectionFooter {
                stats,
                in_trash,
                compact,
                summary,
                select_button,
                move_to_button,
                delete_message: FooterMessage::Delete,
                menu,
            },
        )
    }

    pub open spec fn empty_trash_footer() -> FloatingFooter {
        FloatingFooter::Trash(
            TextButton { label: Phrase::EmptyTrash, message: FooterMessage::EmptyTrash },
        )
    }

    /// The footer that floats over the active tab: the selection's, else the trash's.
    pub fn floating_footer(&self, texts: &SelectionTexts) -> (r: Option<FloatingFooter>)
        ensures
            r matches Some(FloatingFooter::Selection(f)) <==> self.spec_shows_selection_footer(),
            r matches Some(FloatingFooter::Selection(f)) ==> self.describes_selection_footer(f, *texts),
            r matches Some(FloatingFooter::Trash(_)) <==> !self.spec_shows_selection_footer()
                && self.spec_shows_trash_footer(),
            r matches Some(FloatingFooter::Trash(b)) ==> FloatingFooter::Trash(b) == Self::empty_trash_footer(),
    {
        match self.selection_footer(texts) {
            Some(f) => Some(FloatingFooter::Selection(f)),
            None => self.trash_footer(),
        }
    }

    /// The footer under a tab, and how far the tab's items scroll past their
    /// end to clear it. While the context drawer shows the selection, only a
    /// trash tab has a footer, the trash's.
    pub fn tab_view_with_footer(&self, tab: &Tab, entity: Entity, texts: &SelectionTexts) -> (r: TabViewFooter)
        ensures
            self.selection_details_shown && tab.is_trash ==> (r.footer is Some
                <==> self.spec_shows_trash_footer()) && (r.footer matches Some(f) ==> f
                == Self::empty_trash_footer()),
            self.selection_details_shown && !tab.is_trash ==> r.footer is None,
            !self.selection_details_shown ==> ((r.footer matches Some(FloatingFooter::Selection(f)))
                <==> self.spec_shows_selection_footer()) && (r.footer matches Some(
                FloatingFooter::Selection(f),
            ) ==> self.describes_selection_footer(f, *texts)) && ((r.footer matches Some(
                FloatingFooter::Trash(_),
            )) <==> !self.spec_shows_selection_footer() && self.spec_shows_trash_footer()) && (
            r.footer matches Some(FloatingFooter::Trash(b)) ==> FloatingFooter::Trash(b)
                == Self::empty_trash_footer()),
            r.scroll_inset == if r.footer is Some {
                self.spec_floating_footer_scroll_inset()
            } else {
                0
            },
            r.tab == entity,
    {
        let use_sidebar_selection = self.selection_details_shown;
        let footer = if use_sidebar_selection && tab.is_trash {
            self.trash_footer()
        } else if use_sidebar_selection {
            None
        } else {
            self.floating_footer(texts)
        };
        let scroll_inset = if footer.is_some() {
            self.floating_footer_scroll_inset()
        } else {
            0
        };
        TabViewFooter { footer, scroll_inset, tab: entity }
    }
}

/// The space above the divider of the selection footer.
pub const SELECTION_FOOTER_DIVIDER_TOP_PADDING: u16 = 2;

/// The space above and below the contents of the selection footer.
pub const SELECTION_FOOTER_VERTICAL_PADDING: u16 = 2;

/// The padding of the floating footer's shell: around its contents, and
/// around the shell itself (top, right, bottom, left).
#[derive(Clone, Copy, Debug, PartialEq, Eq, Structural)]
pub struct ShellPadding {
    pub content_vertical: u16,
    pub content_horizontal: u16,
    pub top: u16,
    pub right: u16,
    pub bottom: u16,
    pub left: u16,
}

/// The padding of the floating footer's shell, from the theme's extra-extra-small
/// and small spacings.
pub fn floating_footer_shell(space_xxs: u16, space_s: u16) -> (r: ShellPadding)
    requires
        space_xxs + SELECTION_FOOTER_VERTICAL_PADDING <= u16::MAX,
        space_xxs + SELECTION_FOOTER_DIVIDER_TOP_PADDING <= u16::MAX,
    ensures
        r.content_vertical == SELECTION_FOOTER_VERTICAL_PADDING + space_xxs,
        r.content_horizontal == space_xxs,
        r.top == SELECTION_FOOTER_DIVIDER_TOP_PADDING + space_xxs,
        r.right == space_s,
        r.bottom == if space_xxs > 0 { space_xxs - 1 } else { 0 },
        r.left == r.bottom,
{
    let footer_edge_padding = space_xxs.saturating_sub(1);
    ShellPadding {
        content_vertical: SELECTION_FOOTER_VERTICAL_PADDING + space_xxs,
        content_horizontal: space_xxs,
        top: SELECTION_FOOTER_DIVIDER_TOP_PADDING + space_xxs,
        right: space_s,
        bottom: footer_edge_padding,
        left: footer_edge_padding,
    }
}

} // verus!
