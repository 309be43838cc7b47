use selection_footer::footer::{
    floating_footer_shell, App, FloatingFooter, FooterMessage, KeyBinding, TabEntry, TabModel,
    TextButton,
};
use selection_footer::item::{DirSize, Item, ItemMetadata, TrashEntry, TrashSize};
use selection_footer::selection::{Action, Phrase, SelectionTexts};
use selection_footer::tab::Tab;

fn file(selected: bool) -> Item {
    Item {
        selected,
        hidden: false,
        metadata: ItemMetadata::SimpleFile { size: 10 },
        dir_size: DirSize::NotDirectory,
        mime: "text/plain".to_string(),
        path: Some("/home/user/a.txt".to_string()),
    }
}

fn trashed(selected: bool, name: &str) -> Item {
    Item {
        selected,
        hidden: false,
        metadata: ItemMetadata::Trash {
            size: TrashSize::Bytes(5),
            entry: TrashEntry {
                handle: name.as_bytes()[0] as u64,
                id: format!("/t/info/{}.trashinfo", name),
                name: name.to_string(),
                original_parent: "/home/user".to_string(),
                time_deleted: 0,
            },
        },
        dir_size: DirSize::NotDirectory,
        mime: "text/plain".to_string(),
        path: None,
    }
}

fn app_with(tab: Tab) -> App {
    App {
        tab_model: TabModel { tabs: vec![TabEntry { entity: 7, tab }], active: 7 },
        condensed: false,
        nav_bar_active: false,
        width: Some(1200),
        selection_details_shown: false,
        key_binds: vec![],
    }
}

fn texts() -> SelectionTexts {
    SelectionTexts {
        files: "1 file".to_string(),
        folders: "1 folder".to_string(),
        contains: "4 items".to_string(),
        calculating: "Calculating...".to_string(),
        formatted_size: "10 B".to_string(),
    }
}

fn empty_trash_button() -> TextButton {
    TextButton { label: Phrase::EmptyTrash, message: FooterMessage::EmptyTrash }
}

fn plain(items: Vec<Item>) -> Tab {
    Tab { is_trash: false, show_hidden: false, items: Some(items) }
}

fn trash(items: Vec<Item>) -> Tab {
    Tab { is_trash: true, show_hidden: false, items: Some(items) }
}

#[test]
fn tab_model_finds_tabs() {
    let model = TabModel {
        tabs: vec![
            TabEntry { entity: 1, tab: plain(vec![]) },
            TabEntry { entity: 2, tab: trash(vec![]) },
        ],
        active: 2,
    };
    assert!(model.data(1).is_some_and(|t| !t.is_trash));
    assert!(model.active_data().is_some_and(|t| t.is_trash));
    assert!(model.data(3).is_none());
    assert_eq!(model.position(2), Some(1));
}

#[test]
fn active_tab_selection() {
    assert!(app_with(plain(vec![file(false), file(true)])).active_tab_has_selection());
    assert!(!app_with(plain(vec![file(false)])).active_tab_has_selection());
    let mut app = app_with(plain(vec![file(true)]));
    app.tab_model.active = 99;
    assert!(!app.active_tab_has_selection());
}

#[test]
fn footer_stats_only_with_a_selection() {
    let app = app_with(plain(vec![file(true), file(true)]));
    let (stats, in_trash, all) = app.selection_footer_stats().unwrap();
    assert_eq!(stats.selected_items, 2);
    assert!(!in_trash);
    assert!(all);
    assert!(app_with(plain(vec![file(false)])).selection_footer_stats().is_none());
}

#[test]
fn compact_layout_thresholds() {
    let mut app = app_with(plain(vec![]));
    app.width = Some(719);
    assert!(app.uses_compact_selection_footer());
    app.width = Some(720);
    assert!(!app.uses_compact_selection_footer());
    app.nav_bar_active = true;
    app.width = Some(887);
    assert!(app.uses_compact_selection_footer());
    app.width = Some(888);
    assert!(!app.uses_compact_selection_footer());
    app.width = None;
    assert!(!app.uses_compact_selection_footer());
    app.condensed = true;
    assert!(app.uses_compact_selection_footer());
    app.condensed = false;
    app.nav_bar_active = false;
    app.width = Some(i64::MIN);
    assert!(app.uses_compact_selection_footer());
}

#[test]
fn scroll_inset_values() {
    let mut app = app_with(plain(vec![file(true)]));
    assert_eq!(app.floating_footer_scroll_inset(), 56);
    app.width = Some(500);
    assert_eq!(app.floating_footer_scroll_inset(), 96);
    let mut none = app_with(plain(vec![file(false)]));
    none.width = Some(500);
    assert_eq!(none.floating_footer_scroll_inset(), 56);
}

#[test]
fn trash_footer_cases() {
    match app_with(trash(vec![trashed(false, "a")])).trash_footer() {
        Some(FloatingFooter::Trash(b)) => assert_eq!(b, empty_trash_button()),
        _ => panic!("expected the trash footer"),
    }
    assert!(app_with(trash(vec![])).trash_footer().is_none());
    assert!(app_with(plain(vec![file(false)])).trash_footer().is_none());
    let selected = app_with(trash(vec![trashed(true, "a")]));
    assert!(selected.trash_footer().is_none());
    let mut details = app_with(trash(vec![trashed(true, "a")]));
    details.selection_details_shown = true;
    assert!(details.trash_footer().is_some());
}

#[test]
fn menu_item_takes_first_binding() {
    let mut app = app_with(plain(vec![]));
    app.key_binds = vec![
        KeyBinding { text: "Ctrl+O".to_string(), action: Action::Other(3) },
        KeyBinding { text: "Ctrl+Q".to_string(), action: Action::Other(4) },
        KeyBinding { text: "Ctrl+D".to_string(), action: Action::Duplicate },
        KeyBinding { text: "Ctrl+Shift+D".to_string(), action: Action::Duplicate },
    ];
    let item = app.floating_footer_menu_item(Phrase::Duplicate, Action::Duplicate);
    assert_eq!(item.shortcut.as_deref(), Some("Ctrl+D"));
    assert_eq!(item.action, Action::Duplicate);
    let none = app.floating_footer_menu_item(Phrase::MoveTo, Action::MoveTo);
    assert!(none.shortcut.is_none());
    let other = app.floating_footer_menu_item(Phrase::Open, Action::Other(4));
    assert_eq!(other.shortcut.as_deref(), Some("Ctrl+Q"));
}

#[test]
fn selection_footer_wide_and_compact() {
    let app = app_with(plain(vec![file(true), file(false)]));
    let f = app.selection_footer(&texts()).unwrap();
    assert!(!f.compact);
    assert_eq!(f.select_button, TextButton { label: Phrase::SelectAll, message: FooterMessage::SelectAll });
    assert!(f.move_to_button.is_none());
    assert_eq!(f.delete_message, FooterMessage::Delete);
    assert_eq!(
        f.summary,
        Phrase::SelectionFooterSummary { selection: "1 file".to_string(), size: "10 B".to_string() }
    );
    assert_eq!(f.summary.message_id(), "selection-footer-summary");
    let actions: Vec<Action> = f.menu.iter().map(|m| m.action).collect();
    assert_eq!(actions, vec![Action::Open, Action::Duplicate, Action::MoveTo]);

    let mut compact = app_with(plain(vec![file(true)]));
    compact.condensed = true;
    let f = compact.selection_footer(&texts()).unwrap();
    assert!(f.compact);
    assert_eq!(f.select_button, TextButton { label: Phrase::DeselectAll, message: FooterMessage::SelectNone });
    assert_eq!(f.move_to_button, Some(TextButton { label: Phrase::MoveTo, message: FooterMessage::MoveTo }));
    assert_eq!(f.delete_message, FooterMessage::Delete);
    let actions: Vec<Action> = f.menu.iter().map(|m| m.action).collect();
    assert_eq!(actions, vec![Action::Open, Action::Duplicate]);
    assert!(app_with(plain(vec![file(false)])).selection_footer(&texts()).is_none());
}

#[test]
fn floating_footer_prefers_selection() {
    let app = app_with(trash(vec![trashed(true, "a")]));
    match app.floating_footer(&texts()) {
        Some(FloatingFooter::Selection(f)) => {
            assert!(f.in_trash);
            let actions: Vec<Action> = f.menu.iter().map(|m| m.action).collect();
            assert_eq!(actions, vec![Action::RestoreFromTrash, Action::MoveTo]);
        }
        _ => panic!("expected the selection footer"),
    }
    match app_with(trash(vec![trashed(false, "a")])).floating_footer(&texts()) {
        Some(FloatingFooter::Trash(b)) => assert_eq!(b, empty_trash_button()),
        _ => panic!("expected the trash footer"),
    }
    assert!(app_with(plain(vec![file(false)])).floating_footer(&texts()).is_none());
}

#[test]
fn tab_view_footer_with_details_shown() {
    let mut app = app_with(plain(vec![file(true)]));
    app.selection_details_shown = true;
    let tab = plain(vec![file(true)]);
    let r = app.tab_view_with_footer(&tab, 7, &texts());
    assert!(r.footer.is_none());
    assert_eq!(r.scroll_inset, 0);
    assert_eq!(r.tab, 7);

    let mut app = app_with(trash(vec![trashed(true, "a")]));
    app.selection_details_shown = true;
    let tab = trash(vec![trashed(true, "a")]);
    let r = app.tab_view_with_footer(&tab, 4, &texts());
    match r.footer {
        Some(FloatingFooter::Trash(b)) => assert_eq!(b, empty_trash_button()),
        _ => panic!("expected the trash footer"),
    }
    assert_eq!(r.scroll_inset, 56);
    assert_eq!(r.tab, 4);

    let app = app_with(plain(vec![file(true)]));
    let r = app.tab_view_with_footer(&plain(vec![]), 7, &texts());
    assert!(matches!(r.footer, Some(FloatingFooter::Selection(_))));
    assert_eq!(r.scroll_inset, 56);
}

#[test]
fn selected_trash_items_of_a_tab() {
    let app = App {
        tab_model: TabModel {
            tabs: vec![
                TabEntry { entity: 1, tab: trash(vec![trashed(true, "a"), trashed(false, "b"), trashed(true, "c")]) },
                TabEntry { entity: 2, tab: plain(vec![file(true)]) },
            ],
            active: 2,
        },
        condensed: false,
        nav_bar_active: false,
        width: None,
        selection_details_shown: false,
        key_binds: vec![],
    };
    let entries = app.selected_trash_items(Some(1));
    let handles: Vec<u64> = entries.iter().map(|e| e.handle).collect();
    assert_eq!(handles, vec![b'a' as u64, b'c' as u64]);
    let names: Vec<String> = entries.into_iter().map(|e| e.name).collect();
    assert_eq!(names, vec!["a".to_string(), "c".to_string()]);
    assert!(app.selected_trash_items(None).is_empty());
    assert!(app.selected_trash_items(Some(9)).is_empty());
}

#[test]
fn selected_trash_items_default_to_the_active_tab() {
    let mut app = app_with(trash(vec![trashed(true, "a"), trashed(false, "b")]));
    let by_default: Vec<String> = app.selected_trash_items(None).into_iter().map(|e| e.name).collect();
    let by_id: Vec<String> = app.selected_trash_items(Some(7)).into_iter().map(|e| e.name).collect();
    assert_eq!(by_default, vec!["a".to_string()]);
    assert_eq!(by_default, by_id);
    app.tab_model.active = 8;
    assert!(app.selected_trash_items(None).is_empty());
}

#[test]
fn shell_padding() {
    let p = floating_footer_shell(4, 12);
    assert_eq!(p.content_vertical, 6);
    assert_eq!(p.content_horizontal, 4);
    assert_eq!(p.top, 6);
    assert_eq!(p.right, 12);
    assert_eq!(p.bottom, 3);
    assert_eq!(p.left, 3);
    assert_eq!(floating_footer_shell(0, 8).bottom, 0);
}
