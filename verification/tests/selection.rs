use selection_footer::item::{DirSize, Item, ItemMetadata, TrashEntry, TrashSize};
use selection_footer::selection::{
    selection_menu_actions, Action, ArgValue, Phrase, PhraseArg, SelectionMenuAction, SelectionStats,
    SelectionTexts,
};
use selection_footer::tab::Tab;

fn file(selected: bool, size: u64) -> Item {
    Item {
        selected,
        hidden: false,
        metadata: ItemMetadata::SimpleFile { size },
        dir_size: DirSize::NotDirectory,
        mime: "text/plain".to_string(),
        path: None,
    }
}

fn folder(selected: bool, children: Option<usize>, dir_size: DirSize) -> Item {
    Item {
        selected,
        hidden: false,
        metadata: ItemMetadata::Path {
            is_dir: true,
            len: 4096,
            mode: 0o755,
            uid: 1000,
            gid: 1000,
            children_opt: children,
        },
        dir_size,
        mime: "inode/directory".to_string(),
        path: Some("/home/user/dir".to_string()),
    }
}

fn trash_entry(name: &str) -> TrashEntry {
    TrashEntry {
        handle: 0,
        id: format!("/home/user/.local/share/Trash/info/{}.trashinfo", name),
        name: name.to_string(),
        original_parent: "/home/user".to_string(),
        time_deleted: 1700000000,
    }
}

fn tab(items: Vec<Item>) -> Tab {
    Tab { is_trash: false, show_hidden: false, items: Some(items) }
}

fn texts() -> SelectionTexts {
    SelectionTexts {
        files: "2 files".to_string(),
        folders: "1 folder".to_string(),
        contains: "5 items".to_string(),
        calculating: "Calculating...".to_string(),
        formatted_size: "1.2 KB".to_string(),
    }
}

fn stats(files: usize, folders: usize, contains_known: bool) -> SelectionStats {
    SelectionStats {
        selected_items: files + folders,
        selected_files: files,
        selected_folders: folders,
        contained_items: 5,
        contains_items_known: contains_known,
        total_size: 1200,
        calculating_dir_size: false,
        unknown_size: false,
        dir_size_error: None,
    }
}

#[test]
fn stats_count_files_folders_and_sizes() {
    let t = tab(vec![
        file(true, 100),
        file(true, 200),
        file(false, 1000),
        folder(true, Some(3), DirSize::Directory(50)),
        folder(true, Some(4), DirSize::Directory(25)),
    ]);
    let s = t.selection_stats().unwrap();
    assert_eq!(s.selected_items, 4);
    assert_eq!(s.selected_files, 2);
    assert_eq!(s.selected_folders, 2);
    assert_eq!(s.contained_items, 7);
    assert!(s.contains_items_known);
    assert_eq!(s.total_size, 375);
    assert!(!s.calculating_dir_size);
    assert!(!s.unknown_size);
    assert!(s.dir_size_error.is_none());
}

#[test]
fn stats_without_items_is_none() {
    let t = Tab { is_trash: false, show_hidden: false, items: None };
    assert!(t.selection_stats().is_none());
}

#[test]
fn stats_sizes_saturate() {
    let t = tab(vec![file(true, u64::MAX), file(true, 10)]);
    let s = t.selection_stats().unwrap();
    assert_eq!(s.total_size, u64::MAX);
}

#[test]
fn stats_unknown_children_and_calculating() {
    let t = tab(vec![
        folder(true, None, DirSize::Calculating),
        folder(true, Some(2), DirSize::Directory(1)),
    ]);
    let s = t.selection_stats().unwrap();
    assert!(!s.contains_items_known);
    assert!(s.calculating_dir_size);
    assert_eq!(s.contained_items, 2);
}

#[test]
fn stats_keep_the_first_error() {
    let t = tab(vec![
        folder(true, Some(1), DirSize::Error("first".to_string())),
        folder(true, Some(1), DirSize::Error("second".to_string())),
        folder(false, Some(1), DirSize::Error("unselected".to_string())),
    ]);
    let s = t.selection_stats().unwrap();
    assert_eq!(s.dir_size_error.as_deref(), Some("first"));
}

#[test]
fn stats_of_trash_items() {
    let dir = Item {
        selected: true,
        hidden: false,
        metadata: ItemMetadata::Trash { size: TrashSize::Entries(9), entry: trash_entry("d") },
        dir_size: DirSize::Directory(90),
        mime: "inode/directory".to_string(),
        path: None,
    };
    let f = Item {
        selected: true,
        hidden: false,
        metadata: ItemMetadata::Trash { size: TrashSize::Bytes(11), entry: trash_entry("f") },
        dir_size: DirSize::NotDirectory,
        mime: "text/plain".to_string(),
        path: None,
    };
    let s = tab(vec![dir, f]).selection_stats().unwrap();
    assert_eq!(s.selected_folders, 1);
    assert_eq!(s.selected_files, 1);
    assert_eq!(s.contained_items, 9);
    assert_eq!(s.total_size, 101);
}

#[test]
fn unknown_file_size_marks_size_unknown() {
    let f = Item {
        selected: true,
        hidden: false,
        metadata: ItemMetadata::SimpleDir { entries: 3 },
        dir_size: DirSize::NotDirectory,
        mime: "inode/directory".to_string(),
        path: None,
    };
    let s = tab(vec![f]).selection_stats().unwrap();
    assert!(s.unknown_size);
    assert_eq!(s.contained_items, 3);
}

#[test]
fn has_selection_and_can_open() {
    assert!(!stats(0, 0, true).has_selection());
    assert!(stats(1, 0, true).has_selection());
    assert!(stats(3, 0, true).can_open());
    assert!(stats(0, 1, true).can_open());
    assert!(!stats(0, 2, true).can_open());
    assert!(!stats(1, 1, true).can_open());
    assert!(!stats(0, 0, true).can_open());
}

#[test]
fn labels_name_counts() {
    let s = stats(2, 1, true);
    assert!(matches!(s.files_label(), Phrase::FileCount(2)));
    assert!(matches!(s.folders_label(), Phrase::FolderCount(1)));
    assert!(matches!(s.contains_label(), Some(Phrase::ContainsItemCount(5))));
    assert!(stats(2, 0, true).contains_label().is_none());
    assert!(stats(2, 1, false).contains_label().is_none());
}

#[test]
fn breakdown_text_joins_parts() {
    assert_eq!(stats(2, 1, true).breakdown_text(&texts()), "2 files, 1 folder (5 items)");
    assert_eq!(stats(2, 0, true).breakdown_text(&texts()), "2 files");
    assert_eq!(stats(0, 1, false).breakdown_text(&texts()), "1 folder");
    assert_eq!(stats(0, 1, true).breakdown_text(&texts()), "1 folder (5 items)");
    assert_eq!(stats(0, 0, true).breakdown_text(&texts()), "");
}

#[test]
fn size_text_cases() {
    let mut s = stats(1, 0, true);
    assert_eq!(s.size_text(&texts()), "1.2 KB");
    s.dir_size_error = Some("Permission denied".to_string());
    assert_eq!(s.size_text(&texts()), "Permission denied");
    s.unknown_size = true;
    assert_eq!(s.size_text(&texts()), "Calculating...");
    s.unknown_size = false;
    s.calculating_dir_size = true;
    assert_eq!(s.size_text(&texts()), "Calculating...");
}

#[test]
fn footer_summary_has_breakdown_and_size() {
    match stats(2, 1, true).footer_summary(&texts()) {
        Phrase::SelectionFooterSummary { selection, size } => {
            assert_eq!(selection, "2 files, 1 folder (5 items)");
            assert_eq!(size, "1.2 KB");
        }
        _ => panic!("not a summary"),
    }
}

#[test]
fn default_stats_are_empty() {
    let s = SelectionStats::default();
    assert_eq!(s.selected_items, 0);
    assert!(!s.contains_items_known);
    assert!(!s.has_selection());
}

#[test]
fn menu_actions_outside_trash() {
    assert_eq!(selection_menu_actions(&stats(2, 0, true), false, true), vec![SelectionMenuAction::Open, SelectionMenuAction::Duplicate, SelectionMenuAction::MoveTo]);
    assert_eq!(selection_menu_actions(&stats(2, 2, true), false, true), vec![SelectionMenuAction::Duplicate, SelectionMenuAction::MoveTo]);
    assert_eq!(selection_menu_actions(&stats(1, 0, true), false, false), vec![SelectionMenuAction::Open, SelectionMenuAction::Duplicate]);
}

#[test]
fn menu_actions_in_trash() {
    assert_eq!(selection_menu_actions(&stats(2, 0, true), true, true), vec![SelectionMenuAction::RestoreFromTrash, SelectionMenuAction::MoveTo]);
    assert_eq!(selection_menu_actions(&stats(2, 0, true), true, false), vec![SelectionMenuAction::RestoreFromTrash]);
}

#[test]
fn menu_action_labels_and_actions() {
    assert_eq!(SelectionMenuAction::Open.app_action(), Action::Open);
    assert_eq!(SelectionMenuAction::Duplicate.app_action(), Action::Duplicate);
    assert_eq!(SelectionMenuAction::MoveTo.app_action(), Action::MoveTo);
    assert_eq!(SelectionMenuAction::RestoreFromTrash.app_action(), Action::RestoreFromTrash);
    assert!(matches!(SelectionMenuAction::RestoreFromTrash.label(), Phrase::RestoreFromTrash));
    assert!(matches!(SelectionMenuAction::MoveTo.label(), Phrase::MoveTo));
}

#[test]
fn all_selectable_items_selected_ignores_hidden() {
    let mut hidden = file(false, 1);
    hidden.hidden = true;
    let t = tab(vec![file(true, 1), hidden]);
    assert!(t.all_selectable_items_selected());
    let mut t2 = tab(vec![file(true, 1), {
        let mut h = file(false, 1);
        h.hidden = true;
        h
    }]);
    t2.show_hidden = true;
    assert!(!t2.all_selectable_items_selected());
    assert!(!tab(vec![]).all_selectable_items_selected());
    let mut only_hidden = file(true, 1);
    only_hidden.hidden = true;
    assert!(!tab(vec![only_hidden]).all_selectable_items_selected());
}

#[test]
fn stats_depend_only_on_the_selection() {
    let a = tab(vec![
        file(true, 100),
        folder(true, Some(3), DirSize::Directory(50)),
        file(false, 7),
    ]);
    let b = tab(vec![
        folder(false, None, DirSize::Calculating),
        folder(true, Some(3), DirSize::Directory(50)),
        file(true, 100),
    ]);
    let sa = a.selection_stats().unwrap();
    let sb = b.selection_stats().unwrap();
    assert_eq!(sa.selected_items, sb.selected_items);
    assert_eq!(sa.selected_files, sb.selected_files);
    assert_eq!(sa.selected_folders, sb.selected_folders);
    assert_eq!(sa.contained_items, sb.contained_items);
    assert_eq!(sa.contains_items_known, sb.contains_items_known);
    assert_eq!(sa.total_size, sb.total_size);
    assert_eq!(sa.calculating_dir_size, sb.calculating_dir_size);
    assert_eq!(sa.unknown_size, sb.unknown_size);
}

fn arg_pairs(args: &[PhraseArg]) -> Vec<(String, String)> {
    args.iter()
        .map(|a| {
            let v = match &a.value {
                ArgValue::Number(n) => format!("#{}", n),
                ArgValue::Text(t) => t.clone(),
            };
            (a.name.to_string(), v)
        })
        .collect()
}

#[test]
fn phrase_message_ids() {
    assert_eq!(Phrase::SelectAll.message_id(), "select-all");
    assert_eq!(Phrase::DeselectAll.message_id(), "deselect-all");
    assert_eq!(Phrase::RestoreFromTrash.message_id(), "restore-from-trash");
    assert_eq!(Phrase::FileCount(2).message_id(), "file-count");
    assert_eq!(Phrase::ContainsItemCount(2).message_id(), "contains-item-count");
    assert_eq!(Phrase::EmptyTrash.message_id(), "empty-trash");
    assert_eq!(Phrase::Owner.message_id(), "owner");
}

#[test]
fn phrase_arguments() {
    assert_eq!(arg_pairs(&Phrase::FileCount(2).args()), vec![("count".to_string(), "#2".to_string())]);
    assert_eq!(arg_pairs(&Phrase::FolderCount(1).args()), vec![("count".to_string(), "#1".to_string())]);
    assert_eq!(arg_pairs(&Phrase::ContainsItemCount(9).args()), vec![("count".to_string(), "#9".to_string())]);
    assert_eq!(arg_pairs(&Phrase::Items(3).args()), vec![("items".to_string(), "#3".to_string())]);
    assert_eq!(
        arg_pairs(&Phrase::SelectionFooterSummary { selection: "2 files".to_string(), size: "1 KB".to_string() }.args()),
        vec![("selection".to_string(), "2 files".to_string()), ("size".to_string(), "1 KB".to_string())]
    );
    assert_eq!(
        arg_pairs(&Phrase::ItemSize { size: "1 KB".to_string() }.args()),
        vec![("size".to_string(), "1 KB".to_string())]
    );
    assert_eq!(
        arg_pairs(&Phrase::Type { mime: "text/plain (1)".to_string() }.args()),
        vec![("mime".to_string(), "text/plain (1)".to_string())]
    );
    assert!(Phrase::Open.args().is_empty());
    assert!(Phrase::Mixed.args().is_empty());
}
