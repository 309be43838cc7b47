use selection_footer::footer::{FooterMessage, TextButton};
use selection_footer::item::{DirSize, Item, ItemMetadata};
use selection_footer::preview::{
    get_mode_part, join_set, mime_type_counts, mime_type_list, owner_titles, permission_summary,
    selected_mode_part, string_set, ActionButton, MimeAppChoice, MimeCount, Ownership,
    PermissionRow, PermissionSource, ShiftPermissions,
};
use selection_footer::selection::{Action, Phrase, SelectionTexts};
use selection_footer::tab::Tab;

fn texts() -> SelectionTexts {
    SelectionTexts {
        files: "2 files".to_string(),
        folders: "0 folders".to_string(),
        contains: "0 items".to_string(),
        calculating: "Calculating...".to_string(),
        formatted_size: "3 B".to_string(),
    }
}

fn apps(v: &[(&str, bool)]) -> Vec<MimeAppChoice> {
    v.iter().map(|(id, d)| MimeAppChoice { id: id.to_string(), is_default: *d }).collect()
}

fn strings(v: &[&str]) -> Vec<String> {
    v.iter().map(|s| s.to_string()).collect()
}

fn item(selected: bool, mime: &str, mode: u32, path: bool) -> Item {
    Item {
        selected,
        hidden: false,
        metadata: ItemMetadata::Path {
            is_dir: false,
            len: 1,
            mode,
            uid: 1000,
            gid: 100,
            children_opt: None,
        },
        dir_size: DirSize::NotDirectory,
        mime: mime.to_string(),
        path: if path { Some("/home/u/f".to_string()) } else { None },
    }
}

#[test]
fn mime_counts_rank_by_frequency_then_name() {
    let counts = mime_type_counts(&strings(&[
        "text/plain", "image/png", "text/plain", "application/pdf", "image/png", "text/plain",
        "audio/ogg",
    ]));
    let got: Vec<(String, u64)> = counts.into_iter().map(|c| (c.mime, c.count)).collect();
    assert_eq!(
        got,
        vec![
            ("text/plain".to_string(), 3),
            ("image/png".to_string(), 2),
            ("application/pdf".to_string(), 1),
            ("audio/ogg".to_string(), 1),
        ]
    );
    assert!(mime_type_counts(&vec![]).is_empty());
}

#[test]
fn mime_list_formats_counts() {
    let counts = vec![
        MimeCount { mime: "text/plain".to_string(), count: 12 },
        MimeCount { mime: "image/png".to_string(), count: 1 },
    ];
    assert_eq!(mime_type_list(&counts), "text/plain (12), image/png (1)");
    assert_eq!(mime_type_list(&vec![]), "");
}

#[test]
fn mime_list_is_cut_after_ten() {
    let counts: Vec<MimeCount> = (0..11)
        .map(|i| MimeCount { mime: format!("t/{}", i), count: 100 - i })
        .collect();
    let text = mime_type_list(&counts);
    assert!(text.starts_with("t/0 (100), t/1 (99)"));
    assert!(text.ends_with("t/9 (91), ..."));
    assert!(!text.contains("t/10"));
    let ten: Vec<MimeCount> = (0..10).map(|i| MimeCount { mime: format!("t/{}", i), count: 1 }).collect();
    assert!(!mime_type_list(&ten).contains("..."));
}

#[test]
fn string_set_sorts_and_dedups() {
    let set = string_set(&strings(&["bob", "alice", "bob", "Zed", "émile", ""]));
    assert_eq!(set, strings(&["", "Zed", "alice", "bob", "émile"]));
}

#[test]
fn join_set_limits_to_five() {
    assert_eq!(join_set(&strings(&["a", "b"])), "a, b");
    assert_eq!(join_set(&strings(&["a", "b", "c", "d", "e"])), "a, b, c, d, e");
    assert_eq!(join_set(&strings(&["a", "b", "c", "d", "e", "f"])), "a, b, c, d, e, ...");
    assert_eq!(join_set(&vec![]), "");
}

#[test]
fn mode_parts() {
    assert_eq!(get_mode_part(0o754, 6), 7);
    assert_eq!(get_mode_part(0o754, 3), 5);
    assert_eq!(get_mode_part(0o754, 0), 4);
    assert_eq!(selected_mode_part(&vec![5, 5, 5]), Some(5));
    assert_eq!(selected_mode_part(&vec![5, 4]), None);
    assert_eq!(selected_mode_part(&vec![]), None);
}

#[test]
fn permissions_of_a_selection() {
    let owners = vec![
        Ownership { user_name: "bob".to_string(), group_name: "users".to_string() },
        Ownership { user_name: "alice".to_string(), group_name: "users".to_string() },
    ];
    let t = owner_titles(&owners);
    assert_eq!(t.user, "alice, bob");
    assert_eq!(t.group, "users");
    let sources = vec![
        PermissionSource { uid: 1, gid: 100, mode: 0o644 },
        PermissionSource { uid: 2, gid: 100, mode: 0o640 },
    ];
    let s = permission_summary(&sources);
    assert_eq!(
        s.owner,
        PermissionRow { label: Phrase::Owner, shift: 6, selected: Some(6), placeholder: Phrase::Mixed }
    );
    assert_eq!(
        s.group,
        PermissionRow { label: Phrase::Group, shift: 3, selected: Some(4), placeholder: Phrase::Mixed }
    );
    assert_eq!(
        s.other,
        PermissionRow { label: Phrase::Other, shift: 0, selected: None, placeholder: Phrase::Mixed }
    );
    assert_eq!(s.owner.pick(5), ShiftPermissions { shift: 6, part: 5 });
    assert_eq!(s.other.pick(0), ShiftPermissions { shift: 0, part: 0 });
    assert_eq!(s.other.placeholder.message_id(), "mixed");
    assert_eq!(permission_summary(&vec![]).owner.selected, None);
}

fn mixed_tab() -> Tab {
    Tab {
        is_trash: false,
        show_hidden: false,
        items: Some(vec![
            item(true, "text/plain", 0o644, true),
            item(true, "image/png", 0o600, false),
            item(false, "text/plain", 0o644, true),
            item(true, "text/plain", 0o640, true),
        ]),
    }
}

#[test]
fn multi_preview_outside_trash() {
    let p = mixed_tab().multi_preview_view(&texts());
    assert_eq!(p.stats.selected_items, 3);
    assert!(!p.in_trash);
    assert_eq!(p.select_button, TextButton { label: Phrase::SelectAll, message: FooterMessage::SelectAll });
    let mv = p.move_to_button.as_ref().unwrap();
    assert_eq!((&mv.label, mv.action), (&Phrase::MoveTo, Action::MoveTo));
    assert_eq!(p.delete_action, Action::Delete);
    let menu: Vec<(String, Action)> =
        p.overflow.iter().map(|b: &ActionButton| (b.label.message_id().to_string(), b.action)).collect();
    assert_eq!(
        menu,
        vec![("open".to_string(), Action::Open), ("duplicate".to_string(), Action::Duplicate)]
    );
    assert_eq!(p.items_label, Phrase::Items(3));
    assert_eq!(p.breakdown, "2 files");
    assert_eq!(p.size_label, Phrase::ItemSize { size: "3 B".to_string() });
    assert_eq!(p.size_label.message_id(), "item-size");
    assert_eq!(p.type_label, Phrase::Type { mime: "text/plain (2), image/png (1)".to_string() });
    assert_eq!(p.type_label.message_id(), "type");
    let sources = p.permission_sources.clone().unwrap();
    assert_eq!(
        sources,
        vec![
            PermissionSource { uid: 1000, gid: 100, mode: 0o644 },
            PermissionSource { uid: 1000, gid: 100, mode: 0o640 },
        ]
    );
    let rows = p.permissions.unwrap();
    assert_eq!(rows.owner.selected, Some(6));
    assert_eq!(rows.group.selected, Some(4));
    assert_eq!(rows.other.selected, None);
    assert_eq!(rows.group.pick(2), ShiftPermissions { shift: 3, part: 2 });
}

#[test]
fn multi_preview_in_trash() {
    let tab = Tab { is_trash: true, show_hidden: false, items: Some(vec![item(true, "text/plain", 0o644, true)]) };
    let p = tab.multi_preview_view(&texts());
    assert!(p.in_trash);
    assert!(p.move_to_button.is_none());
    assert_eq!(p.delete_action, Action::Delete);
    assert_eq!(p.select_button, TextButton { label: Phrase::DeselectAll, message: FooterMessage::SelectNone });
    let menu: Vec<Action> = p.overflow.iter().map(|b| b.action).collect();
    assert_eq!(menu, vec![Action::RestoreFromTrash, Action::MoveTo]);
    assert!(p.permission_sources.is_none());
    assert!(p.permissions.is_none());
    assert!(p.open_with_row(&apps(&[("editor", true)])).is_none());
    let empty = Tab { is_trash: false, show_hidden: false, items: None }.multi_preview_view(&texts());
    assert_eq!(empty.stats.selected_items, 0);
    assert!(empty.mime_types.is_empty());
    assert_eq!(empty.type_label, Phrase::Type { mime: String::new() });
}

#[test]
fn open_with_the_single_type() {
    let one = Tab {
        is_trash: false,
        show_hidden: false,
        items: Some(vec![item(true, "text/plain", 0o644, true), item(true, "text/plain", 0o644, true)]),
    };
    let mime = one.multi_preview_view(&texts()).open_with_mime().unwrap();
    assert_eq!(mime.essence_str(), "text/plain");
    let two = Tab {
        is_trash: false,
        show_hidden: false,
        items: Some(vec![item(true, "text/plain", 0o644, true), item(true, "image/png", 0o644, true)]),
    };
    assert!(two.multi_preview_view(&texts()).open_with_mime().is_none());
    let bad = Tab { is_trash: false, show_hidden: false, items: Some(vec![item(true, "not a type", 0o644, true)]) };
    assert!(bad.multi_preview_view(&texts()).open_with_mime().is_none());
    let image = Tab { is_trash: false, show_hidden: false, items: Some(vec![item(true, "image/png", 0o644, true)]) };
    assert_eq!(image.multi_preview_view(&texts()).open_with_mime().unwrap().essence_str(), "image/png");
}

#[test]
fn no_open_with_in_the_trash() {
    let t = Tab { is_trash: true, show_hidden: false, items: Some(vec![item(true, "text/plain", 0o644, true)]) };
    assert!(t.multi_preview_view(&texts()).open_with_mime().is_none());
}

#[test]
fn open_with_row_offers_the_applications() {
    let one = Tab { is_trash: false, show_hidden: false, items: Some(vec![item(true, "text/plain", 0o644, true)]) };
    let p = one.multi_preview_view(&texts());
    let row = p.open_with_row(&apps(&[("vim", false), ("gedit", true), ("kate", true)])).unwrap();
    assert_eq!(row.label, Phrase::OpenWith);
    assert_eq!(row.label.message_id(), "open-with");
    assert_eq!(row.mime.essence_str(), "text/plain");
    assert_eq!(row.app_ids, vec!["vim".to_string(), "gedit".to_string(), "kate".to_string()]);
    assert_eq!(row.selected, Some(1));
    let (mime, id) = row.pick(2);
    assert_eq!(mime.essence_str(), "text/plain");
    assert_eq!(id, "kate");
    let none_default = p.open_with_row(&apps(&[("vim", false)])).unwrap();
    assert_eq!(none_default.selected, None);
    assert!(p.open_with_row(&vec![]).is_none());
    let two = mixed_tab().multi_preview_view(&texts());
    assert!(two.open_with_row(&apps(&[("vim", true)])).is_none());
}
