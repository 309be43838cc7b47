use selection_footer::footer::{App, TabEntry, TabModel};
use selection_footer::item::{DirSize, Item, ItemMetadata, TrashEntry, TrashSize};
use selection_footer::paths::{group_by_parent, move_from_trash, trash_original_paths};
use selection_footer::selection::Phrase;
use selection_footer::tab::Tab;

fn strings(v: &[&str]) -> Vec<String> {
    v.iter().map(|s| s.to_string()).collect()
}

fn entry(id: &str) -> TrashEntry {
    TrashEntry {
        handle: 0,
        id: id.to_string(),
        name: "photos".to_string(),
        original_parent: "/home/user/Pictures".to_string(),
        time_deleted: 0,
    }
}

fn trashed(size: TrashSize, id: &str) -> Item {
    Item {
        selected: true,
        hidden: false,
        metadata: ItemMetadata::Trash { size, entry: entry(id) },
        dir_size: DirSize::NotDirectory,
        mime: "inode/directory".to_string(),
        path: Some("/elsewhere".to_string()),
    }
}

fn at(path: &str, selected: bool) -> Item {
    Item {
        selected,
        hidden: false,
        metadata: ItemMetadata::SimpleFile { size: 1 },
        dir_size: DirSize::NotDirectory,
        mime: "text/plain".to_string(),
        path: Some(path.to_string()),
    }
}

#[test]
fn dir_size_path_of_a_trashed_folder() {
    let item = trashed(TrashSize::Entries(2), "/home/user/.local/share/Trash/info/photos.trashinfo");
    assert_eq!(item.dir_size_path().as_deref(), Some("/home/user/.local/share/Trash/files/photos"));
}

#[test]
fn dir_size_path_of_other_items() {
    let file = trashed(TrashSize::Bytes(2), "/home/user/.local/share/Trash/info/photos.trashinfo");
    assert_eq!(file.dir_size_path().as_deref(), Some("/elsewhere"));
    assert_eq!(at("/home/a.txt", false).dir_size_path().as_deref(), Some("/home/a.txt"));
    let shallow = trashed(TrashSize::Entries(2), "/x.trashinfo");
    assert_eq!(shallow.dir_size_path(), None);
}

#[test]
fn original_paths_of_trash_entries() {
    let paths = trash_original_paths(&vec![entry("i")]);
    assert_eq!(paths, strings(&["/home/user/Pictures/photos"]));
}

#[test]
fn grouping_by_parent() {
    let groups = group_by_parent(&strings(&["/b/y", "/a/x", "rel", "/", "/a/z", "/a//w"]));
    let got: Vec<(String, Vec<String>)> = groups.into_iter().map(|g| (g.to, g.paths)).collect();
    assert_eq!(
        got,
        vec![
            ("".to_string(), strings(&["rel"])),
            ("/a".to_string(), strings(&["/a/x", "/a/z", "/a//w"])),
            ("/b".to_string(), strings(&["/b/y"])),
        ]
    );
}

#[test]
fn grouping_orders_by_components() {
    let groups = group_by_parent(&strings(&["/a-b/1", "/a/b/2", "/a/3"]));
    let tos: Vec<String> = groups.into_iter().map(|g| g.to).collect();
    assert_eq!(tos, strings(&["/a", "/a/b", "/a-b"]));
}

#[test]
fn duplicate_selected_groups_selected_paths() {
    let tab = Tab {
        is_trash: false,
        show_hidden: false,
        items: Some(vec![at("/d/one", true), at("/d/two", false), at("/e/three", true)]),
    };
    let app = App {
        tab_model: TabModel { tabs: vec![TabEntry { entity: 3, tab }], active: 3 },
        condensed: false,
        nav_bar_active: false,
        width: None,
        selection_details_shown: false,
        key_binds: vec![],
    };
    let groups = app.duplicate_selected(None);
    let got: Vec<(String, Vec<String>)> = groups.into_iter().map(|g| (g.to, g.paths)).collect();
    assert_eq!(got, vec![("/d".to_string(), strings(&["/d/one"])), ("/e".to_string(), strings(&["/e/three"]))]);
    assert!(app.duplicate_selected(Some(4)).is_empty());
}

#[test]
fn move_from_trash_dialog() {
    let d = move_from_trash(&vec![entry("/t/info/photos.trashinfo")]);
    assert_eq!(d.paths, strings(&["/home/user/Pictures/photos"]));
    assert_eq!(d.title, Phrase::MoveToTitle);
    assert_eq!(d.button_label, Phrase::MoveToButtonLabel);
    assert_eq!(d.title.message_id(), "move-to-title");
    assert_eq!(d.button_label.message_id(), "move-to-button-label");
    assert!(move_from_trash(&vec![]).paths.is_empty());
}
