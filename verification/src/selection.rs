//! What a selection holds, which actions it offers, and how it is described.

use vstd::prelude::*;

use crate::item::{DirSize, Item, ItemMetadata, TrashSize};
use crate::text::{comma, comma_sep, join, join_strings, views};

verus! {

/// The actions of the application that a selection menu can trigger.
#[derive(Clone, Copy, Debug, PartialEq, Eq, Structural)]
pub enum Action {
    Open,
    Duplicate,
    MoveTo,
    RestoreFromTrash,
    Delete,
    /// Any other action of the application, by the number the application gives it.
    Other(u32),
}

/// The entries of the menu that a selection offers.
#[derive(Clone, Copy, Debug, PartialEq, Eq, Structural)]
pub enum SelectionMenuAction {
    Open,
    Duplicate,
    MoveTo,
    RestoreFromTrash,
}

/// A text of the user interface, named by its message and its arguments; the
/// application renders it in the user's language.
#[derive(Debug, PartialEq, Eq)]
pub enum Phrase {
    Open,
    Duplicate,
    MoveTo,
    RestoreFromTrash,
    SelectAll,
    DeselectAll,
    Calculating,
    FileCount(usize),
    FolderCount(usize),
    ContainsItemCount(u64),
    Items(usize),
    SelectionFooterSummary { selection: String, size: String },
    ItemSize { size: String },
    Type { mime: String },
    OpenWith,
    Owner,
    Group,
    Other,
    Mixed,
    EmptyTrash,
    MoveToTitle,
    MoveToButtonLabel,
}

impl Phrase {
    pub open spec fn spec_message_id(&self) -> Seq<char> {
        match self {
            Phrase::Open => seq!['o', 'p', 'e', 'n'],
            Phrase::Duplicate => seq!['d', 'u', 'p', 'l', 'i', 'c', 'a', 't', 'e'],
            Phrase::MoveTo => seq!['m', 'o', 'v', 'e', '-', 't', 'o'],
            Phrase::RestoreFromTrash => seq!['r', 'e', 's', 't', 'o', 'r', 'e', '-', 'f', 'r', 'o', 'm', '-', 't', 'r', 'a', 's', 'h'],
            Phrase::SelectAll => seq!['s', 'e', 'l', 'e', 'c', 't', '-', 'a', 'l', 'l'],
            Phrase::DeselectAll => seq!['d', 'e', 's', 'e', 'l', 'e', 'c', 't', '-', 'a', 'l', 'l'],
            Phrase::Calculating => seq!['c', 'a', 'l', 'c', 'u', 'l', 'a', 't', 'i', 'n', 'g'],
            Phrase::FileCount(_) => seq!['f', 'i', 'l', 'e', '-', 'c', 'o', 'u', 'n', 't'],
            Phrase::FolderCount(_) => seq!['f', 'o', 'l', 'd', 'e', 'r', '-', 'c', 'o', 'u', 'n', 't'],
            Phrase::ContainsItemCount(_) => seq!['c', 'o', 'n', 't', 'a', 'i', 'n', 's', '-', 'i', 't', 'e', 'm', '-', 'c', 'o', 'u', 'n', 't'],
            Phrase::Items(_) => seq!['i', 't', 'e', 'm', 's'],
            Phrase::SelectionFooterSummary { .. } => seq!['s', 'e', 'l', 'e', 'c', 't', 'i', 'o', 'n', '-', 'f', 'o', 'o', 't', 'e', 'r', '-', 's', 'u', 'm', 'm', 'a', 'r', 'y'],
            Phrase::ItemSize { .. } => seq!['i', 't', 'e', 'm', '-', 's', 'i', 'z', 'e'],
            Phrase::Type { .. } => seq!['t', 'y', 'p', 'e'],
            Phrase::OpenWith => seq!['o', 'p', 'e', 'n', '-', 'w', 'i', 't', 'h'],
            Phrase::Owner => seq!['o', 'w', 'n', 'e', 'r'],
            Phrase::Group => seq!['g', 'r', 'o', 'u', 'p'],
            Phrase::Other => seq!['o', 't', 'h', 'e', 'r'],
            Phrase::Mixed => seq!['m', 'i', 'x', 'e', 'd'],
            Phrase::EmptyTrash => seq!['e', 'm', 'p', 't', 'y', '-', 't', 'r', 'a', 's', 'h'],
            Phrase::MoveToTitle => seq!['m', 'o', 'v', 'e', '-', 't', 'o', '-', 't', 'i', 't', 'l', 'e'],
            Phrase::MoveToButtonLabel => seq!['m', 'o', 'v', 'e', '-', 't', 'o', '-', 'b', 'u', 't', 't', 'o', 'n', '-', 'l', 'a', 'b', 'e', 'l'],
        }
    }

    /// The identifier of the localized message that renders the phrase.
    pub fn message_id(&self) -> (r: &'static str)
        ensures
            r@ == self.spec_message_id(),
    {
        match self {
            Phrase::Open => {
                proof {
                    reveal_strlit("open");
                }
                "open"
            },
            Phrase::Duplicate => {
                proof {
                    reveal_strlit("duplicate");
                }
                "duplicate"
            },
            Phrase::MoveTo => {
                proof {
                    reveal_strlit("move-to");
                }
                "move-to"
            },
            Phrase::RestoreFromTrash => {
                proof {
                    reveal_strlit("restore-from-trash");
                }
                "restore-from-trash"
            },
            Phrase::SelectAll => {
                proof {
                    reveal_strlit("select-all");
                }
                "select-all"
            },
            Phrase::DeselectAll => {
                proof {
                    reveal_strlit("deselect-all");
                }
                "deselect-all"
            },
            Phrase::Calculating => {
                proof {
                    reveal_strlit("calculating");
                }
                "calculating"
            },
            Phrase::FileCount(_) => {
                proof {
                    reveal_strlit("file-count");
                }
                "file-count"
            },
            Phrase::FolderCount(_) => {
                proof {
                    reveal_strlit("folder-count");
                }
                "folder-count"
            },
            Phrase::ContainsItemCount(_) => {
                proof {
                    reveal_strlit("contains-item-count");
                }
                "contains-item-count"
            },
            Phrase::Items(_) => {
                proof {
                    reveal_strlit("items");
                }
                "items"
            },
            Phrase::SelectionFooterSummary { .. } => {
                proof {
                    reveal_strlit("selection-footer-summary");
                }
                "selection-footer-summary"
            },
            Phrase::ItemSize { .. } => {
                proof {
                    reveal_strlit("item-size");
                }
                "item-size"
            },
            Phrase::Type { .. } => {
                proof {
                    reveal_strlit("type");
                }
                "type"
            },
            Phrase::OpenWith => {
                proof {
                    reveal_strlit("open-with");
                }
                "open-with"
            },
            Phrase::Owner => {
                proof {
                    reveal_strlit("owner");
                }
                "owner"
            },
            Phrase::Group => {
                proof {
                    reveal_strlit("group");
                }
                "group"
            },
            Phrase::Other => {
                proof {
                    reveal_strlit("other");
                }
                "other"
            },
            Phrase::Mixed => {
                proof {
                    reveal_strlit("mixed");
                }
                "mixed"
            },
            Phrase::EmptyTrash => {
                proof {
                    reveal_strlit("empty-trash");
                }
                "empty-trash"
            },
            Phrase::MoveToTitle => {
                proof {
                    reveal_strlit("move-to-title");
                }
                "move-to-title"
            },
            Phrase::MoveToButtonLabel => {
                proof {
                    reveal_strlit("move-to-button-label");
                }
                "move-to-button-label"
            },
        }
    }

    /// The arguments of the phrase's message, by name and value.
    pub open spec fn describes_args(&self, args: Seq<PhraseArg>) -> bool {
        match self {
            Phrase::FileCount(n) => args.len() == 1 && args[0].name@ == seq!['c', 'o', 'u', 'n', 't']
                && args[0].value == ArgValue::Number(*n as u64),
            Phrase::FolderCount(n) => args.len() == 1 && args[0].name@ == seq!['c', 'o', 'u', 'n', 't']
                && args[0].value == ArgValue::Number(*n as u64),
            Phrase::ContainsItemCount(n) => args.len() == 1 && args[0].name@ == seq![
                'c',
                'o',
                'u',
                'n',
                't',
            ] && args[0].value == ArgValue::Number(*n),
            Phrase::Items(n) => args.len() == 1 && args[0].name@ == seq!['i', 't', 'e', 'm', 's']
                && args[0].value == ArgValue::Number(*n as u64),
            Phrase::SelectionFooterSummary { selection, size } => args.len() == 2 && args[0].name@
                == seq!['s', 'e', 'l', 'e', 'c', 't', 'i', 'o', 'n'] && (args[0].value matches ArgValue::Text(t)
                && t@ == selection@) && args[1].name@ == seq!['s', 'i', 'z', 'e'] && (
            args[1].value matches ArgValue::Text(t) && t@ == size@),
            Phrase::ItemSize { size } => args.len() == 1 && args[0].name@ == seq!['s', 'i', 'z', 'e']
                && (args[0].value matches ArgValue::Text(t) && t@ == size@),
            Phrase::Type { mime } => args.len() == 1 && args[0].name@ == seq!['m', 'i', 'm', 'e'] && (
            args[0].value matches ArgValue::Text(t) && t@ == mime@),
            _ => args.len() == 0,
        }
    }

    /// The arguments that the phrase's message is rendered with.
    pub fn args(&self) -> (r: Vec<PhraseArg>)
        ensures
            self.describes_args(r@),
    {
        let mut v: Vec<PhraseArg> = Vec::new();
        match self {
            Phrase::FileCount(n) => v.push(count_arg(*n as u64)),
            Phrase::FolderCount(n) => v.push(count_arg(*n as u64)),
            Phrase::ContainsItemCount(n) => v.push(count_arg(*n)),
            Phrase::Items(n) => v.push(items_arg(*n as u64)),
            Phrase::SelectionFooterSummary { selection, size } => {
                v.push(selection_arg(selection));
                v.push(size_arg(size));
            },
            Phrase::ItemSize { size } => v.push(size_arg(size)),
            Phrase::Type { mime } => v.push(mime_arg(mime)),
            _ => {},
        }
        v
    }
}

fn count_arg(n: u64) -> (r: PhraseArg)
    ensures
        r.name@ == seq!['c', 'o', 'u', 'n', 't'],
        r.value == ArgValue::Number(n),
{
    proof {
        reveal_strlit("count");
    }
    PhraseArg { name: "count", value: ArgValue::Number(n) }
}

fn items_arg(n: u64) -> (r: PhraseArg)
    ensures
        r.name@ == seq!['i', 't', 'e', 'm', 's'],
        r.value == ArgValue::Number(n),
{
    proof {
        reveal_strlit("items");
    }
    PhraseArg { name: "items", value: ArgValue::Number(n) }
}

fn selection_arg(selection: &String) -> (r: PhraseArg)
    ensures
        r.name@ == seq!['s', 'e', 'l', 'e', 'c', 't', 'i', 'o', 'n'],
        r.value matches ArgValue::Text(t) && t@ == selection@,
{
    proof {
        reveal_strlit("selection");
    }
    PhraseArg { name: "selection", value: ArgValue::Text(selection.clone()) }
}

fn mime_arg(mime: &String) -> (r: PhraseArg)
    ensures
        r.name@ == seq!['m', 'i', 'm', 'e'],
        r.value matches ArgValue::Text(t) && t@ == mime@,
{
    proof {
        reveal_strlit("mime");
    }
    PhraseArg { name: "mime", value: ArgValue::Text(mime.clone()) }
}

fn size_arg(size: &String) -> (r: PhraseArg)
    ensures
        r.name@ == seq!['s', 'i', 'z', 'e'],
        r.value matches ArgValue::Text(t) && t@ == size@,
{
    proof {
        reveal_strlit("size");
    }
    PhraseArg { name: "size", value: ArgValue::Text(size.clone()) }
}

/// The value of an argument of a message.
#[derive(Debug)]
pub enum ArgValue {
    Number(u64),
    Text(String),
}

/// A named argument of a message.
#[derive(Debug)]
pub struct PhraseArg {
    pub name: &'static str,
    pub value: ArgValue,
}

impl SelectionMenuAction {
    pub open spec fn spec_app_action(self) -> Action {
        match self {
            SelectionMenuAction::Open => Action::Open,
            SelectionMenuAction::Duplicate => Action::Duplicate,
            SelectionMenuAction::MoveTo => Action::MoveTo,
            SelectionMenuAction::RestoreFromTrash => Action::RestoreFromTrash,
        }
    }

    /// The application action that the menu entry triggers.
    pub fn app_action(self) -> (r: Action)
        ensures
            r == self.spec_app_action(),
    {
        match self {
            SelectionMenuAction::Open => Action::Open,
            SelectionMenuAction::Duplicate => Action::Duplicate,
            SelectionMenuAction::MoveTo => Action::MoveTo,
            SelectionMenuAction::RestoreFromTrash => Action::RestoreFromTrash,
        }
    }

    pub open spec fn spec_label(self) -> Phrase {
        match self {
            SelectionMenuAction::Open => Phrase::Open,
            SelectionMenuAction::Duplicate => Phrase::Duplicate,
            SelectionMenuAction::MoveTo => Phrase::MoveTo,
            SelectionMenuAction::RestoreFromTrash => Phrase::RestoreFromTrash,
        }
    }

    /// The text that labels the menu entry.
    pub fn label(self) -> (r: Phrase)
        ensures
            r == self.spec_label(),
    {
        match self {
            SelectionMenuAction::Open => Phrase::Open,
            SelectionMenuAction::Duplicate => Phrase::Duplicate,
            SelectionMenuAction::MoveTo => Phrase::MoveTo,
            SelectionMenuAction::RestoreFromTrash => Phrase::RestoreFromTrash,
        }
    }
}

/// The rendered texts that a selection's summary is composed of: `files`,
/// `folders` and `contains` render `files_label`, `folders_label` and
/// `contains_label`, `calculating` renders `Phrase::Calculating`, and
/// `formatted_size` is the total size written out.
pub struct SelectionTexts {
    pub files: String,
    pub folders: String,
    pub contains: String,
    pub calculating: String,
    pub formatted_size: String,
}

/// What a selection holds.
#[derive(Debug)]
pub struct SelectionStats {
    pub selected_items: usize,
    pub selected_files: usize,
    pub selected_folders: usize,
    pub contained_items: u64,
    pub contains_items_known: bool,
    pub total_size: u64,
    pub calculating_dir_size: bool,
    pub unknown_size: bool,
    pub dir_size_error: Option<String>,
}

pub open spec fn opt_view(o: Option<String>) -> Option<Seq<char>> {
    match o {
        Some(s) => Some(s@),
        None => None,
    }
}

impl SelectionStats {
    pub open spec fn is_empty_stats(self) -> bool {
        &&& self.selected_items == 0
        &&& self.selected_files == 0
        &&& self.selected_folders == 0
        &&& self.contained_items == 0
        &&& !self.contains_items_known
        &&& self.total_size == 0
        &&& !self.calculating_dir_size
        &&& !self.unknown_size
        &&& self.dir_size_error is None
    }

    /// Whether anything is selected.
    pub fn has_selection(&self) -> (r: bool)
        ensures
            r == (self.selected_items > 0),
    {
        self.selected_items > 0
    }

    pub open spec fn spec_can_open(self) -> bool {
        (self.selected_items > 0 && self.selected_folders == 0) || (self.selected_folders == 1
            && self.selected_items == 1)
    }

    /// Whether the selection can be opened: files only, or a single folder.
    pub fn can_open(&self) -> (r: bool)
        ensures
            r == self.spec_can_open(),
    {
        (self.selected_items > 0 && self.selected_folders == 0) || (self.selected_folders == 1
            && self.selected_items == 1)
    }

    /// The count of selected files.
    pub fn files_label(&self) -> (r: Phrase)
        ensures
            r == Phrase::FileCount(self.selected_files),
    {
        Phrase::FileCount(self.selected_files)
    }

    /// The count of selected folders.
    pub fn folders_label(&self) -> (r: Phrase)
        ensures
            r == Phrase::FolderCount(self.selected_folders),
    {
        Phrase::FolderCount(self.selected_folders)
    }

    pub open spec fn shows_contents(self) -> bool {
        self.selected_folders != 0 && self.contains_items_known
    }

    /// The count of the items that the selected folders contain, where it is known.
    pub fn contains_label(&self) -> (r: Option<Phrase>)
        ensures
            r == (if self.shows_contents() {
                Some(Phrase::ContainsItemCount(self.contained_items))
            } else {
                None
            }),
    {
        if self.selected_folders == 0 || !self.contains_items_known {
            return None;
        }
        Some(Phrase::ContainsItemCount(self.contained_items))
    }

    pub open spec fn breakdown_parts(self, files: Seq<char>, folders: Seq<char>) -> Seq<Seq<char>> {
        (if self.selected_files > 0 { seq![files] } else { Seq::empty() }) + (if self.selected_folders
            > 0 {
            seq![folders]
        } else {
            Seq::empty()
        })
    }

    pub open spec fn spec_breakdown_text(self, t: SelectionTexts) -> Seq<char> {
        join(self.breakdown_parts(t.files@, t.folders@), comma_sep()) + if self.shows_contents() {
            seq![' ', '('] + t.contains@ + seq![')']
        } else {
            Seq::empty()
        }
    }

    /// The counts of files and folders, joined by a comma, followed by the
    /// number of contained items in parentheses where it is known.
    pub fn breakdown_text(&self, texts: &SelectionTexts) -> (r: String)
        ensures
            r@ == self.spec_breakdown_text(*texts),
    {
        let mut parts: Vec<String> = Vec::new();
        if self.selected_files > 0 {
            parts.push(texts.files.clone());
        }
        if self.selected_folders > 0 {
            parts.push(texts.folders.clone());
        }
        assert(views(parts@) =~= self.breakdown_parts(texts.files@, texts.folders@));
        let mut text = join_strings(&parts, comma());
        if self.contains_label().is_some() {
            proof {
                reveal_strlit(" (");
                reveal_strlit(")");
            }
            text.append(" (");
            text.append(texts.contains.as_str());
            text.append(")");
        }
        text
    }

    pub open spec fn spec_size_text(self, t: SelectionTexts) -> Seq<char> {
        if self.calculating_dir_size || self.unknown_size {
            t.calculating@
        } else if self.dir_size_error is Some {
            self.dir_size_error.unwrap()@
        } else {
            t.formatted_size@
        }
    }

    /// The total size; while it is being computed or is unknown, the
    /// calculating text; after a failure, the first error.
    pub fn size_text(&self, texts: &SelectionTexts) -> (r: String)
        ensures
            r@ == self.spec_size_text(*texts),
    {
        if self.calculating_dir_size || self.unknown_size {
            texts.calculating.clone()
        } else if let Some(error) = &self.dir_size_error {
            error.clone()
        } else {
            texts.formatted_size.clone()
        }
    }

    /// The summary of the selection in the footer: its breakdown and its size.
    pub fn footer_summary(&self, texts: &SelectionTexts) -> (r: Phrase)
        ensures
            r matches Phrase::SelectionFooterSummary { selection, size } && selection@
                == self.spec_breakdown_text(*texts) && size@ == self.spec_size_text(*texts),
    {
        Phrase::SelectionFooterSummary {
            selection: self.breakdown_text(texts),
            size: self.size_text(texts),
        }
    }
}

impl Default for SelectionStats {
    fn default() -> (r: Self)
        ensures
            r.is_empty_stats(),
    {
        SelectionStats {
            selected_items: 0,
            selected_files: 0,
            selected_folders: 0,
            contained_items: 0,
            contains_items_known: false,
            total_size: 0,
            calculating_dir_size: false,
            unknown_size: false,
            dir_size_error: None,
        }
    }
}

pub open spec fn spec_selection_menu_actions(
    can_open: bool,
    in_trash: bool,
    include_move_to: bool,
) -> Seq<SelectionMenuAction> {
    let move_to = if include_move_to {
        seq![SelectionMenuAction::MoveTo]
    } else {
        Seq::empty()
    };
    if in_trash {
        seq![SelectionMenuAction::RestoreFromTrash] + move_to
    } else {
        (if can_open {
            seq![SelectionMenuAction::Open]
        } else {
            Seq::empty()
        }) + seq![SelectionMenuAction::Duplicate] + move_to
    }
}

/// The entries of a selection's menu: in the trash, restoring and perhaps
/// moving; elsewhere opening where the selection can be opened, duplicating
/// and perhaps moving.
pub fn selection_menu_actions(
    stats: &SelectionStats,
    in_trash: bool,
    include_move_to: bool,
) -> (r: Vec<SelectionMenuAction>)
    ensures
        r@ == spec_selection_menu_actions(stats.spec_can_open(), in_trash, include_move_to),
{
    let mut actions = Vec::new();
    if in_trash {
        actions.push(SelectionMenuAction::RestoreFromTrash);
        if include_move_to {
            actions.push(SelectionMenuAction::MoveTo);
        }
    } else {
        if stats.can_open() {
            actions.push(SelectionMenuAction::Open);
        }
        actions.push(SelectionMenuAction::Duplicate);
        if include_move_to {
            actions.push(SelectionMenuAction::MoveTo);
        }
    }
    assert(actions@ =~= spec_selection_menu_actions(stats.spec_can_open(), in_trash, include_move_to));
    actions
}

} // verus!
