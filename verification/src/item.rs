//! The items of a tab, as plain values.

use vstd::prelude::*;

verus! {

/// How large a trashed item is: bytes for a file, entries for a directory.
#[derive(Clone, Copy, Debug, PartialEq, Eq, Structural)]
pub enum TrashSize {
    Bytes(u64),
    Entries(usize),
}

/// An entry of the trash: the identifier of its info file, its name, the
/// folder it was deleted from and when, and the number by which the
/// application finds the entry again.
#[derive(Debug)]
pub struct TrashEntry {
    pub handle: u64,
    pub id: String,
    pub name: String,
    pub original_parent: String,
    pub time_deleted: i64,
}

/// A trash entry as a value.
pub struct TrashEntryView {
    pub handle: u64,
    pub id: Seq<char>,
    pub name: Seq<char>,
    pub original_parent: Seq<char>,
    pub time_deleted: i64,
}

impl View for TrashEntry {
    type V = TrashEntryView;

    open spec fn view(&self) -> TrashEntryView {
        TrashEntryView {
            handle: self.handle,
            id: self.id@,
            name: self.name@,
            original_parent: self.original_parent@,
            time_deleted: self.time_deleted,
        }
    }
}

impl Clone for TrashEntry {
    fn clone(&self) -> (r: Self)
        ensures
            r@ == self@,
    {
        TrashEntry {
            handle: self.handle,
            id: self.id.clone(),
            name: self.name.clone(),
            original_parent: self.original_parent.clone(),
            time_deleted: self.time_deleted,
        }
    }
}

/// What is known of an item on disk.
#[allow(inconsistent_fields)]
#[derive(Debug)]
pub enum ItemMetadata {
    /// An item of a local path, with what its file metadata says.
    Path { is_dir: bool, len: u64, mode: u32, uid: u32, gid: u32, children_opt: Option<usize> },
    /// An item in the trash.
    Trash { size: TrashSize, entry: TrashEntry },
    /// A directory known only by its number of entries.
    SimpleDir { entries: u64 },
    /// A file known only by its size.
    SimpleFile { size: u64 },
}

/// The state of the recursive size computation of an item.
#[derive(Debug)]
pub enum DirSize {
    Calculating,
    Directory(u64),
    NotDirectory,
    Error(String),
}

/// One entry of a tab.
#[derive(Debug)]
pub struct Item {
    pub selected: bool,
    pub hidden: bool,
    pub metadata: ItemMetadata,
    pub dir_size: DirSize,
    /// The item's mime type, written out.
    pub mime: String,
    /// The path of the item's location, where it has one.
    pub path: Option<String>,
}

impl ItemMetadata {
    pub open spec fn spec_is_dir(&self) -> bool {
        match self {
            ItemMetadata::Path { is_dir, .. } => *is_dir,
            ItemMetadata::Trash { size, .. } => size is Entries,
            ItemMetadata::SimpleDir { .. } => true,
            ItemMetadata::SimpleFile { .. } => false,
        }
    }

    /// Whether the item is a directory.
    #[verifier::when_used_as_spec(spec_is_dir)]
    pub fn is_dir(&self) -> (r: bool)
        ensures
            r == self.spec_is_dir(),
    {
        match self {
            ItemMetadata::Path { is_dir, .. } => *is_dir,
            ItemMetadata::Trash { size, .. } => match size {
                TrashSize::Entries(_) => true,
                TrashSize::Bytes(_) => false,
            },
            ItemMetadata::SimpleDir { .. } => true,
            ItemMetadata::SimpleFile { .. } => false,
        }
    }

    pub open spec fn spec_file_size(&self) -> Option<u64> {
        match self {
            ItemMetadata::Path { len, .. } => Some(*len),
            ItemMetadata::Trash { size, .. } => match size {
                TrashSize::Bytes(b) => Some(*b),
                TrashSize::Entries(_) => None,
            },
            ItemMetadata::SimpleDir { .. } => None,
            ItemMetadata::SimpleFile { size } => Some(*size),
        }
    }

    /// The size in bytes of a file, where it is known.
    #[verifier::when_used_as_spec(spec_file_size)]
    pub fn file_size(&self) -> (r: Option<u64>)
        ensures
            r == self.spec_file_size(),
    {
        match self {
            ItemMetadata::Path { len, .. } => Some(*len),
            ItemMetadata::Trash { size, .. } => match size {
                TrashSize::Bytes(b) => Some(*b),
                TrashSize::Entries(_) => None,
            },
            ItemMetadata::SimpleDir { .. } => None,
            ItemMetadata::SimpleFile { size } => Some(*size),
        }
    }
}

} // verus!

verus! {

/// The contributions of one item to the statistics of a selection.
impl Item {
    pub open spec fn is_selected_folder(self) -> bool {
        self.selected && self.metadata.spec_is_dir()
    }

    pub open spec fn is_selected_file(self) -> bool {
        self.selected && !self.metadata.spec_is_dir()
    }

    /// The number of entries that a selected folder is known to contain.
    pub open spec fn known_entries(self) -> nat {
        if self.is_selected_folder() {
            match self.metadata {
                ItemMetadata::Path { children_opt, .. } => match children_opt {
                    Some(c) => c as nat,
                    None => 0,
                },
                ItemMetadata::Trash { size, .. } => match size {
                    TrashSize::Entries(e) => e as nat,
                    TrashSize::Bytes(_) => 0,
                },
                ItemMetadata::SimpleDir { entries } => entries as nat,
                ItemMetadata::SimpleFile { .. } => 0,
            }
        } else {
            0
        }
    }

    /// A selected folder whose number of entries is not known.
    pub open spec fn has_unknown_entries(self) -> bool {
        self.is_selected_folder() && match self.metadata {
            ItemMetadata::Path { children_opt, .. } => children_opt is None,
            ItemMetadata::Trash { size, .. } => size is Bytes,
            _ => false,
        }
    }

    /// The bytes that a selected item adds to the total size.
    pub open spec fn known_size(self) -> nat {
        if self.is_selected_folder() {
            match self.dir_size {
                DirSize::Directory(s) => s as nat,
                _ => 0,
            }
        } else if self.is_selected_file() {
            match self.metadata.spec_file_size() {
                Some(s) => s as nat,
                None => 0,
            }
        } else {
            0
        }
    }

    pub open spec fn is_calculating(self) -> bool {
        self.is_selected_folder() && self.dir_size is Calculating
    }

    /// A selected item whose size is unknown.
    pub open spec fn has_unknown_size(self) -> bool {
        (self.is_selected_folder() && self.dir_size is NotDirectory) || (self.is_selected_file()
            && self.metadata.spec_file_size() is None)
    }

    /// The error with which computing a selected folder's size failed.
    pub open spec fn size_error(self) -> Option<Seq<char>> {
        if self.is_selected_folder() {
            match self.dir_size {
                DirSize::Error(e) => Some(e@),
                _ => None,
            }
        } else {
            None
        }
    }
}

/// The sum of `f` over `items`.
pub open spec fn total(items: Seq<Item>, f: spec_fn(Item) -> nat) -> nat
    decreases items.len(),
{
    if items.len() == 0 {
        0
    } else {
        total(items.drop_last(), f) + f(items.last())
    }
}

/// The number of `items` that satisfy `p`.
pub open spec fn count(items: Seq<Item>, p: spec_fn(Item) -> bool) -> nat {
    total(items, |it: Item| if p(it) { 1nat } else { 0nat })
}

/// Whether some of `items` satisfies `p`.
pub open spec fn any(items: Seq<Item>, p: spec_fn(Item) -> bool) -> bool {
    exists|i: int| 0 <= i < items.len() && p(#[trigger] items[i])
}

/// The first size error among `items`.
pub open spec fn first_size_error(items: Seq<Item>) -> Option<Seq<char>>
    decreases items.len(),
{
    if items.len() == 0 {
        None
    } else {
        match first_size_error(items.drop_last()) {
            Some(e) => Some(e),
            None => items.last().size_error(),
        }
    }
}

/// `n`, or the largest `u64` where `n` is larger.
pub open spec fn cap_u64(n: nat) -> u64 {
    if n > u64::MAX {
        u64::MAX
    } else {
        n as u64
    }
}

pub proof fn lemma_count_bounded(items: Seq<Item>, p: spec_fn(Item) -> bool)
    ensures
        count(items, p) <= items.len(),
    decreases items.len(),
{
    if items.len() > 0 {
        lemma_count_bounded(items.drop_last(), p);
    }
}

pub proof fn lemma_count_split(items: Seq<Item>, p: spec_fn(Item) -> bool, q: spec_fn(Item) -> bool, r: spec_fn(Item) -> bool)
    requires
        forall|it: Item| #[trigger] p(it) <==> (q(it) || r(it)),
        forall|it: Item| !(#[trigger] q(it) && #[trigger] r(it)),
    ensures
        count(items, p) == count(items, q) + count(items, r),
    decreases items.len(),
{
    if items.len() > 0 {
        lemma_count_split(items.drop_last(), p, q, r);
        let it = items.last();
        assert(p(it) <==> (q(it) || r(it)));
        assert(!(q(it) && r(it)));
    }
}

/// Some item satisfies `p` exactly when the count of those that do is positive.
pub proof fn lemma_count_positive(items: Seq<Item>, p: spec_fn(Item) -> bool)
    ensures
        (count(items, p) > 0) == any(items, p),
    decreases items.len(),
{
    if items.len() > 0 {
        let rest = items.drop_last();
        lemma_count_positive(rest, p);
        if any(rest, p) {
            let j = choose|j: int| 0 <= j < rest.len() && p(#[trigger] rest[j]);
            assert(items[j] == rest[j]);
        }
        if any(items, p) {
            let j = choose|j: int| 0 <= j < items.len() && p(#[trigger] items[j]);
            if j < rest.len() {
                assert(rest[j] == items[j]);
            }
        }
    }
}

/// The items that satisfy `q` among those that satisfy `p` are as many as
/// those that satisfy `p` exactly when all of these satisfy `q`.
pub proof fn lemma_count_all(items: Seq<Item>, p: spec_fn(Item) -> bool, pq: spec_fn(Item) -> bool, q: spec_fn(Item) -> bool)
    requires
        forall|it: Item| #[trigger] pq(it) <==> (p(it) && q(it)),
    ensures
        (count(items, pq) == count(items, p)) == (forall|i: int|
            0 <= i < items.len() && p(#[trigger] items[i]) ==> q(items[i])),
        count(items, pq) <= count(items, p),
    decreases items.len(),
{
    if items.len() > 0 {
        let rest = items.drop_last();
        lemma_count_all(rest, p, pq, q);
        let last = items.last();
        assert(pq(last) <==> (p(last) && q(last)));
        if forall|i: int| 0 <= i < items.len() && p(#[trigger] items[i]) ==> q(items[i]) {
            assert forall|i: int| 0 <= i < rest.len() && p(#[trigger] rest[i]) implies q(rest[i]) by {
                assert(rest[i] == items[i]);
            }
            assert(p(items[items.len() - 1]) ==> q(items[items.len() - 1]));
        }
        if count(items, pq) == count(items, p) {
            assert forall|i: int| 0 <= i < items.len() && p(#[trigger] items[i]) implies q(items[i]) by {
                if i < rest.len() {
                    assert(rest[i] == items[i]);
                }
            }
        }
    }
}

/// Removing one item takes its share off a sum.
pub proof fn lemma_total_remove(items: Seq<Item>, j: int, f: spec_fn(Item) -> nat)
    requires
        0 <= j < items.len(),
    ensures
        total(items, f) == total(items.remove(j), f) + f(items[j]),
    decreases items.len(),
{
    if j == items.len() - 1 {
        assert(items.remove(j) =~= items.drop_last());
    } else {
        let r = items.remove(j);
        assert(r.drop_last() =~= items.drop_last().remove(j));
        assert(r.last() == items.last());
        lemma_total_remove(items.drop_last(), j, f);
    }
}

/// A sum does not depend on the order of the items.
pub proof fn lemma_total_permutation(xs: Seq<Item>, ys: Seq<Item>, f: spec_fn(Item) -> nat)
    requires
        xs.to_multiset() == ys.to_multiset(),
    ensures
        total(xs, f) == total(ys, f),
    decreases xs.len(),
{
    broadcast use vstd::seq_lib::group_to_multiset_ensures, vstd::multiset::group_multiset_axioms;

    if xs.len() == 0 {
        assert(ys.to_multiset().len() == 0);
        assert(ys.len() == 0);
    } else {
        let x = xs.last();
        let rest = xs.drop_last();
        assert(rest.push(x) =~= xs);
        assert(xs.to_multiset() =~= rest.to_multiset().insert(x));
        assert(ys.to_multiset().count(x) > 0);
        assert(ys.contains(x));
        let j = choose|j: int| 0 <= j < ys.len() && ys[j] == x;
        assert(ys.remove(j).to_multiset() == ys.to_multiset().remove(x));
        assert(rest.to_multiset() =~= ys.remove(j).to_multiset());
        lemma_total_permutation(rest, ys.remove(j), f);
        lemma_total_remove(ys, j, f);
    }
}

pub proof fn lemma_total_push(items: Seq<Item>, x: Item, f: spec_fn(Item) -> nat)
    ensures
        total(items.push(x), f) == total(items, f) + f(x),
{
    assert(items.push(x).drop_last() =~= items);
}

/// A sum to which unselected items add nothing is the sum over the selected items.
pub proof fn lemma_total_selected(items: Seq<Item>, f: spec_fn(Item) -> nat)
    requires
        forall|it: Item| !it.selected ==> #[trigger] f(it) == 0,
    ensures
        total(items, f) == total(items.filter(|it: Item| it.selected), f),
    decreases items.len(),
{
    reveal(Seq::filter);
    if items.len() > 0 {
        lemma_total_selected(items.drop_last(), f);
        let sub = items.drop_last().filter(|it: Item| it.selected);
        if items.last().selected {
            lemma_total_push(sub, items.last(), f);
        } else {
            assert(f(items.last()) == 0);
        }
    }
}

/// The first size error is the first among the selected items.
pub proof fn lemma_first_size_error_selected(items: Seq<Item>)
    ensures
        first_size_error(items) == first_size_error(items.filter(|it: Item| it.selected)),
    decreases items.len(),
{
    reveal(Seq::filter);
    if items.len() > 0 {
        lemma_first_size_error_selected(items.drop_last());
        let sub = items.drop_last().filter(|it: Item| it.selected);
        if items.last().selected {
            assert(sub.push(items.last()).drop_last() =~= sub);
        }
    }
}

} // verus!
