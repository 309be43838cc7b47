//! The preview of a selection of several items: the tally of their types and
//! the summary of their owners and permissions.

use vstd::prelude::*;
use vstd::relations::sorted_by;

use crate::footer::{select_button, select_button_for, TextButton};
use crate::item::{Item, ItemMetadata};
use crate::selection::{
    selection_menu_actions, spec_selection_menu_actions, Action, Phrase, SelectionMenuAction,
    SelectionStats, SelectionTexts,
};
use crate::tab::Tab;
use crate::laws::law_permission_sources_are_selected_items_at_paths;

use crate::text::{
    comma, comma_sep, decimal, insert_sorted, join, join_strings, lemma_sorted_insert,
    lemma_sorted_set_of, lemma_take_to_set,
    lemma_str_lt_strict_total, push_decimal, sorted_set, str_less, str_lt, str_order,
    strict_total, views,
};

verus! {

/// How many of the selected items have a type.
#[derive(Debug)]
pub struct MimeCount {
    pub mime: String,
    pub count: u64,
}

/// A type and its count, as values.
pub open spec fn tally_views(v: Seq<MimeCount>) -> Seq<(Seq<char>, u64)> {
    v.map_values(|m: MimeCount| (m.mime@, m.count))
}

/// How often `m` occurs in `s`.
pub open spec fn occurrences(s: Seq<Seq<char>>, m: Seq<char>) -> nat
    decreases s.len(),
{
    if s.len() == 0 {
        0
    } else {
        occurrences(s.drop_last(), m) + if s.last() == m {
            1nat
        } else {
            0nat
        }
    }
}

/// Each type that occurs in `mimes`, with how often it occurs.
pub open spec fn mime_tally(mimes: Seq<Seq<char>>) -> Set<(Seq<char>, u64)> {
    Set::new(|p: (Seq<char>, u64)| mimes.contains(p.0) && p.1 == occurrences(mimes, p.0))
}

/// The order of a tally: more frequent types first, types equally frequent
/// in the order of their names.
pub open spec fn rank_lt(a: (Seq<char>, u64), b: (Seq<char>, u64)) -> bool {
    a.1 > b.1 || (a.1 == b.1 && str_lt(a.0, b.0))
}

pub open spec fn rank_order() -> spec_fn((Seq<char>, u64), (Seq<char>, u64)) -> bool {
    |a: (Seq<char>, u64), b: (Seq<char>, u64)| rank_lt(a, b)
}

proof fn lemma_rank_strict_total()
    ensures
        strict_total(rank_order()),
{
    lemma_str_lt_strict_total();
    let s = |a: Seq<char>, b: Seq<char>| str_lt(a, b);
    let r = rank_order();
    assert forall|x: (Seq<char>, u64)| !(#[trigger] r(x, x)) by {
        assert(!s(x.0, x.0));
    }
    assert forall|x: (Seq<char>, u64), y: (Seq<char>, u64), z: (Seq<char>, u64)|
        #[trigger] r(x, y) && #[trigger] r(y, z) implies r(x, z) by {
        if x.1 == y.1 && y.1 == z.1 {
            assert(s(x.0, y.0) && s(y.0, z.0));
        }
    }
    assert forall|x: (Seq<char>, u64), y: (Seq<char>, u64)| x != y implies #[trigger] r(x, y)
        || #[trigger] r(y, x) by {
        if x.1 == y.1 {
            assert(x.0 != y.0);
            assert(s(x.0, y.0) || s(y.0, x.0));
        }
    }
}

proof fn lemma_occurrences_step(s: Seq<Seq<char>>, i: int, m: Seq<char>)
    requires
        0 <= i < s.len(),
    ensures
        occurrences(s.take(i + 1), m) == occurrences(s.take(i), m) + if s[i] == m {
            1nat
        } else {
            0nat
        },
{
    assert(s.take(i + 1).drop_last() =~= s.take(i));
}

proof fn lemma_occurrences_bounded(s: Seq<Seq<char>>, m: Seq<char>)
    ensures
        occurrences(s, m) <= s.len(),
        occurrences(s, m) > 0 ==> s.contains(m),
        s.contains(m) ==> occurrences(s, m) > 0,
    decreases s.len(),
{
    if s.len() > 0 {
        let r = s.drop_last();
        lemma_occurrences_bounded(r, m);
        if r.contains(m) {
            let k = choose|k: int| 0 <= k < r.len() && r[k] == m;
            assert(s[k] == m);
        }
        if s.contains(m) {
            let k = choose|k: int| 0 <= k < s.len() && s[k] == m;
            if k < r.len() {
                assert(r[k] == m);
            }
        }
        if s.last() == m {
            assert(s[s.len() - 1] == m);
        }
    }
}

/// Counts how often each type occurs in `mimes`.
fn count_mimes(mimes: &Vec<String>) -> (r: Vec<MimeCount>)
    ensures
        tally_views(r@).to_set() == mime_tally(views(mimes@)),
{
    let ghost ms = views(mimes@);
    let mut counts: Vec<MimeCount> = Vec::new();
    let n = mimes.len();
    let mut i: usize = 0;
    while i < n
        invariant
            n == mimes@.len(),
            ms == views(mimes@),
            i <= n,
            forall|a: int, b: int|
                0 <= a < b < counts@.len() ==> (#[trigger] counts@[a]).mime@ != (
                #[trigger] counts@[b]).mime@,
            forall|a: int|
                0 <= a < counts@.len() ==> (#[trigger] counts@[a]).count as nat == occurrences(
                    ms.take(i as int),
                    counts@[a].mime@,
                ) && counts@[a].count >= 1,
            forall|k: int|
                0 <= k < i ==> exists|a: int|
                    0 <= a < counts@.len() && (#[trigger] counts@[a]).mime@ == #[trigger] ms[k],
        decreases n - i,
    {
        let m = &mimes[i];
        proof {
            assert forall|x: Seq<char>| #[trigger] occurrences(ms.take(i as int + 1), x) == occurrences(ms.take(i as int), x) + if ms[i as int] == x { 1nat } else { 0nat } by {
                lemma_occurrences_step(ms, i as int, x);
            }
            lemma_occurrences_bounded(ms.take(i as int), m@);
        }
        let c = counts.len();
        let mut j: usize = 0;
        while j < c
            invariant
                c == counts@.len(),
                j <= c,
                forall|a: int| 0 <= a < j ==> (#[trigger] counts@[a]).mime@ != m@,
            ensures
                j <= c,
                forall|a: int| 0 <= a < j ==> (#[trigger] counts@[a]).mime@ != m@,
                j < c ==> counts@[j as int].mime@ == m@,
            decreases c - j,
        {
            if counts[j].mime == *m {
                break;
            }
            j = j + 1;
        }
        let ghost old_counts = counts@;
        if j < c {
            proof {
                lemma_occurrences_bounded(ms.take(i as int), m@);
            }
            let mime = counts[j].mime.clone();
            let count = counts[j].count + 1;
            counts.set(j, MimeCount { mime, count });
            proof {
                assert forall|k: int| 0 <= k < i + 1 implies exists|a: int|
                    0 <= a < counts@.len() && (#[trigger] counts@[a]).mime@ == #[trigger] ms[k] by {
                    if k == i {
                        assert(counts@[j as int].mime@ == ms[k]);
                    } else {
                        let a = choose|a: int|
                            0 <= a < old_counts.len() && (#[trigger] old_counts[a]).mime@ == ms[k];
                        assert(counts@[a].mime@ == ms[k]);
                    }
                }
            }
        } else {
            proof {
                assert(!ms.take(i as int).contains(m@)) by {
                    if ms.take(i as int).contains(m@) {
                        let k = choose|k: int| 0 <= k < i && ms.take(i as int)[k] == m@;
                        assert(ms[k] == m@);
                        let a = choose|a: int|
                            0 <= a < old_counts.len() && (#[trigger] old_counts[a]).mime@ == ms[k];
                    }
                }
                lemma_occurrences_bounded(ms.take(i as int), m@);
            }
            counts.push(MimeCount { mime: m.clone(), count: 1 });
            proof {
                assert forall|k: int| 0 <= k < i + 1 implies exists|a: int|
                    0 <= a < counts@.len() && (#[trigger] counts@[a]).mime@ == #[trigger] ms[k] by {
                    if k == i {
                        assert(counts@[c as int].mime@ == ms[k]);
                    } else {
                        let a = choose|a: int|
                            0 <= a < old_counts.len() && (#[trigger] old_counts[a]).mime@ == ms[k];
                        assert(counts@[a].mime@ == ms[k]);
                    }
                }
            }
        }
        i = i + 1;
    }
    proof {
        assert(ms.take(n as int) =~= ms);
        let tv = tally_views(counts@);
        assert forall|p: (Seq<char>, u64)| tv.to_set().contains(p) <==> mime_tally(ms).contains(p) by {
            if tv.to_set().contains(p) {
                let a = choose|a: int| 0 <= a < tv.len() && tv[a] == p;
                assert(counts@[a].mime@ == p.0);
                lemma_occurrences_bounded(ms, p.0);
            }
            if mime_tally(ms).contains(p) {
                let k = choose|k: int| 0 <= k < ms.len() && ms[k] == p.0;
                let a = choose|a: int|
                    0 <= a < counts@.len() && (#[trigger] counts@[a]).mime@ == #[trigger] ms[k];
                assert(tv[a] == p);
            }
        }
        assert(tv.to_set() =~= mime_tally(ms));
    }
    counts
}

fn rank_less(a: &MimeCount, b: &MimeCount) -> (r: bool)
    ensures
        r == rank_lt((a.mime@, a.count), (b.mime@, b.count)),
{
    a.count > b.count || (a.count == b.count && str_less(a.mime.as_str(), b.mime.as_str()))
}

fn insert_ranked(ranked: &mut Vec<MimeCount>, e: MimeCount)
    requires
        sorted_by(tally_views(old(ranked)@), rank_order()),
    ensures
        sorted_by(tally_views(final(ranked)@), rank_order()),
        tally_views(final(ranked)@).to_set() == tally_views(old(ranked)@).to_set().insert(
            (e.mime@, e.count),
        ),
{
    proof {
        lemma_rank_strict_total();
    }
    let ghost lt = rank_order();
    let ghost ev = (e.mime@, e.count);
    let n = ranked.len();
    let mut i: usize = 0;
    while i < n
        invariant
            n == ranked@.len(),
            i <= n,
            ev == (e.mime@, e.count),
            forall|j: int| 0 <= j < i ==> rank_lt(#[trigger] tally_views(ranked@)[j], ev),
        ensures
            i <= n,
            forall|j: int| 0 <= j < i ==> rank_lt(#[trigger] tally_views(ranked@)[j], ev),
            i < n ==> !rank_lt(tally_views(ranked@)[i as int], ev),
        decreases n - i,
    {
        if !rank_less(&ranked[i], &e) {
            break;
        }
        i = i + 1;
    }
    let ghost before = tally_views(ranked@);
    if i < n && ranked[i].count == e.count && ranked[i].mime == e.mime {
        assert(before.to_set().contains(ev)) by {
            assert(before[i as int] == ev);
        }
        assert(before.to_set().insert(ev) =~= before.to_set());
        return;
    }
    proof {
        if i < n {
            assert(before[i as int] != ev);
        }
        lemma_sorted_insert(before, i as int, ev, lt);
    }
    ranked.insert(i, e);
    assert(tally_views(ranked@) =~= before.insert(i as int, ev));
}

/// The types of `mimes`, each with how often it occurs, the most frequent
/// first and those equally frequent in the order of their names.
pub fn mime_type_counts(mimes: &Vec<String>) -> (r: Vec<MimeCount>)
    ensures
        tally_views(r@) == sorted_set(mime_tally(views(mimes@)), rank_order()),
{
    let counts = count_mimes(mimes);
    let mut ranked: Vec<MimeCount> = Vec::new();
    let n = counts.len();
    let mut k: usize = 0;
    assert(tally_views(counts@).take(0).to_set() =~= Set::empty());
    assert(tally_views(ranked@).to_set() =~= Set::empty());
    while k < n
        invariant
            n == counts@.len(),
            k <= n,
            sorted_by(tally_views(ranked@), rank_order()),
            tally_views(ranked@).to_set() == tally_views(counts@).take(k as int).to_set(),
        decreases n - k,
    {
        let e = MimeCount { mime: counts[k].mime.clone(), count: counts[k].count };
        insert_ranked(&mut ranked, e);
        proof {
            lemma_take_to_set(tally_views(counts@), k as int);
        }
        k = k + 1;
    }
    proof {
        assert(tally_views(counts@).take(n as int) =~= tally_views(counts@));
        lemma_rank_strict_total();
        lemma_sorted_set_of(tally_views(ranked@), rank_order());
    }
    ranked
}

/// The text `...` that ends a list that was cut short.
pub open spec fn ellipsis() -> Seq<char> {
    seq!['.', '.', '.']
}

/// The first `limit` entries of `items`, followed by an ellipsis where there are more.
pub open spec fn limited_list(items: Seq<Seq<char>>, limit: nat) -> Seq<Seq<char>> {
    if items.len() > limit {
        items.take(limit as int).push(ellipsis())
    } else {
        items
    }
}

/// A type with its count in parentheses.
pub open spec fn mime_entry_text(p: (Seq<char>, u64)) -> Seq<char> {
    p.0 + seq![' ', '('] + decimal(p.1 as nat) + seq![')']
}

/// The most frequent types with their counts, joined by commas.
pub open spec fn spec_mime_type_list(counts: Seq<(Seq<char>, u64)>) -> Seq<char> {
    join(limited_list(counts.map_values(|p: (Seq<char>, u64)| mime_entry_text(p)), 10), comma_sep())
}

fn ellipsis_string() -> (r: String)
    ensures
        r@ == ellipsis(),
{
    proof {
        reveal_strlit("...");
    }
    String::from_str("...")
}

/// The first ten types of `counts` with their counts, followed by an
/// ellipsis where there are more, joined by commas.
pub fn mime_type_list(counts: &Vec<MimeCount>) -> (r: String)
    ensures
        r@ == spec_mime_type_list(tally_views(counts@)),
{
    let n = counts.len();
    let limit: usize = if n < 10 {
        n
    } else {
        10
    };
    let ghost texts = tally_views(counts@).map_values(|p: (Seq<char>, u64)| mime_entry_text(p));
    let mut parts: Vec<String> = Vec::new();
    let mut i: usize = 0;
    while i < limit
        invariant
            n == counts@.len(),
            limit <= n,
            i <= limit,
            texts == tally_views(counts@).map_values(|p: (Seq<char>, u64)| mime_entry_text(p)),
            views(parts@) == texts.take(i as int),
        decreases limit - i,
    {
        let mut text = counts[i].mime.clone();
        proof {
            reveal_strlit(" (");
            reveal_strlit(")");
        }
        text.append(" (");
        push_decimal(&mut text, counts[i].count);
        text.append(")");
        let ghost old_parts = parts@;
        assert(tally_views(counts@)[i as int] == (counts@[i as int].mime@, counts@[i as int].count));
        assert(text@ =~= mime_entry_text(tally_views(counts@)[i as int]));
        assert(texts[i as int] == text@);
        parts.push(text);
        assert(views(parts@) =~= texts.take(i as int + 1)) by {
            assert(views(parts@) =~= views(old_parts).push(text@));
            assert(texts.take(i as int + 1) =~= texts.take(i as int).push(texts[i as int]));
        }
        i = i + 1;
    }
    if n > limit {
        parts.push(ellipsis_string());
    }
    proof {
        if n > 10 {
            assert(views(parts@) =~= texts.take(10).push(ellipsis()));
        } else {
            assert(views(parts@) =~= texts);
        }
    }
    join_strings(&parts, comma())
}

/// The set of `names`, in increasing order.
pub fn string_set(names: &Vec<String>) -> (r: Vec<String>)
    ensures
        views(r@) == sorted_set(views(names@).to_set(), str_order()),
{
    let mut set: Vec<String> = Vec::new();
    let n = names.len();
    let mut i: usize = 0;
    assert(views(set@).to_set() =~= views(names@).take(0).to_set());
    while i < n
        invariant
            n == names@.len(),
            i <= n,
            sorted_by(views(set@), str_order()),
            views(set@).to_set() == views(names@).take(i as int).to_set(),
        decreases n - i,
    {
        insert_sorted(&mut set, names[i].clone());
        proof {
            lemma_take_to_set(views(names@), i as int);
        }
        i = i + 1;
    }
    proof {
        assert(views(names@).take(n as int) =~= views(names@));
        lemma_str_lt_strict_total();
        lemma_sorted_set_of(views(set@), str_order());
    }
    set
}

/// The first five names of `set`, followed by an ellipsis where there are
/// more, joined by commas.
pub fn join_set(set: &Vec<String>) -> (r: String)
    ensures
        r@ == join(limited_list(views(set@), 5), comma_sep()),
{
    let limit: usize = 5;
    let n = set.len();
    let mut title: Vec<String> = Vec::new();
    let mut i: usize = 0;
    while i < n && i < limit
        invariant
            n == set@.len(),
            i <= n,
            i <= limit,
            limit == 5,
            views(title@) == views(set@).take(i as int),
        decreases n - i,
    {
        let ghost old_title = title@;
        title.push(set[i].clone());
        assert(views(title@) =~= views(set@).take(i as int + 1)) by {
            assert(views(title@) =~= views(old_title).push(set@[i as int]@));
        }
        i = i + 1;
    }
    if n > limit {
        title.push(ellipsis_string());
    }
    proof {
        if n > 5 {
            assert(views(title@) =~= views(set@).take(5).push(ellipsis()));
        } else {
            assert(views(title@) =~= views(set@));
        }
    }
    join_strings(&title, comma())
}

/// The single value of `modes`, where there is one.
pub open spec fn single_value(modes: Seq<u32>) -> Option<usize> {
    if modes.len() > 0 && forall|i: int| 0 <= i < modes.len() ==> #[trigger] modes[i] == modes[0] {
        Some(modes[0] as usize)
    } else {
        None
    }
}

/// The single value of a set of permission bits, where all of `modes` agree.
pub fn selected_mode_part(modes: &Vec<u32>) -> (r: Option<usize>)
    ensures
        r == single_value(modes@),
{
    if modes.len() == 0 {
        return None;
    }
    let first = modes[0];
    let n = modes.len();
    let mut i: usize = 1;
    while i < n
        invariant
            n == modes@.len(),
            1 <= i <= n,
            first == modes@[0],
            forall|j: int| 0 <= j < i ==> #[trigger] modes@[j] == first,
        decreases n - i,
    {
        if modes[i] != first {
            return None;
        }
        i = i + 1;
    }
    Some(first as usize)
}

/// The shift of the owner's permission bits in a mode.
pub const MODE_SHIFT_USER: u32 = 6;

/// The shift of the group's permission bits in a mode.
pub const MODE_SHIFT_GROUP: u32 = 3;

/// The shift of the others' permission bits in a mode.
pub const MODE_SHIFT_OTHER: u32 = 0;

pub open spec fn spec_mode_part(mode: u32, shift: u32) -> u32 {
    (mode >> shift) & 7
}

/// The three permission bits of `mode` at `shift`.
pub fn get_mode_part(mode: u32, shift: u32) -> (r: u32)
    requires
        shift < 32,
    ensures
        r == spec_mode_part(mode, shift),
{
    (mode >> shift) & 7
}

/// The owner, group and mode of a selected item, as the file's metadata has them.
#[derive(Clone, Copy, Debug, PartialEq, Eq, Structural)]
pub struct PermissionSource {
    pub uid: u32,
    pub gid: u32,
    pub mode: u32,
}

/// The names of the owner and group of a selected item.
#[derive(Debug)]
pub struct Ownership {
    pub user_name: String,
    pub group_name: String,
}

/// The owners and groups of a selection, as the titles of their rows show them.
#[derive(Debug)]
pub struct OwnerTitles {
    pub user: String,
    pub group: String,
}

/// What the preview says of the permissions of a selection, a row for each
/// of the owner, the group and the others.
#[derive(Debug, PartialEq, Eq)]
pub struct PermissionSummary {
    pub owner: PermissionRow,
    pub group: PermissionRow,
    pub other: PermissionRow,
}

/// A row of the permissions: its label, the shift of its bits in a mode,
/// the bits all items agree on where they do, and the text shown where they
/// do not.
#[derive(Debug, PartialEq, Eq)]
pub struct PermissionRow {
    pub label: Phrase,
    pub shift: u32,
    pub selected: Option<usize>,
    pub placeholder: Phrase,
}

/// What picking a value in a row of the permissions sends: shift the bits
/// at `shift` of the selected items to `part`.
#[derive(Clone, Copy, Debug, PartialEq, Eq, Structural)]
pub struct ShiftPermissions {
    pub shift: u32,
    pub part: usize,
}

impl PermissionRow {
    /// What picking the value at `index` sends.
    pub fn pick(&self, index: usize) -> (r: ShiftPermissions)
        ensures
            r == (ShiftPermissions { shift: self.shift, part: index }),
    {
        ShiftPermissions { shift: self.shift, part: index }
    }
}

pub open spec fn user_names(owners: Seq<Ownership>) -> Seq<Seq<char>> {
    owners.map_values(|o: Ownership| o.user_name@)
}

pub open spec fn group_names(owners: Seq<Ownership>) -> Seq<Seq<char>> {
    owners.map_values(|o: Ownership| o.group_name@)
}

/// The bits at `shift` of the modes of `sources`.
pub open spec fn mode_parts(sources: Seq<PermissionSource>, shift: u32) -> Seq<u32> {
    sources.map_values(|s: PermissionSource| spec_mode_part(s.mode, shift))
}

/// A set of names as the preview shows it: the first five in order, then an
/// ellipsis where there are more, joined by commas.
pub open spec fn names_title(names: Seq<Seq<char>>) -> Seq<char> {
    join(limited_list(sorted_set(names.to_set(), str_order()), 5), comma_sep())
}

/// The row labelled `label` for the bits at `shift` of the modes of `sources`.
pub open spec fn permission_row_for(
    sources: Seq<PermissionSource>,
    label: Phrase,
    shift: u32,
) -> PermissionRow {
    PermissionRow {
        label,
        shift,
        selected: single_value(mode_parts(sources, shift)),
        placeholder: Phrase::Mixed,
    }
}

/// The rows of the permissions of a selection whose items have `sources`.
pub open spec fn permission_summary_for(sources: Seq<PermissionSource>) -> PermissionSummary {
    PermissionSummary {
        owner: permission_row_for(sources, Phrase::Owner, MODE_SHIFT_USER),
        group: permission_row_for(sources, Phrase::Group, MODE_SHIFT_GROUP),
        other: permission_row_for(sources, Phrase::Other, MODE_SHIFT_OTHER),
    }
}

fn names_of(owners: &Vec<Ownership>, group: bool) -> (r: Vec<String>)
    ensures
        views(r@) == if group {
            group_names(owners@)
        } else {
            user_names(owners@)
        },
{
    let mut r: Vec<String> = Vec::new();
    let n = owners.len();
    let mut i: usize = 0;
    while i < n
        invariant
            n == owners@.len(),
            i <= n,
            views(r@) == if group {
                group_names(owners@)
            } else {
                user_names(owners@)
            }.take(i as int),
        decreases n - i,
    {
        let ghost old_r = r@;
        if group {
            r.push(owners[i].group_name.clone());
        } else {
            r.push(owners[i].user_name.clone());
        }
        assert(views(r@) =~= views(old_r).push(r@[i as int]@));
        assert(views(r@) =~= if group {
            group_names(owners@)
        } else {
            user_names(owners@)
        }.take(i as int + 1));
        i = i + 1;
    }
    assert(views(r@) =~= if group {
        group_names(owners@)
    } else {
        user_names(owners@)
    });
    r
}

fn modes_of(sources: &Vec<PermissionSource>, shift: u32) -> (r: Vec<u32>)
    requires
        shift < 32,
    ensures
        r@ == mode_parts(sources@, shift),
{
    let mut r: Vec<u32> = Vec::new();
    let n = sources.len();
    let mut i: usize = 0;
    while i < n
        invariant
            n == sources@.len(),
            i <= n,
            shift < 32,
            r@ == mode_parts(sources@, shift).take(i as int),
        decreases n - i,
    {
        r.push(get_mode_part(sources[i].mode, shift));
        assert(r@ =~= mode_parts(sources@, shift).take(i as int + 1));
        i = i + 1;
    }
    assert(r@ =~= mode_parts(sources@, shift));
    r
}

/// The titles of the owner and group rows: the names of the owners, and of
/// the groups, as sets.
pub fn owner_titles(owners: &Vec<Ownership>) -> (r: OwnerTitles)
    ensures
        r.user@ == names_title(user_names(owners@)),
        r.group@ == names_title(group_names(owners@)),
{
    let user_set = string_set(&names_of(owners, false));
    let group_set = string_set(&names_of(owners, true));
    OwnerTitles { user: join_set(&user_set), group: join_set(&group_set) }
}

fn permission_row(sources: &Vec<PermissionSource>, label: Phrase, shift: u32) -> (r: PermissionRow)
    requires
        shift < 32,
    ensures
        r == permission_row_for(sources@, label, shift),
{
    PermissionRow {
        label,
        shift,
        selected: selected_mode_part(&modes_of(sources, shift)),
        placeholder: Phrase::Mixed,
    }
}

/// The rows of the permissions of a selection whose items have `sources`:
/// for the owner, the group and the others, the bits that all items agree
/// on, where they do.
pub fn permission_summary(sources: &Vec<PermissionSource>) -> (r: PermissionSummary)
    ensures
        r == permission_summary_for(sources@),
{
    PermissionSummary {
        owner: permission_row(sources, Phrase::Owner, MODE_SHIFT_USER),
        group: permission_row(sources, Phrase::Group, MODE_SHIFT_GROUP),
        other: permission_row(sources, Phrase::Other, MODE_SHIFT_OTHER),
    }
}

/// The permission source of an item: a selected item at a path, with file metadata.
pub open spec fn item_permission_source(it: Item) -> Option<PermissionSource> {
    if it.selected && it.path is Some {
        match it.metadata {
            ItemMetadata::Path { uid, gid, mode, .. } => Some(PermissionSource { uid, gid, mode }),
            _ => None,
        }
    } else {
        None
    }
}

/// The permission sources of `items`, in order.
pub open spec fn permission_sources_of(items: Seq<Item>) -> Seq<PermissionSource>
    decreases items.len(),
{
    if items.len() == 0 {
        Seq::empty()
    } else {
        let rest = permission_sources_of(items.drop_last());
        match item_permission_source(items.last()) {
            Some(p) => rest.push(p),
            None => rest,
        }
    }
}

/// The mime types of the selected items among `items`, in order.
pub open spec fn selected_mimes(items: Seq<Item>) -> Seq<Seq<char>>
    decreases items.len(),
{
    if items.len() == 0 {
        Seq::empty()
    } else {
        let rest = selected_mimes(items.drop_last());
        if items.last().selected {
            rest.push(items.last().mime@)
        } else {
            rest
        }
    }
}

/// A button, or a menu entry, with a text and the action it triggers.
#[derive(Debug)]
pub struct ActionButton {
    pub label: Phrase,
    pub action: Action,
}

/// The menu entry of an action of the selection menu.
pub open spec fn menu_entry_for(a: SelectionMenuAction) -> ActionButton {
    ActionButton { label: a.spec_label(), action: a.spec_app_action() }
}

/// The preview of a selection of several items.
#[derive(Debug)]
pub struct MultiPreview {
    /// What the selection holds.
    pub stats: SelectionStats,
    pub in_trash: bool,
    pub select_button: TextButton,
    /// The button that moves the selection, outside the trash.
    pub move_to_button: Option<ActionButton>,
    /// The action of the delete button.
    pub delete_action: Action,
    /// The entries of the menu of further actions.
    pub overflow: Vec<ActionButton>,
    /// The line with the count of selected items.
    pub items_label: Phrase,
    /// The line with the counts of files and folders.
    pub breakdown: String,
    /// The line with the size.
    pub size_label: Phrase,
    /// The types of the selected items, the most frequent first.
    pub mime_types: Vec<MimeCount>,
    /// The line with the most frequent types and their counts.
    pub type_label: Phrase,
    /// The owners and modes of the selected items at a path, outside the trash.
    pub permission_sources: Option<Vec<PermissionSource>>,
    /// The rows of their permissions, outside the trash.
    pub permissions: Option<PermissionSummary>,
}

impl Tab {
    /// The mime types of the selected items, in order.
    pub fn selected_mime_types(&self) -> (r: Vec<String>)
        ensures
            views(r@) == match self.items {
                Some(items) => selected_mimes(items@),
                None => Seq::empty(),
            },
    {
        let mut r: Vec<String> = Vec::new();
        match &self.items {
            Some(items) => {
                let n = items.len();
                let mut i: usize = 0;
                while i < n
                    invariant
                        n == items@.len(),
                        i <= n,
                        views(r@) == selected_mimes(items@.take(i as int)),
                    decreases n - i,
                {
                    assert(items@.take(i as int + 1).drop_last() =~= items@.take(i as int));
                    let ghost old_r = r@;
                    if items[i].selected {
                        r.push(items[i].mime.clone());
                        assert(views(r@) =~= views(old_r).push(items@[i as int].mime@));
                    }
                    i = i + 1;
                }
                assert(items@.take(n as int) =~= items@);
            },
            None => {
                assert(views(r@) =~= Seq::<Seq<char>>::empty());
            },
        }
        r
    }

    /// The owners and modes of the selected items at a path.
    pub fn permission_sources(&self) -> (r: Vec<PermissionSource>)
        ensures
            r@ == match self.items {
                Some(items) => permission_sources_of(items@),
                None => Seq::empty(),
            },
            r@ == match self.items {
                Some(items) => items@.filter(
                    |it: Item| it.selected && it.path is Some && it.metadata is Path,
                ).map_values(
                    |it: Item|
                        PermissionSource {
                            uid: it.metadata->uid,
                            gid: it.metadata->gid,
                            mode: it.metadata->mode,
                        },
                ),
                None => Seq::empty(),
            },
    {
        proof {
            if self.items is Some {
                law_permission_sources_are_selected_items_at_paths(self.items.unwrap()@);
            }
        }
        let mut r: Vec<PermissionSource> = Vec::new();
        match &self.items {
            Some(items) => {
                let n = items.len();
                let mut i: usize = 0;
                while i < n
                    invariant
                        n == items@.len(),
                        i <= n,
                        r@ == permission_sources_of(items@.take(i as int)),
                    decreases n - i,
                {
                    assert(items@.take(i as int + 1).drop_last() =~= items@.take(i as int));
                    let item = &items[i];
                    if item.selected && item.path.is_some() {
                        match &item.metadata {
                            ItemMetadata::Path { uid, gid, mode, .. } => {
                                r.push(PermissionSource { uid: *uid, gid: *gid, mode: *mode });
                            },
                            _ => {},
                        }
                    }
                    i = i + 1;
                }
                assert(items@.take(n as int) =~= items@);
            },
            None => {
                assert(r@ =~= Seq::<PermissionSource>::empty());
            },
        }
        r
    }

    /// What the preview of the tab's selection shows.
    pub open spec fn describes_multi_preview(self, r: MultiPreview, texts: SelectionTexts) -> bool {
        let all_selected = self.spec_all_selectable_items_selected();
        let mimes = match self.items {
            Some(items) => selected_mimes(items@),
            None => Seq::empty(),
        };
        let actions = spec_selection_menu_actions(r.stats.spec_can_open(), self.is_trash, self.is_trash);
        &&& match self.items {
            Some(items) => r.stats.summarizes(items@),
            None => r.stats.is_empty_stats(),
        }
        &&& r.in_trash == self.is_trash
        &&& r.select_button == select_button_for(all_selected)
        &&& r.move_to_button == if self.is_trash {
            None
        } else {
            Some(ActionButton { label: Phrase::MoveTo, action: Action::MoveTo })
        }
        &&& r.delete_action == Action::Delete
        &&& r.overflow@.len() == actions.len()
        &&& forall|i: int| 0 <= i < actions.len() ==> #[trigger] r.overflow@[i] == menu_entry_for(actions[i])
        &&& r.items_label == Phrase::Items(r.stats.selected_items)
        &&& r.breakdown@ == r.stats.spec_breakdown_text(texts)
        &&& r.size_label matches Phrase::ItemSize { size } && size@ == r.stats.spec_size_text(texts)
        &&& tally_views(r.mime_types@) == sorted_set(mime_tally(mimes), rank_order())
        &&& r.type_label matches Phrase::Type { mime } && mime@ == spec_mime_type_list(
            tally_views(r.mime_types@),
        )
        &&& r.permission_sources is None <==> self.is_trash
        &&& r.permission_sources matches Some(p) ==> p@ == match self.items {
            Some(items) => permission_sources_of(items@),
            None => Seq::empty(),
        }
        &&& r.permissions is None <==> self.is_trash
        &&& r.permissions matches Some(rows) ==> rows == permission_summary_for(
            r.permission_sources.unwrap()@,
        )
    }

    /// The preview of the tab's selection: what it holds, its buttons to
    /// select or deselect all, to delete and, outside the trash, to move, its
    /// menu, its lines of counts, size and types, and, outside the trash,
    /// where its owners and permissions come from and its rows of permissions. `texts` render the pieces
    /// of the count and size lines.
    pub fn multi_preview_view(&self, texts: &SelectionTexts) -> (r: MultiPreview)
        ensures
            self.describes_multi_preview(r, *texts),
    {
        let stats = match self.selection_stats() {
            Some(s) => s,
            None => SelectionStats::default(),
        };
        let in_trash = self.is_trash;
        let all_selected = self.all_selectable_items_selected();
        let actions = selection_menu_actions(&stats, in_trash, in_trash);
        let mut overflow: Vec<ActionButton> = Vec::new();
        let n = actions.len();
        let mut i: usize = 0;
        while i < n
            invariant
                n == actions@.len(),
                i <= n,
                overflow@.len() == i,
                forall|j: int| 0 <= j < i ==> #[trigger] overflow@[j] == menu_entry_for(actions@[j]),
            decreases n - i,
        {
            let a = actions[i];
            overflow.push(ActionButton { label: a.label(), action: a.app_action() });
            i = i + 1;
        }
        let items_label = Phrase::Items(stats.selected_items);
        let breakdown = stats.breakdown_text(texts);
        let size_label = Phrase::ItemSize { size: stats.size_text(texts) };
        let mime_types = mime_type_counts(&self.selected_mime_types());
        let type_label = Phrase::Type { mime: mime_type_list(&mime_types) };
        let (permission_sources, permissions) = if in_trash {
            (None, None)
        } else {
            let sources = self.permission_sources();
            let rows = permission_summary(&sources);
            (Some(sources), Some(rows))
        };
        let move_to_button = if in_trash {
            None
        } else {
            Some(ActionButton { label: Phrase::MoveTo, action: Action::MoveTo })
        };
        MultiPreview {
            stats,
            in_trash,
            select_button: select_button(all_selected),
            move_to_button,
            delete_action: Action::Delete,
            overflow,
            items_label,
            breakdown,
            size_label,
            mime_types,
            type_label,
            permission_sources,
            permissions,
        }
    }
}

#[verifier::external_type_specification]
#[verifier::external_body]
pub struct ExMime(mime_guess::Mime);

#[verifier::external_type_specification]
#[verifier::external_body]
pub struct ExFromStrError(mime_guess::mime::FromStrError);

/// Whether the text `s` parses as a mime type, as `mime::Mime`'s `FromStr`
/// decides it.
pub uninterp spec fn spec_mime_parses(s: Seq<char>) -> bool;

/// The mime type that the text `s` parses to, as `mime::Mime`'s `FromStr`
/// gives it.
pub uninterp spec fn spec_parsed_mime(s: Seq<char>) -> mime_guess::Mime;

/// Calls `<mime::Mime as FromStr>::from_str`: it succeeds exactly where
/// `spec_mime_parses` holds of the text, and then gives `spec_parsed_mime`
/// of the text; nothing is stated of the error.
#[verifier::external_body]
fn parse_mime(s: &str) -> (r: Result<mime_guess::Mime, mime_guess::mime::FromStrError>)
    ensures
        r is Ok == spec_mime_parses(s@),
        r matches Ok(m) ==> m == spec_parsed_mime(s@),
{
    s.parse::<mime_guess::Mime>()
}

/// An application registered for a mime type: its identifier, and whether
/// it is the type's default.
#[derive(Debug)]
pub struct MimeAppChoice {
    pub id: String,
    pub is_default: bool,
}

/// The row that offers applications to open the selection with.
#[derive(Debug)]
pub struct OpenWithRow {
    pub label: Phrase,
    /// The type of the selection.
    pub mime: mime_guess::Mime,
    /// The identifiers of the applications, in the order offered.
    pub app_ids: Vec<String>,
    /// The first default application, where there is one.
    pub selected: Option<usize>,
}

/// `i` is the first position of a default application in `apps`.
pub open spec fn is_first_default(apps: Seq<MimeAppChoice>, i: int) -> bool {
    &&& 0 <= i < apps.len()
    &&& apps[i].is_default
    &&& forall|j: int| 0 <= j < i ==> !(#[trigger] apps[j]).is_default
}

/// The identifiers of `apps`, in order.
pub open spec fn app_ids_of(apps: Seq<MimeAppChoice>) -> Seq<Seq<char>> {
    apps.map_values(|a: MimeAppChoice| a.id@)
}

impl OpenWithRow {
    /// What picking the application at `index` sends: open the type with it.
    pub fn pick(&self, index: usize) -> (r: (&mime_guess::Mime, String))
        requires
            index < self.app_ids@.len(),
        ensures
            *r.0 == self.mime,
            r.1@ == self.app_ids@[index as int]@,
    {
        (&self.mime, self.app_ids[index].clone())
    }
}

impl MultiPreview {
    /// The type whose applications the preview offers to open the selection
    /// with: outside the trash, the selection's only type, where it parses
    /// as a mime type.
    pub fn open_with_mime(&self) -> (r: Option<mime_guess::Mime>)
        ensures
            r is Some <==> !self.in_trash && self.mime_types@.len() == 1 && spec_mime_parses(
                self.mime_types@[0].mime@,
            ),
            r matches Some(m) ==> m == spec_parsed_mime(self.mime_types@[0].mime@),
    {
        if !self.in_trash && self.mime_types.len() == 1 {
            match parse_mime(self.mime_types[0].mime.as_str()) {
                Ok(m) => Some(m),
                Err(_) => None,
            }
        } else {
            None
        }
    }

    /// The row to open the selection with an application: where
    /// `open_with_mime` gives a type and `apps`, the applications registered
    /// for it, are not empty. It offers them in their order, the first
    /// default one chosen.
    pub fn open_with_row(&self, apps: &Vec<MimeAppChoice>) -> (r: Option<OpenWithRow>)
        ensures
            r is Some <==> !self.in_trash && self.mime_types@.len() == 1 && spec_mime_parses(
                self.mime_types@[0].mime@,
            ) && apps@.len() > 0,
            r matches Some(row) ==> {
                &&& row.label == Phrase::OpenWith
                &&& row.mime == spec_parsed_mime(self.mime_types@[0].mime@)
                &&& views(row.app_ids@) == app_ids_of(apps@)
                &&& match row.selected {
                    Some(i) => is_first_default(apps@, i as int),
                    None => forall|j: int| 0 <= j < apps@.len() ==> !(#[trigger] apps@[j]).is_default,
                }
            },
    {
        let mime = match self.open_with_mime() {
            Some(m) => m,
            None => return None,
        };
        let n = apps.len();
        if n == 0 {
            return None;
        }
        let mut app_ids: Vec<String> = Vec::new();
        let mut selected: Option<usize> = None;
        let mut i: usize = 0;
        while i < n
            invariant
                n == apps@.len(),
                i <= n,
                views(app_ids@) == app_ids_of(apps@).take(i as int),
                match selected {
                    Some(k) => is_first_default(apps@, k as int) && k < i,
                    None => forall|j: int| 0 <= j < i ==> !(#[trigger] apps@[j]).is_default,
                },
            decreases n - i,
        {
            let ghost before = app_ids@;
            app_ids.push(apps[i].id.clone());
            assert(views(app_ids@) =~= views(before).push(apps@[i as int].id@));
            assert(app_ids_of(apps@).take(i as int + 1) =~= app_ids_of(apps@).take(i as int).push(
                apps@[i as int].id@,
            ));
            if selected.is_none() && apps[i].is_default {
                selected = Some(i);
            }
            i = i + 1;
        }
        assert(app_ids_of(apps@).take(n as int) =~= app_ids_of(apps@));
        Some(OpenWithRow { label: Phrase::OpenWith, mime, app_ids, selected })
    }
}

} // verus!
