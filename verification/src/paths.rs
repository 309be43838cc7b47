//! Paths: where a trashed folder's contents lie, and the grouping of paths by
//! the folder that holds them.

use vstd::prelude::*;
use vstd::relations::sorted_by;

use crate::footer::{App, Entity};
use crate::item::{Item, ItemMetadata, TrashEntry, TrashSize};
use crate::selection::Phrase;
use crate::tab::Tab;
use crate::text::{byte_lt, lemma_lex_strict_total, lemma_sorted_insert, lex_lt, strict_total};

verus! {

/// A component of a path, as `std::path::Component` tells them apart.
#[derive(Debug)]
pub enum PathComponent {
    Prefix(Vec<u8>),
    RootDir,
    CurDir,
    ParentDir,
    Normal(Vec<u8>),
}

/// A path component as a value: the rank of its kind and its bytes.
pub open spec fn component_view(c: PathComponent) -> (u8, Seq<u8>) {
    match c {
        PathComponent::Prefix(b) => (0u8, b@),
        PathComponent::RootDir => (1u8, Seq::empty()),
        PathComponent::CurDir => (2u8, Seq::empty()),
        PathComponent::ParentDir => (3u8, Seq::empty()),
        PathComponent::Normal(b) => (4u8, b@),
    }
}

pub open spec fn components_view(v: Seq<PathComponent>) -> Seq<(u8, Seq<u8>)> {
    v.map_values(|c: PathComponent| component_view(c))
}

/// The parent of the path `p`, as `std::path::Path::parent` gives it.
pub uninterp spec fn spec_path_parent(p: Seq<char>) -> Option<Seq<char>>;

/// The file stem of the path `p`, as `std::path::Path::file_stem` gives it.
pub uninterp spec fn spec_path_file_stem(p: Seq<char>) -> Option<Seq<char>>;

/// The path `a` joined with `b`, as `std::path::Path::join` gives it.
pub uninterp spec fn spec_path_join(a: Seq<char>, b: Seq<char>) -> Seq<char>;

/// The components of the path `p`, as `std::path::Path::components` gives them.
pub uninterp spec fn spec_path_components(p: Seq<char>) -> Seq<(u8, Seq<u8>)>;

/// Calls `std::path::Path::parent`: its result is named `spec_path_parent`
/// of the path; nothing more of it is stated.
#[verifier::external_body]
fn path_parent(p: &str) -> (r: Option<String>)
    ensures
        match r {
            Some(s) => spec_path_parent(p@) == Some(s@),
            None => spec_path_parent(p@) is None,
        },
{
    match std::path::Path::new(p).parent() {
        Some(q) => Some(q.to_string_lossy().into_owned()),
        None => None,
    }
}

/// Calls `std::path::Path::file_stem`: its result is named
/// `spec_path_file_stem` of the path; nothing more of it is stated.
#[verifier::external_body]
fn path_file_stem(p: &str) -> (r: Option<String>)
    ensures
        match r {
            Some(s) => spec_path_file_stem(p@) == Some(s@),
            None => spec_path_file_stem(p@) is None,
        },
{
    match std::path::Path::new(p).file_stem() {
        Some(q) => Some(q.to_string_lossy().into_owned()),
        None => None,
    }
}

/// Calls `std::path::Path::join`: its result is named `spec_path_join` of
/// the two paths; nothing more of it is stated.
#[verifier::external_body]
fn path_join(a: &str, b: &str) -> (r: String)
    ensures
        r@ == spec_path_join(a@, b@),
{
    std::path::Path::new(a).join(b).to_string_lossy().into_owned()
}

/// Calls `std::path::Path::components` and converts each component, one
/// variant for one: the result is named `spec_path_components` of the path;
/// nothing more of it is stated.
#[verifier::external_body]
fn path_components(p: &str) -> (r: Vec<PathComponent>)
    ensures
        components_view(r@) == spec_path_components(p@),
{
    let mut r = Vec::new();
    for c in std::path::Path::new(p).components() {
        r.push(match c {
            std::path::Component::Prefix(x) => PathComponent::Prefix(x.as_os_str().as_encoded_bytes().to_vec()),
            std::path::Component::RootDir => PathComponent::RootDir,
            std::path::Component::CurDir => PathComponent::CurDir,
            std::path::Component::ParentDir => PathComponent::ParentDir,
            std::path::Component::Normal(x) => PathComponent::Normal(x.as_encoded_bytes().to_vec()),
        });
    }
    r
}

/// The order of path components: by kind, then by bytes.
pub open spec fn component_lt(a: (u8, Seq<u8>), b: (u8, Seq<u8>)) -> bool {
    a.0 < b.0 || (a.0 == b.0 && lex_lt(a.1, b.1, byte_lt()))
}

pub open spec fn component_order() -> spec_fn((u8, Seq<u8>), (u8, Seq<u8>)) -> bool {
    |a: (u8, Seq<u8>), b: (u8, Seq<u8>)| component_lt(a, b)
}

/// The order of paths: by their components, in order.
pub open spec fn path_key_lt(a: Seq<(u8, Seq<u8>)>, b: Seq<(u8, Seq<u8>)>) -> bool {
    lex_lt(a, b, component_order())
}

pub open spec fn path_key_order() -> spec_fn(Seq<(u8, Seq<u8>)>, Seq<(u8, Seq<u8>)>) -> bool {
    |a: Seq<(u8, Seq<u8>)>, b: Seq<(u8, Seq<u8>)>| path_key_lt(a, b)
}

proof fn lemma_component_strict_total()
    ensures
        strict_total(component_order()),
{
    let bl = byte_lt();
    assert(strict_total(bl));
    lemma_lex_strict_total(bl);
    let l = |a: Seq<u8>, b: Seq<u8>| lex_lt(a, b, bl);
    let ghost c = component_order();
    assert forall|x: (u8, Seq<u8>)| !(#[trigger] c(x, x)) by {
        assert(!l(x.1, x.1));
    }
    assert forall|x: (u8, Seq<u8>), y: (u8, Seq<u8>), z: (u8, Seq<u8>)|
        #[trigger] c(x, y) && #[trigger] c(y, z) implies c(x, z) by {
        if x.0 == y.0 && y.0 == z.0 {
            assert(l(x.1, y.1) && l(y.1, z.1));
        }
    }
    assert forall|x: (u8, Seq<u8>), y: (u8, Seq<u8>)| x != y implies #[trigger] c(x, y) || #[trigger] c(y, x) by {
        if x.0 == y.0 {
            assert(x.1 != y.1);
            assert(l(x.1, y.1) || l(y.1, x.1));
        }
    }
}

/// The order of paths by their components is a strict total order.
pub proof fn lemma_path_key_strict_total()
    ensures
        strict_total(path_key_order()),
{
    lemma_component_strict_total();
    lemma_lex_strict_total(component_order());
    let l1 = |a: Seq<(u8, Seq<u8>)>, b: Seq<(u8, Seq<u8>)>| lex_lt(a, b, component_order());
    assert(l1 =~= path_key_order());
}

fn bytes_less(a: &Vec<u8>, b: &Vec<u8>) -> (r: bool)
    ensures
        r == lex_lt(a@, b@, byte_lt()),
{
    let na = a.len();
    let nb = b.len();
    let mut i: usize = 0;
    assert(a@.skip(0) =~= a@);
    assert(b@.skip(0) =~= b@);
    while i < na && i < nb
        invariant
            na == a@.len(),
            nb == b@.len(),
            i <= na,
            i <= nb,
            lex_lt(a@, b@, byte_lt()) == lex_lt(a@.skip(i as int), b@.skip(i as int), byte_lt()),
        decreases na - i,
    {
        let ghost sa = a@.skip(i as int);
        let ghost sb = b@.skip(i as int);
        assert(sa[0] == a@[i as int] && sb[0] == b@[i as int]);
        if a[i] != b[i] {
            return a[i] < b[i];
        }
        assert(sa.drop_first() =~= a@.skip(i as int + 1));
        assert(sb.drop_first() =~= b@.skip(i as int + 1));
        i = i + 1;
    }
    i == na && i < nb
}

fn component_rank(c: &PathComponent) -> (r: u8)
    ensures
        r == component_view(*c).0,
{
    match c {
        PathComponent::Prefix(_) => 0,
        PathComponent::RootDir => 1,
        PathComponent::CurDir => 2,
        PathComponent::ParentDir => 3,
        PathComponent::Normal(_) => 4,
    }
}

fn component_bytes(c: &PathComponent) -> (r: Vec<u8>)
    ensures
        r@ == component_view(*c).1,
{
    match c {
        PathComponent::Prefix(b) => b.clone(),
        PathComponent::Normal(b) => b.clone(),
        _ => Vec::new(),
    }
}

fn component_less(a: &PathComponent, b: &PathComponent) -> (r: bool)
    ensures
        r == component_lt(component_view(*a), component_view(*b)),
{
    let ra = component_rank(a);
    let rb = component_rank(b);
    ra < rb || (ra == rb && bytes_less(&component_bytes(a), &component_bytes(b)))
}

fn component_eq(a: &PathComponent, b: &PathComponent) -> (r: bool)
    ensures
        r == (component_view(*a) == component_view(*b)),
{
    proof {
        lemma_component_strict_total();
    }
    let ghost c = component_order();
    proof {
        assert(component_view(*a) != component_view(*b) ==> c(component_view(*a), component_view(*b)) || c(component_view(*b), component_view(*a)));
        assert(!c(component_view(*a), component_view(*a)));
    }
    !component_less(a, b) && !component_less(b, a)
}

fn components_less(a: &Vec<PathComponent>, b: &Vec<PathComponent>) -> (r: bool)
    ensures
        r == path_key_lt(components_view(a@), components_view(b@)),
{
    let ghost va = components_view(a@);
    let ghost vb = components_view(b@);
    let na = a.len();
    let nb = b.len();
    let mut i: usize = 0;
    assert(va.skip(0) =~= va);
    assert(vb.skip(0) =~= vb);
    while i < na && i < nb
        invariant
            na == a@.len(),
            nb == b@.len(),
            va == components_view(a@),
            vb == components_view(b@),
            i <= na,
            i <= nb,
            path_key_lt(va, vb) == lex_lt(va.skip(i as int), vb.skip(i as int), component_order()),
        decreases na - i,
    {
        let ghost sa = va.skip(i as int);
        let ghost sb = vb.skip(i as int);
        assert(sa[0] == component_view(a@[i as int]) && sb[0] == component_view(b@[i as int]));
        if !component_eq(&a[i], &b[i]) {
            return component_less(&a[i], &b[i]);
        }
        assert(sa.drop_first() =~= va.skip(i as int + 1));
        assert(sb.drop_first() =~= vb.skip(i as int + 1));
        i = i + 1;
    }
    i == na && i < nb
}

fn components_eq(a: &Vec<PathComponent>, b: &Vec<PathComponent>) -> (r: bool)
    ensures
        r == (components_view(a@) == components_view(b@)),
{
    proof {
        lemma_path_key_strict_total();
    }
    let ghost o = path_key_order();
    proof {
        let va = components_view(a@);
        let vb = components_view(b@);
        assert(va != vb ==> o(va, vb) || o(vb, va));
        assert(!o(va, va));
    }
    !components_less(a, b) && !components_less(b, a)
}

/// Paths to copy into the folder `to`.
#[derive(Debug)]
pub struct CopyGroup {
    pub to: String,
    pub paths: Vec<String>,
}

/// The components of the parent of the path `p`, where it has one.
pub open spec fn parent_key(p: Seq<char>) -> Option<Seq<(u8, Seq<u8>)>> {
    match spec_path_parent(p) {
        Some(q) => Some(spec_path_components(q)),
        None => None,
    }
}

/// The components of the parents of `ps`.
pub open spec fn parent_keys(ps: Seq<Seq<char>>) -> Set<Seq<(u8, Seq<u8>)>>
    decreases ps.len(),
{
    if ps.len() == 0 {
        Set::empty()
    } else {
        match parent_key(ps.last()) {
            Some(k) => parent_keys(ps.drop_last()).insert(k),
            None => parent_keys(ps.drop_last()),
        }
    }
}

/// The paths of `ps` whose parent has the components `k`, in order.
pub open spec fn paths_under(ps: Seq<Seq<char>>, k: Seq<(u8, Seq<u8>)>) -> Seq<Seq<char>>
    decreases ps.len(),
{
    if ps.len() == 0 {
        Seq::empty()
    } else if parent_key(ps.last()) == Some(k) {
        paths_under(ps.drop_last(), k).push(ps.last())
    } else {
        paths_under(ps.drop_last(), k)
    }
}

/// The parent of the first path of `ps` whose parent has the components `k`.
pub open spec fn first_parent(ps: Seq<Seq<char>>, k: Seq<(u8, Seq<u8>)>) -> Option<Seq<char>>
    decreases ps.len(),
{
    if ps.len() == 0 {
        None
    } else {
        match first_parent(ps.drop_last(), k) {
            Some(q) => Some(q),
            None => if parent_key(ps.last()) == Some(k) {
                spec_path_parent(ps.last())
            } else {
                None
            },
        }
    }
}

/// A folder is named for a parent exactly when some path has that parent.
pub proof fn lemma_first_parent_known(ps: Seq<Seq<char>>, k: Seq<(u8, Seq<u8>)>)
    ensures
        first_parent(ps, k) is Some <==> parent_keys(ps).contains(k),
        !parent_keys(ps).contains(k) ==> paths_under(ps, k) == Seq::<Seq<char>>::empty(),
        parent_keys(ps).finite(),
    decreases ps.len(),
{
    if ps.len() > 0 {
        lemma_first_parent_known(ps.drop_last(), k);
    }
}

proof fn lemma_group_step(ps: Seq<Seq<char>>, i: int)
    requires
        0 <= i < ps.len(),
    ensures
        ps.take(i + 1).drop_last() == ps.take(i),
        ps.take(i + 1).last() == ps[i],
{
    assert(ps.take(i + 1).drop_last() =~= ps.take(i));
}

/// The paths `ps` grouped by the folder that holds them: one group for each
/// parent, in the order of paths, holding the paths under it in their order
/// and named by the parent of the first of them. Paths without a parent are
/// left out.
pub fn group_by_parent(ps: &Vec<String>) -> (r: Vec<CopyGroup>)
    ensures
        ({
            let v = crate::text::views(ps@);
            let keys = crate::text::sorted_set(parent_keys(v), path_key_order());
            &&& r@.len() == keys.len()
            &&& forall|j: int|
                0 <= j < keys.len() ==> Some((#[trigger] r@[j]).to@) == first_parent(v, keys[j])
                    && crate::text::views(r@[j].paths@) == paths_under(v, keys[j])
        }),
{
    let ghost v = crate::text::views(ps@);
    let ghost lt = path_key_order();
    proof {
        lemma_path_key_strict_total();
    }
    let mut groups: Vec<CopyGroup> = Vec::new();
    let mut keys: Vec<Vec<PathComponent>> = Vec::new();
    let n = ps.len();
    let mut i: usize = 0;
    proof {
        assert(v.take(0) =~= Seq::<Seq<char>>::empty());
        assert(keys@.map_values(|c: Vec<PathComponent>| components_view(c@)).to_set() =~= Set::empty());
    }
    while i < n
        invariant
            n == ps@.len(),
            v == crate::text::views(ps@),
            lt == path_key_order(),
            strict_total(lt),
            i <= n,
            keys@.len() == groups@.len(),
            sorted_by(keys@.map_values(|c: Vec<PathComponent>| components_view(c@)), lt),
            keys@.map_values(|c: Vec<PathComponent>| components_view(c@)).to_set() == parent_keys(
                v.take(i as int),
            ),
            forall|j: int|
                0 <= j < groups@.len() ==> Some((#[trigger] groups@[j]).to@) == first_parent(
                    v.take(i as int),
                    components_view(keys@[j]@),
                ) && crate::text::views(groups@[j].paths@) == paths_under(
                    v.take(i as int),
                    components_view(keys@[j]@),
                ),
        decreases n - i,
    {
        let ghost kv = keys@.map_values(|c: Vec<PathComponent>| components_view(c@));
        proof {
            lemma_group_step(v, i as int);
        }
        let p = &ps[i];
        let parent = path_parent(p.as_str());
        match parent {
            None => {
                proof {
                    assert(parent_key(v[i as int]) is None);
                    assert forall|j: int| 0 <= j < groups@.len() implies Some((#[trigger] groups@[j]).to@) == first_parent(
                        v.take(i as int + 1),
                        components_view(keys@[j]@),
                    ) && crate::text::views(groups@[j].paths@) == paths_under(
                        v.take(i as int + 1),
                        components_view(keys@[j]@),
                    ) by {
                    }
                }
            },
            Some(q) => {
                let key = path_components(q.as_str());
                let ghost k = components_view(key@);
                assert(parent_key(v[i as int]) == Some(k));
                let m = keys.len();
                let mut j: usize = 0;
                while j < m
                    invariant
                        m == keys@.len(),
                        j <= m,
                        kv == keys@.map_values(|c: Vec<PathComponent>| components_view(c@)),
                        k == components_view(key@),
                        forall|a: int| 0 <= a < j ==> path_key_lt(#[trigger] kv[a], k),
                    ensures
                        j <= m,
                        forall|a: int| 0 <= a < j ==> path_key_lt(#[trigger] kv[a], k),
                        j < m ==> !path_key_lt(kv[j as int], k),
                    decreases m - j,
                {
                    assert(kv[j as int] == components_view(keys@[j as int]@));
                    if !components_less(&keys[j], &key) {
                        break;
                    }
                    j = j + 1;
                }
                if j < m && components_eq(&keys[j], &key) {
                    assert(kv[j as int] == k);
                    let mut g = groups.remove(j);
                    let ghost old_g = g;
                    g.paths.push(p.clone());
                    groups.insert(j, g);
                    proof {
                        assert(parent_keys(v.take(i as int)).contains(k)) by {
                            assert(kv.to_set().contains(kv[j as int]));
                        }
                        assert(parent_keys(v.take(i as int + 1)) =~= parent_keys(v.take(i as int)));
                        assert forall|a: int| 0 <= a < groups@.len() implies Some((#[trigger] groups@[a]).to@) == first_parent(
                            v.take(i as int + 1),
                            components_view(keys@[a]@),
                        ) && crate::text::views(groups@[a].paths@) == paths_under(
                            v.take(i as int + 1),
                            components_view(keys@[a]@),
                        ) by {
                            assert(kv[a] == components_view(keys@[a]@));
                            if a == j {
                                assert(crate::text::views(groups@[a].paths@) =~= crate::text::views(old_g.paths@).push(v[i as int]));
                            } else {
                                if kv[a] == k {
                                    assert(kv[a] == kv[j as int]);
                                    if a < j {
                                        assert(lt(kv[a], kv[j as int]));
                                    } else {
                                        assert(lt(kv[j as int], kv[a]));
                                    }
                                }
                            }
                        }
                    }
                } else {
                    proof {
                        assert(!kv.contains(k)) by {
                            if kv.contains(k) {
                                let a = choose|a: int| 0 <= a < kv.len() && kv[a] == k;
                                if a < j {
                                    assert(path_key_lt(kv[a], k));
                                    assert(lt(k, k));
                                } else if a > j {
                                    assert(lt(kv[j as int], kv[a]));
                                } else {
                                    assert(kv[j as int] == k);
                                    assert(components_view(keys@[j as int]@) == k);
                                }
                            }
                        }
                        assert(!parent_keys(v.take(i as int)).contains(k)) by {
                            if parent_keys(v.take(i as int)).contains(k) {
                                assert(kv.to_set().contains(k));
                            }
                        }
                        lemma_first_parent_known(v.take(i as int), k);
                    }
                    let ghost old_groups = groups@;
                    let ghost old_keys = keys@;
                    groups.insert(j, CopyGroup { to: q, paths: vec![p.clone()] });
                    keys.insert(j, key);
                    proof {
                        let nk = keys@.map_values(|c: Vec<PathComponent>| components_view(c@));
                        assert(nk =~= kv.insert(j as int, k));
                        if j < m {
                            assert(kv[j as int] != k);
                        }
                        assert forall|a: int| 0 <= a < j implies #[trigger] lt(kv[a], k) by {
                            assert(path_key_lt(kv[a], k));
                        }
                        lemma_sorted_insert(kv, j as int, k, lt);
                        assert forall|a: int| 0 <= a < groups@.len() implies Some((#[trigger] groups@[a]).to@) == first_parent(
                            v.take(i as int + 1),
                            components_view(keys@[a]@),
                        ) && crate::text::views(groups@[a].paths@) == paths_under(
                            v.take(i as int + 1),
                            components_view(keys@[a]@),
                        ) by {
                            assert(nk[a] == components_view(keys@[a]@));
                            if a == j {
                                assert(crate::text::views(groups@[a].paths@) =~= seq![v[i as int]]);
                                assert(paths_under(v.take(i as int), k) == Seq::<Seq<char>>::empty());
                                assert(first_parent(v.take(i as int), k) is None);
                            } else {
                                let oa = if a < j { a } else { a - 1 };
                                assert(groups@[a] == old_groups[oa]);
                                assert(keys@[a] == old_keys[oa]);
                                assert(kv[oa] == nk[a]);
                                assert(nk[a] != k) by {
                                    assert(kv.contains(kv[oa]));
                                }
                            }
                        }
                    }
                }
            },
        }
        i = i + 1;
    }
    proof {
        assert(v.take(n as int) =~= v);
        let kv = keys@.map_values(|c: Vec<PathComponent>| components_view(c@));
        crate::text::lemma_sorted_set_of(kv, lt);
        assert forall|j: int| 0 <= j < kv.len() implies Some((#[trigger] groups@[j]).to@) == first_parent(v, kv[j])
            && crate::text::views(groups@[j].paths@) == paths_under(v, kv[j]) by {
            assert(kv[j] == components_view(keys@[j]@));
        }
    }
    groups
}

/// The name of the folder of a trash that holds the trashed files.
pub open spec fn files_dir_name() -> Seq<char> {
    seq!['f', 'i', 'l', 'e', 's']
}

pub open spec fn opt_path(o: Option<String>) -> Option<Seq<char>> {
    match o {
        Some(s) => Some(s@),
        None => None,
    }
}

impl Item {
    pub open spec fn spec_dir_size_path(self) -> Option<Seq<char>> {
        match self.metadata {
            ItemMetadata::Trash { size: TrashSize::Entries(_), entry } => {
                let info_file = entry.id@;
                match spec_path_parent(info_file) {
                    Some(info_dir) => match spec_path_parent(info_dir) {
                        Some(trash_folder) => match spec_path_file_stem(info_file) {
                            Some(name_in_trash) => Some(
                                spec_path_join(
                                    spec_path_join(trash_folder, files_dir_name()),
                                    name_in_trash,
                                ),
                            ),
                            None => None,
                        },
                        None => None,
                    },
                    None => None,
                }
            },
            _ => opt_path(self.path),
        }
    }

    /// The path whose size is the item's size: for a trashed folder, its
    /// copy in the `files` folder of the trash, named by the stem of its info
    /// file; for any other item, its own path.
    pub fn dir_size_path(&self) -> (r: Option<String>)
        ensures
            opt_path(r) == self.spec_dir_size_path(),
    {
        match &self.metadata {
            ItemMetadata::Trash { size: TrashSize::Entries(_), entry } => {
                let info_file = entry.id.as_str();
                let info_dir = match path_parent(info_file) {
                    Some(d) => d,
                    None => return None,
                };
                let trash_folder = match path_parent(info_dir.as_str()) {
                    Some(d) => d,
                    None => return None,
                };
                let name_in_trash = match path_file_stem(info_file) {
                    Some(n) => n,
                    None => return None,
                };
                proof {
                    reveal_strlit("files");
                }
                let files_name = "files";
                assert(files_name@ == files_dir_name());
                let files = path_join(trash_folder.as_str(), files_name);
                let r = path_join(files.as_str(), name_in_trash.as_str());
                assert(r@ == spec_path_join(spec_path_join(trash_folder@, files_dir_name()), name_in_trash@));
                Some(r)
            },
            _ => match &self.path {
                Some(p) => Some(p.clone()),
                None => None,
            },
        }
    }
}

impl TrashEntry {
    /// The path the entry had before it was trashed: its original folder
    /// joined with its name.
    pub fn original_path(&self) -> (r: String)
        ensures
            r@ == spec_path_join(self.original_parent@, self.name@),
    {
        path_join(self.original_parent.as_str(), self.name.as_str())
    }
}

/// The original paths of the trash entries `items`, in order.
pub fn trash_original_paths(items: &Vec<TrashEntry>) -> (r: Vec<String>)
    ensures
        r@.len() == items@.len(),
        forall|i: int|
            0 <= i < items@.len() ==> (#[trigger] r@[i])@ == spec_path_join(
                items@[i].original_parent@,
                items@[i].name@,
            ),
{
    let mut r: Vec<String> = Vec::new();
    let n = items.len();
    let mut i: usize = 0;
    while i < n
        invariant
            n == items@.len(),
            i <= n,
            r@.len() == i,
            forall|j: int|
                0 <= j < i ==> (#[trigger] r@[j])@ == spec_path_join(
                    items@[j].original_parent@,
                    items@[j].name@,
                ),
        decreases n - i,
    {
        r.push(items[i].original_path());
        i = i + 1;
    }
    r
}

/// The dialog that asks where to move entries out of the trash.
#[derive(Debug)]
pub struct MoveFromTrashDialog {
    /// The paths the entries had before they were trashed, in order.
    pub paths: Vec<String>,
    pub title: Phrase,
    pub button_label: Phrase,
}

/// The dialog that asks where to move `items` out of the trash: it shows the
/// paths they had, under the title and button of moving.
pub fn move_from_trash(items: &Vec<TrashEntry>) -> (r: MoveFromTrashDialog)
    ensures
        r.paths@.len() == items@.len(),
        forall|i: int|
            0 <= i < items@.len() ==> (#[trigger] r.paths@[i])@ == spec_path_join(
                items@[i].original_parent@,
                items@[i].name@,
            ),
        r.title == Phrase::MoveToTitle,
        r.button_label == Phrase::MoveToButtonLabel,
{
    MoveFromTrashDialog {
        paths: trash_original_paths(items),
        title: Phrase::MoveToTitle,
        button_label: Phrase::MoveToButtonLabel,
    }
}

/// The paths of the selected items among `items` that have one, in order.
pub open spec fn selected_paths_of(items: Seq<Item>) -> Seq<Seq<char>>
    decreases items.len(),
{
    if items.len() == 0 {
        Seq::empty()
    } else {
        let rest = selected_paths_of(items.drop_last());
        let last = items.last();
        if last.selected && last.path is Some {
            rest.push(last.path.unwrap()@)
        } else {
            rest
        }
    }
}

impl Tab {
    pub open spec fn spec_selected_paths(self) -> Seq<Seq<char>> {
        match self.items {
            Some(items) => selected_paths_of(items@),
            None => Seq::empty(),
        }
    }

    /// The paths of the selected items, in order.
    pub fn selected_paths(&self) -> (r: Vec<String>)
        ensures
            crate::text::views(r@) == self.spec_selected_paths(),
    {
        let mut r: Vec<String> = Vec::new();
        match &self.items {
            Some(items) => {
                let n = items.len();
                let mut i: usize = 0;
                while i < n
                    invariant
                        n == items@.len(),
                        i <= n,
                        crate::text::views(r@) == selected_paths_of(items@.take(i as int)),
                    decreases n - i,
                {
                    assert(items@.take(i as int + 1).drop_last() =~= items@.take(i as int));
                    let ghost old_r = r@;
                    if items[i].selected {
                        match &items[i].path {
                            Some(p) => {
                                r.push(p.clone());
                                assert(crate::text::views(r@) =~= crate::text::views(old_r).push(p@));
                            },
                            None => {},
                        }
                    }
                    i = i + 1;
                }
                assert(items@.take(n as int) =~= items@);
            },
            None => {
                assert(crate::text::views(r@) =~= Seq::<Seq<char>>::empty());
            },
        }
        r
    }
}

impl App {
    /// The selected paths of the tab `entity_opt`, or of the active tab,
    /// grouped by the folder that holds them: each group is copied into its
    /// folder.
    pub fn duplicate_selected(&self, entity_opt: Option<Entity>) -> (r: Vec<CopyGroup>)
        ensures
            ({
                let tab = match entity_opt {
                    Some(e) => self.tab_model.spec_data(e),
                    None => self.active_tab(),
                };
                let v = match tab {
                    Some(t) => t.spec_selected_paths(),
                    None => Seq::empty(),
                };
                let keys = crate::text::sorted_set(parent_keys(v), path_key_order());
                &&& r@.len() == keys.len()
                &&& forall|j: int|
                    0 <= j < keys.len() ==> Some((#[trigger] r@[j]).to@) == first_parent(v, keys[j])
                        && crate::text::views(r@[j].paths@) == paths_under(v, keys[j])
            }),
    {
        let tab = match entity_opt {
            Some(e) => self.tab_model.data(e),
            None => self.tab_model.active_data(),
        };
        let paths = match tab {
            Some(t) => t.selected_paths(),
            None => Vec::new(),
        };
        proof {
            if tab is None {
                assert(crate::text::views(paths@) =~= Seq::<Seq<char>>::empty());
            }
        }
        group_by_parent(&paths)
    }
}

} // verus!
