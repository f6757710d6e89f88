//! The hierarchical view of a vault: one record per listed entry, with its
//! vault-relative path, depth, parent and timestamps, sorted by path.
use vstd::prelude::*;
use vstd::string::StringExecFns;
use crate::text::{
    count_char, count_of, find_last, last_pos, lemma_last_pos_bounds, lemma_lex_total,
    lemma_lex_transitive, seq_lt, text_eq, text_lt,
};
use crate::vault::{extension, extension_of, file_name, file_name_of};

verus! {

/// An entry of the listing, with what its metadata held.
#[derive(Debug, Clone)]
pub struct TreeEntry {
    pub path: String,
    pub is_dir: bool,
    /// Creation time in seconds since the epoch, where the platform has it.
    pub created: Option<i64>,
    /// Modification time in seconds since the epoch, where available.
    pub modified: Option<i64>,
}

/// One node of the tree view.
#[derive(Debug, Clone)]
pub struct FileInfo {
    /// The path relative to the vault root.
    pub path: String,
    /// The last segment of the path.
    pub name: String,
    pub is_dir: bool,
    /// The extension, for files only.
    pub extension: Option<String>,
    /// The number of segments of the relative path.
    pub depth: usize,
    /// The relative path of all but the last segment, if there are several.
    pub parent_path: Option<String>,
    pub created: Option<i64>,
    pub modified: Option<i64>,
}

/// The view of an optional string.
pub open spec fn opt_text(o: Option<String>) -> Option<Seq<char>> {
    match o {
        Some(s) => Some(s@),
        None => None,
    }
}

/// The prefix that a path under `root` starts with.
pub open spec fn base_of(root: Seq<char>) -> Seq<char> {
    if root.len() > 0 && root.last() == '/' {
        root
    } else {
        root.push('/')
    }
}

/// `p` relative to `root`, if `p` lies strictly below it.
pub open spec fn relative(root: Seq<char>, p: Seq<char>) -> Option<Seq<char>> {
    let base = base_of(root);
    if p.len() > base.len() && p.take(base.len() as int) == base {
        Some(p.skip(base.len() as int))
    } else {
        None
    }
}

/// The parent of a relative path: all but its last segment, if any.
pub open spec fn parent_of(rel: Seq<char>) -> Option<Seq<char>> {
    if last_pos(rel, '/') >= 0 {
        Some(rel.take(last_pos(rel, '/')))
    } else {
        None
    }
}

/// `f` is the record of entry `e` of the vault at `root`.
pub open spec fn describes(root: Seq<char>, e: TreeEntry, f: FileInfo) -> bool {
    &&& relative(root, e.path@) is Some
    &&& f.path@ == relative(root, e.path@)->0
    &&& f.name@ == file_name(f.path@)
    &&& f.is_dir == e.is_dir
    &&& opt_text(f.extension) == if e.is_dir {
        None
    } else {
        extension(file_name(f.path@))
    }
    &&& f.depth == count_char(f.path@, '/') + 1
    &&& opt_text(f.parent_path) == parent_of(f.path@)
    &&& f.created == e.created
    &&& f.modified == e.modified
}

/// `f` is the record of one of the first `n` entries.
pub open spec fn recorded(root: Seq<char>, entries: Seq<TreeEntry>, n: int, f: FileInfo) -> bool {
    exists|i: int| 0 <= i < n && describes(root, entries[i], f)
}

/// The paths of a sequence of records.
pub open spec fn paths(v: Seq<FileInfo>) -> Seq<Seq<char>> {
    v.map_values(|f: FileInfo| f.path@)
}

/// The records' paths increase strictly.
pub open spec fn sorted_by_path(v: Seq<FileInfo>) -> bool {
    forall|i: int, j: int| 0 <= i < j < v.len() ==> seq_lt(v[i].path@, v[j].path@)
}

/// `p` relative to `root`, or `None` when `p` is not strictly below `root`.
pub fn relative_path(root: &str, p: &str) -> (r: Option<String>)
    ensures
        opt_text(r) == relative(root@, p@),
        r matches Some(s) ==> s@.len() < usize::MAX,
{
    let n = root.unicode_len();
    let base = if n > 0 && root.get_char(n - 1) == '/' {
        root.to_owned()
    } else {
        proof {
            reveal_strlit("/");
        }
        root.to_owned().concat("/")
    };
    assert(base@ =~= base_of(root@));
    let b = base.unicode_len();
    let m = p.unicode_len();
    if m <= b {
        return None;
    }
    let head = p.substring_char(0, b);
    if text_eq(head, base.as_str()) {
        Some(p.substring_char(b, m).to_owned())
    } else {
        None
    }
}

/// The record of `e`, or `None` when `e` does not lie below `root`.
pub fn describe(root: &str, e: &TreeEntry) -> (r: Option<FileInfo>)
    ensures
        match r {
            Some(f) => describes(root@, *e, f),
            None => relative(root@, e.path@) is None,
        },
{
    let rel = match relative_path(root, e.path.as_str()) {
        Some(rel) => rel,
        None => return None,
    };
    let name = file_name_of(rel.as_str());
    let extension = if e.is_dir {
        None
    } else {
        extension_of(name.as_str())
    };
    let slashes = count_of(rel.as_str(), '/');
    proof {
        lemma_last_pos_bounds(rel@, '/');
        lemma_count_bound(rel@, '/');
    }
    let parent_path = match find_last(rel.as_str(), '/') {
        Some(k) => Some(rel.as_str().substring_char(0, k).to_owned()),
        None => None,
    };
    Some(
        FileInfo {
            path: rel,
            name,
            is_dir: e.is_dir,
            extension,
            depth: slashes + 1,
            parent_path,
            created: e.created,
            modified: e.modified,
        },
    )
}

proof fn lemma_count_bound(s: Seq<char>, c: char)
    ensures
        count_char(s, c) <= s.len(),
    decreases s.len(),
{
    if s.len() > 0 {
        lemma_count_bound(s.drop_last(), c);
    }
}

/// Inserts `x` into `items`, sorted by path, unless its path is there.
fn insert_by_path(items: Vec<FileInfo>, x: FileInfo) -> (r: Vec<FileInfo>)
    requires
        sorted_by_path(items@),
    ensures
        sorted_by_path(r@),
        forall|k: int| 0 <= k < r.len() ==> items@.contains(#[trigger] r@[k]) || r@[k] == x,
        forall|k: int| 0 <= k < items.len() ==> r@.contains(#[trigger] items@[k]),
        paths(r@).contains(x.path@),
{
    let mut v = items;
    let n = v.len();
    let mut k: usize = 0;
    while k < n && text_lt(v[k].path.as_str(), x.path.as_str())
        invariant
            n == v.len(),
            v@ == items@,
            k <= n,
            forall|i: int| 0 <= i < k ==> seq_lt(#[trigger] v@[i].path@, x.path@),
        decreases n - k,
    {
        k = k + 1;
    }
    if k < n && text_eq(v[k].path.as_str(), x.path.as_str()) {
        assert(paths(v@)[k as int] == x.path@);
        assert forall|k: int| 0 <= k < items.len() implies v@.contains(#[trigger] items@[k]) by {
            assert(v@[k] == items@[k]);
        }
        return v;
    }
    let ghost old_v = v@;
    let ghost xv = x;
    proof {
        if k < n {
            lemma_lex_total(x.path@, v@[k as int].path@, false);
            assert forall|j: int| k <= j < n implies seq_lt(x.path@, #[trigger] old_v[j].path@) by {
                if j > k {
                    assert(seq_lt(old_v[k as int].path@, old_v[j].path@));
                    lemma_lex_transitive(x.path@, old_v[k as int].path@, old_v[j].path@, false);
                }
            }
        }
    }
    v.insert(k, x);
    assert(v@ =~= old_v.insert(k as int, xv));
    assert forall|i: int, j: int| 0 <= i < j < v@.len() implies seq_lt(
        v@[i].path@,
        v@[j].path@,
    ) by {
        if i < k && j > k {
            lemma_lex_transitive(old_v[i].path@, xv.path@, old_v[j - 1].path@, false);
        }
    }
    assert forall|i: int| 0 <= i < v.len() implies items@.contains(#[trigger] v@[i]) || v@[i]
        == xv by {
        if i < k {
            assert(old_v[i] == v@[i]);
        } else if i > k {
            assert(old_v[i - 1] == v@[i]);
        }
    }
    assert forall|i: int| 0 <= i < items.len() implies v@.contains(#[trigger] items@[i]) by {
        if i < k {
            assert(v@[i] == items@[i]);
        } else {
            assert(v@[i + 1] == items@[i]);
        }
    }
    assert(paths(v@)[k as int] == xv.path@);
    v
}

/// The tree view of the listed `entries` of the vault at `root`: the record
/// of each entry below the root, sorted by relative path. An entry that is
/// not below the root is skipped; of entries with one path the first stays.
pub fn build_tree(root: &str, entries: &Vec<TreeEntry>) -> (r: Vec<FileInfo>)
    ensures
        sorted_by_path(r@),
        forall|k: int|
            0 <= k < r.len() ==> recorded(root@, entries@, entries.len() as int, #[trigger] r@[k]),
        forall|i: int|
            0 <= i < entries.len() && (#[trigger] relative(root@, entries@[i].path@)) is Some
                ==> paths(r@).contains(relative(root@, entries@[i].path@)->0),
{
    let mut infos: Vec<FileInfo> = Vec::new();
    let mut i: usize = 0;
    while i < entries.len()
        invariant
            i <= entries.len(),
            sorted_by_path(infos@),
            forall|k: int|
                0 <= k < infos.len() ==> recorded(root@, entries@, i as int, #[trigger] infos@[k]),
            forall|j: int|
                0 <= j < i && (#[trigger] relative(root@, entries@[j].path@)) is Some
                    ==> paths(infos@).contains(relative(root@, entries@[j].path@)->0),
        decreases entries.len() - i,
    {
        match describe(root, &entries[i]) {
            Some(f) => {
                let ghost before = infos@;
                let ghost fv = f;
                infos = insert_by_path(infos, f);
                assert forall|k: int|
                    0 <= k < infos.len() implies recorded(
                        root@,
                        entries@,
                        i + 1,
                        #[trigger] infos@[k],
                    ) by {
                    if infos@[k] != fv {
                        let m = choose|m: int| 0 <= m < before.len() && before[m] == infos@[k];
                        assert(recorded(root@, entries@, i as int, before[m]));
                    } else {
                        assert(describes(root@, entries@[i as int], infos@[k]));
                    }
                }
                assert forall|j: int|
                    0 <= j < i + 1 && (#[trigger] relative(root@, entries@[j].path@)) is Some
                        implies paths(infos@).contains(relative(root@, entries@[j].path@)->0) by {
                    if j < i {
                        let t = relative(root@, entries@[j].path@)->0;
                        let m = choose|m: int| 0 <= m < before.len() && paths(before)[m] == t;
                        assert(infos@.contains(before[m]));
                        let q = choose|q: int| 0 <= q < infos.len() && infos@[q] == before[m];
                        assert(paths(infos@)[q] == t);
                    }
                }
            },
            None => {},
        }
        i = i + 1;
    }
    infos
}

} // verus!
