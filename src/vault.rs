//! The vault: a validated root directory, the selection and ordering of its
//! recognized entries, and the resolution of vault-relative paths.
use vstd::prelude::*;
use vstd::string::StringExecFns;
use crate::error::Failure;
use crate::tree::{relative, relative_path};
use crate::text::{
    find_last, has_substring, last_pos, lemma_last_pos_bounds, lemma_lex_total,
    lemma_lex_transitive, path_lt, text_eq, path_text_lt,
};

verus! {

/// What a path turned out to be when it was probed on disk.
#[derive(Debug, Clone, Copy, PartialEq, Eq)]
pub enum PathStatus {
    Missing,
    Directory,
    File,
    /// Exists, but is neither a directory nor a regular file.
    Other,
}

/// One entry met while walking the vault root.
#[derive(Debug, Clone)]
pub struct WalkEntry {
    pub path: String,
    pub status: PathStatus,
}

/// A vault bound to a root directory that existed when it was opened.
#[derive(Debug, Clone)]
pub struct Vault {
    path: String,
}

/// The last segment of a `/`-separated path.
pub open spec fn file_name(p: Seq<char>) -> Seq<char> {
    p.subrange(last_pos(p, '/') + 1, p.len() as int)
}

/// The extension of a file name: what follows its last `.`, unless there is
/// no `.` or the only one leads the name.
pub open spec fn extension(name: Seq<char>) -> Option<Seq<char>> {
    if last_pos(name, '.') <= 0 {
        None
    } else {
        Some(name.subrange(last_pos(name, '.') + 1, name.len() as int))
    }
}

/// Extensions of notes (`md`) and attachments (`png`, `jpg`, `jpeg`, `gif`).
pub open spec fn recognized(ext: Seq<char>) -> bool {
    ext == "md"@ || ext == "png"@ || ext == "jpg"@ || ext == "jpeg"@ || ext == "gif"@
}

/// Whether a walked entry belongs in the listing of the vault at `root`.
pub open spec fn listed(root: Seq<char>, e: WalkEntry) -> bool {
    e.path@ != root && (e.status == PathStatus::Directory || (e.status == PathStatus::File
        && extension(file_name(e.path@)) is Some && recognized(
        extension(file_name(e.path@))->0,
    )))
}

/// The views of a vector of strings.
pub open spec fn texts(v: Seq<String>) -> Seq<Seq<char>> {
    v.map_values(|s: String| s@)
}

/// Each element sorts strictly before every later one.
pub open spec fn strictly_sorted(s: Seq<Seq<char>>) -> bool {
    forall|i: int, j: int| 0 <= i < j < s.len() ==> path_lt(s[i], s[j])
}

/// The depth below the root after the segment `seg`, from `depth`: `..`
/// climbs one level, `.` and empty segments stay, any other descends.
pub open spec fn settle(depth: int, seg: Seq<char>) -> int {
    if seg == ".."@ {
        depth - 1
    } else if seg.len() == 0 || seg == "."@ {
        depth
    } else {
        depth + 1
    }
}

/// The depth below the root that the rest `rel` of a relative path ends at,
/// from `depth` with the unfinished segment `seg`; `None` once it climbs
/// above the root.
pub open spec fn walk_depth(rel: Seq<char>, depth: int, seg: Seq<char>) -> Option<int>
    decreases rel.len(),
{
    if rel.len() == 0 {
        if settle(depth, seg) < 0 {
            None
        } else {
            Some(settle(depth, seg))
        }
    } else if rel[0] == '/' {
        if settle(depth, seg) < 0 {
            None
        } else {
            walk_depth(rel.drop_first(), settle(depth, seg), Seq::empty())
        }
    } else {
        walk_depth(rel.drop_first(), depth, seg.push(rel[0]))
    }
}

/// A relative path is malformed when it is empty or absolute, or when,
/// normalized segment by segment, it climbs above the root or names the root
/// itself.
pub open spec fn malformed(rel: Seq<char>) -> bool {
    rel.len() == 0 || rel[0] == '/' || !(walk_depth(rel, 0, Seq::empty()) matches Some(d) && d > 0)
}

/// The depth after a finished segment `rel[start..end)`, or `None` when it
/// climbs above the root.
fn settle_segment(rel: &str, start: usize, end: usize, depth: usize) -> (r: Option<usize>)
    requires
        start <= end <= rel@.len(),
        depth <= start,
    ensures
        match r {
            Some(d) => settle(depth as int, rel@.subrange(start as int, end as int)) == d as int
                && d <= end + 1,
            None => settle(depth as int, rel@.subrange(start as int, end as int)) < 0,
        },
{
    let seg = rel.substring_char(start, end);
    if text_eq(seg, "..") {
        if depth == 0 {
            None
        } else {
            Some(depth - 1)
        }
    } else if seg.unicode_len() == 0 || text_eq(seg, ".") {
        Some(depth)
    } else {
        Some(depth + 1)
    }
}

/// `rel` placed under `root`, with one `/` between them.
pub open spec fn joined(root: Seq<char>, rel: Seq<char>) -> Seq<char> {
    if root.len() > 0 && root.last() == '/' {
        root + rel
    } else {
        root + seq!['/'] + rel
    }
}

/// The last segment of `p`.
pub fn file_name_of(p: &str) -> (r: String)
    ensures
        r@ == file_name(p@),
{
    proof {
        lemma_last_pos_bounds(p@, '/');
    }
    let n = p.unicode_len();
    match find_last(p, '/') {
        Some(k) => p.substring_char(k + 1, n).to_owned(),
        None => p.substring_char(0, n).to_owned(),
    }
}

/// The extension of the file name `name`.
pub fn extension_of(name: &str) -> (r: Option<String>)
    ensures
        match r {
            Some(e) => extension(name@) == Some(e@),
            None => extension(name@) is None,
        },
{
    proof {
        lemma_last_pos_bounds(name@, '.');
    }
    let n = name.unicode_len();
    match find_last(name, '.') {
        Some(k) => {
            if k == 0 {
                None
            } else {
                Some(name.substring_char(k + 1, n).to_owned())
            }
        },
        None => None,
    }
}

/// Whether `ext` is the extension of a note or an attachment.
pub fn is_recognized(ext: &str) -> (r: bool)
    ensures
        r == recognized(ext@),
{
    text_eq(ext, "md") || text_eq(ext, "png") || text_eq(ext, "jpg") || text_eq(ext, "jpeg")
        || text_eq(ext, "gif")
}

/// Inserts `x` into the strictly sorted `items` at its place, unless it is there.
fn insert_sorted(items: Vec<String>, x: &String) -> (r: Vec<String>)
    requires
        strictly_sorted(texts(items@)),
    ensures
        strictly_sorted(texts(r@)),
        forall|t: Seq<char>| texts(r@).contains(t) <==> (texts(items@).contains(t) || t == x@),
{
    let mut v = items;
    let n = v.len();
    let mut k: usize = 0;
    while k < n && path_text_lt(v[k].as_str(), x.as_str())
        invariant
            n == v.len(),
            k <= n,
            forall|i: int| 0 <= i < k ==> path_lt(#[trigger] v@[i]@, x@),
        decreases n - k,
    {
        k = k + 1;
    }
    if k < n && text_eq(v[k].as_str(), x.as_str()) {
        assert(texts(v@)[k as int] == x@);
        assert(texts(v@).contains(x@));
        return v;
    }
    let ghost old_v = texts(v@);
    proof {
        if k < n {
            lemma_lex_total(x@, v@[k as int]@, true);
            assert forall|j: int| k <= j < n implies path_lt(x@, #[trigger] old_v[j]) by {
                if j > k {
                    assert(path_lt(old_v[k as int], old_v[j]));
                    lemma_lex_transitive(x@, old_v[k as int], old_v[j], true);
                }
            }
        }
    }
    let ghost xv = x@;
    v.insert(k, x.clone());
    assert(texts(v@) =~= old_v.insert(k as int, xv));
    assert forall|i: int, j: int| 0 <= i < j < texts(v@).len() implies path_lt(
        texts(v@)[i],
        texts(v@)[j],
    ) by {
        if i < k && j > k {
            lemma_lex_transitive(old_v[i], xv, old_v[j - 1], true);
        }
    }
    assert forall|t: Seq<char>| texts(v@).contains(t) <==> (old_v.contains(t) || t == xv) by {
        if old_v.contains(t) {
            let i = choose|i: int| 0 <= i < old_v.len() && old_v[i] == t;
            if i < k {
                assert(texts(v@)[i] == t);
            } else {
                assert(texts(v@)[i + 1] == t);
            }
        }
        if t == xv {
            assert(texts(v@)[k as int] == t);
        }
        if texts(v@).contains(t) {
            let i = choose|i: int| 0 <= i < texts(v@).len() && texts(v@)[i] == t;
            if i < k {
                assert(old_v[i] == t);
            } else if i > k {
                assert(old_v[i - 1] == t);
            }
        }
    }
    assert(old_v == texts(items@));
    assert(xv == x@);
    assert(forall|t: Seq<char>| texts(v@).contains(t) <==> (texts(items@).contains(t) || t == x@));
    v
}

/// Whether the canonical path `path` is the canonical root `root` or lies
/// below it. A vault-relative path is safe to use only when the canonical
/// form of what it resolves to (or of its nearest existing ancestor) passes
/// this test, since a symbolic link inside the vault may lead elsewhere.
pub fn within_root(root: &str, path: &str) -> (r: bool)
    ensures
        r == (path@ == root@ || relative(root@, path@) is Some),
{
    if text_eq(path, root) {
        return true;
    }
    relative_path(root, path).is_some()
}

impl Vault {
    /// The root directory.
    pub closed spec fn root(&self) -> Seq<char> {
        self.path@
    }

    /// Opens the vault at `path`, given what a probe of `path` found.
    pub fn new(path: String, status: PathStatus) -> (r: Result<Vault, Failure>)
        ensures
            status == PathStatus::Missing ==> r == Err::<Vault, Failure>(Failure::NotFound),
            (status == PathStatus::File || status == PathStatus::Other) ==> r == Err::<Vault, Failure>(
                Failure::InvalidInput,
            ),
            status == PathStatus::Directory ==> r is Ok && r->Ok_0.root() == path@,
    {
        match status {
            PathStatus::Missing => Err(Failure::NotFound),
            PathStatus::Directory => Ok(Vault { path }),
            _ => Err(Failure::InvalidInput),
        }
    }

    /// The root directory.
    pub fn path(&self) -> (r: &str)
        ensures
            r@ == self.root(),
    {
        self.path.as_str()
    }

    /// From the entries of a recursive walk of the root, the paths of the
    /// directories and recognized files, without the root, strictly sorted.
    pub fn list_markdown_files(&self, walked: &Vec<WalkEntry>) -> (r: Vec<String>)
        ensures
            strictly_sorted(texts(r@)),
            forall|t: Seq<char>|
                texts(r@).contains(t) ==> exists|i: int|
                    0 <= i < walked.len() && listed(self.root(), #[trigger] walked[i])
                        && walked[i].path@ == t,
            forall|i: int|
                0 <= i < walked.len() && listed(self.root(), #[trigger] walked[i])
                    ==> texts(r@).contains(walked[i].path@),
    {
        let mut items: Vec<String> = Vec::new();
        let mut i: usize = 0;
        while i < walked.len()
            invariant
                i <= walked.len(),
                strictly_sorted(texts(items@)),
                forall|t: Seq<char>|
                    texts(items@).contains(t) ==> exists|j: int|
                        0 <= j < i && listed(self.root(), #[trigger] walked[j]) && walked[j].path@
                            == t,
                forall|j: int|
                    0 <= j < i && listed(self.root(), #[trigger] walked[j]) ==> texts(
                        items@,
                    ).contains(walked[j].path@),
            decreases walked.len() - i,
        {
            let e = &walked[i];
            let keep = if text_eq(e.path.as_str(), self.path.as_str()) {
                false
            } else {
                match e.status {
                    PathStatus::Directory => true,
                    PathStatus::File => {
                        let name = file_name_of(e.path.as_str());
                        match extension_of(name.as_str()) {
                            Some(ext) => is_recognized(ext.as_str()),
                            None => false,
                        }
                    },
                    _ => false,
                }
            };
            assert(keep == listed(self.root(), walked[i as int]));
            if keep {
                items = insert_sorted(items, &e.path);
            }
            i = i + 1;
        }
        items
    }

    /// The full path of `rel` inside the vault; `rel` must not be empty,
    /// absolute, or climb out through a `..` segment.
    pub fn resolve(&self, rel: &str) -> (r: Result<String, Failure>)
        ensures
            malformed(rel@) ==> r == Err::<String, Failure>(Failure::InvalidInput),
            !malformed(rel@) ==> r is Ok && r->Ok_0@ == joined(self.root(), rel@),
    {
        if rel.unicode_len() == 0 || rel.get_char(0) == '/' {
            return Err(Failure::InvalidInput);
        }
        let n = rel.unicode_len();
        let mut i: usize = 0;
        let mut start: usize = 0;
        let mut depth: usize = 0;
        assert(rel@.skip(0) =~= rel@);
        assert(rel@.subrange(0, 0) =~= Seq::<char>::empty());
        while i < n
            invariant
                n == rel@.len(),
                start <= i <= n,
                depth <= start,
                walk_depth(rel@, 0, Seq::empty()) == walk_depth(
                    rel@.skip(i as int),
                    depth as int,
                    rel@.subrange(start as int, i as int),
                ),
            decreases n - i,
        {
            assert(rel@.skip(i as int).drop_first() =~= rel@.skip(i + 1));
            assert(rel@.skip(i as int)[0] == rel@[i as int]);
            if rel.get_char(i) == '/' {
                match settle_segment(rel, start, i, depth) {
                    Some(d) => {
                        depth = d;
                        start = i + 1;
                        assert(rel@.subrange(start as int, i + 1) =~= Seq::<char>::empty());
                    },
                    None => return Err(Failure::InvalidInput),
                }
            } else {
                assert(rel@.subrange(start as int, i + 1) =~= rel@.subrange(start as int, i as int).push(
                    rel@[i as int],
                ));
            }
            i = i + 1;
        }
        assert(rel@.skip(n as int).len() == 0);
        match settle_segment(rel, start, n, depth) {
            Some(d) => if d == 0 {
                return Err(Failure::InvalidInput);
            },
            None => return Err(Failure::InvalidInput),
        }
        proof {
            reveal_strlit("/");
        }
        let n = self.path.unicode_len();
        let out = if n > 0 && self.path.as_str().get_char(n - 1) == '/' {
            self.path.clone().concat(rel)
        } else {
            self.path.clone().concat("/").concat(rel)
        };
        Ok(out)
    }
}

} // verus!
