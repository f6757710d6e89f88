//! Notes by name: the search that matches file stems case-insensitively,
//! the heading that a new note starts with, and the name of a vault.
use vstd::prelude::*;
use vstd::string::StringExecFns;
use vstd::seq_lib::{to_multiset_build, to_multiset_insert};
use crate::error::Failure;
use crate::media::{lower_of, lowercase};
use crate::text::{
    contains_text, find_last, has_substring, last_pos, lemma_last_pos_bounds, lemma_lex_irreflexive, lemma_lex_transitive, seq_lt, text_eq, text_lt,
};
use crate::tree::{opt_text, relative, relative_path};
use crate::vault::{file_name, file_name_of, texts};

verus! {

/// A note whose name matched a search.
#[derive(Debug, Clone)]
pub struct NoteSearchResult {
    /// The file stem of the note.
    pub name: String,
    /// The path relative to the vault root.
    pub path: String,
}

/// The stem of a file name: the name without its extension.
pub open spec fn stem(name: Seq<char>) -> Seq<char> {
    if last_pos(name, '.') <= 0 {
        name
    } else {
        name.take(last_pos(name, '.'))
    }
}

/// The path shown for `p`: relative to `root` where it lies below it.
pub open spec fn shown_path(root: Seq<char>, p: Seq<char>) -> Seq<char> {
    match relative(root, p) {
        Some(r) => r,
        None => p,
    }
}

/// The stem of `p` matches `term`, ignoring case.
pub open spec fn name_matches(p: Seq<char>, term: Seq<char>) -> bool {
    has_substring(lower_of(stem(file_name(p))), lower_of(term))
}

/// The search hits among `files`, as (name, path) pairs, in the files' order.
pub open spec fn hits(root: Seq<char>, files: Seq<Seq<char>>, term: Seq<char>) -> Seq<
    (Seq<char>, Seq<char>),
>
    decreases files.len(),
{
    if files.len() == 0 {
        Seq::empty()
    } else {
        let earlier = hits(root, files.drop_last(), term);
        if name_matches(files.last(), term) {
            earlier.push((stem(file_name(files.last())), shown_path(root, files.last())))
        } else {
            earlier
        }
    }
}

/// The (name, path) pairs of search results.
pub open spec fn pairs(r: Seq<NoteSearchResult>) -> Seq<(Seq<char>, Seq<char>)> {
    r.map_values(|n: NoteSearchResult| (n.name@, n.path@))
}

/// `name` equals the search term, ignoring case.
pub open spec fn exact(name: Seq<char>, term: Seq<char>) -> bool {
    lower_of(name) == lower_of(term)
}

/// `a` ranks before `b`: exact matches first, then by name.
pub open spec fn ranks_before(a: Seq<char>, b: Seq<char>, term: Seq<char>) -> bool {
    (exact(a, term) && !exact(b, term)) || (exact(a, term) == exact(b, term) && seq_lt(a, b))
}

/// No result ranks before an earlier one.
pub open spec fn ranked(r: Seq<(Seq<char>, Seq<char>)>, term: Seq<char>) -> bool {
    forall|i: int, j: int| 0 <= i < j < r.len() ==> !ranks_before(r[j].0, r[i].0, term)
}

/// `orig` matches each result to the hit it came from, one to one, and
/// results with the same name keep the hits' order.
pub open spec fn tie_order(
    r: Seq<(Seq<char>, Seq<char>)>,
    h: Seq<(Seq<char>, Seq<char>)>,
    orig: Seq<int>,
) -> bool {
    &&& orig.len() == r.len()
    &&& forall|k: int| 0 <= k < r.len() ==> 0 <= #[trigger] orig[k] < h.len() && r[k] == h[orig[k]]
    &&& forall|i: int, j: int|
        0 <= i < j < r.len() && r[i].0 == r[j].0 ==> #[trigger] orig[i] < #[trigger] orig[j]
}

/// Results with equal names come in the order of the hits they came from.
pub open spec fn stable_ties(r: Seq<(Seq<char>, Seq<char>)>, h: Seq<(Seq<char>, Seq<char>)>) -> bool {
    exists|orig: Seq<int>| tie_order(r, h, orig)
}

proof fn lemma_ranks_transitive(a: Seq<char>, b: Seq<char>, c: Seq<char>, term: Seq<char>)
    requires
        ranks_before(a, b, term),
        ranks_before(b, c, term),
    ensures
        ranks_before(a, c, term),
{
    if seq_lt(a, b) && seq_lt(b, c) {
        lemma_lex_transitive(a, b, c, false);
    }
}

/// The stem of the file name `name`.
pub fn stem_of(name: &str) -> (r: String)
    ensures
        r@ == stem(name@),
{
    proof {
        lemma_last_pos_bounds(name@, '.');
    }
    match find_last(name, '.') {
        Some(k) => if k == 0 {
            name.to_owned()
        } else {
            name.substring_char(0, k).to_owned()
        },
        None => name.to_owned(),
    }
}

/// Inserts `x` after every result that does not rank after it.
fn insert_ranked(
    items: Vec<NoteSearchResult>,
    flags: Vec<bool>,
    x: NoteSearchResult,
    x_exact: bool,
    Ghost(term): Ghost<Seq<char>>,
    Ghost(h): Ghost<Seq<(Seq<char>, Seq<char>)>>,
    Ghost(orig): Ghost<Seq<int>>,
) -> (r: (Vec<NoteSearchResult>, Vec<bool>, Ghost<Seq<int>>))
    requires
        tie_order(pairs(items@), h, orig),
        ranked(pairs(items@), term),
        flags.len() == items.len(),
        forall|i: int| 0 <= i < items.len() ==> flags@[i] == exact(#[trigger] items@[i].name@, term),
        x_exact == exact(x.name@, term),
    ensures
        ranked(pairs(r.0@), term),
        r.1.len() == r.0.len(),
        forall|i: int| 0 <= i < r.0.len() ==> r.1@[i] == exact(#[trigger] r.0@[i].name@, term),
        pairs(r.0@).to_multiset() == pairs(items@).to_multiset().insert((x.name@, x.path@)),
        tie_order(pairs(r.0@), h.push((x.name@, x.path@)), r.2@),
{
    let mut v = items;
    let mut f = flags;
    let n = v.len();
    let mut k: usize = 0;
    while k < n && !((x_exact && !f[k]) || (x_exact == f[k] && text_lt(
        x.name.as_str(),
        v[k].name.as_str(),
    )))
        invariant
            n == v.len(),
            n == f.len(),
            k <= n,
            v@ == items@,
            f@ == flags@,
            forall|i: int| 0 <= i < n ==> f@[i] == exact(#[trigger] v@[i].name@, term),
            x_exact == exact(x.name@, term),
            forall|i: int| 0 <= i < k ==> !ranks_before(x.name@, #[trigger] v@[i].name@, term),
        decreases n - k,
    {
        k = k + 1;
    }
    let ghost old_p = pairs(v@);
    let ghost xp = (x.name@, x.path@);
    proof {
        if k < n {
            assert(ranks_before(x.name@, v@[k as int].name@, term));
            assert forall|j: int| k <= j < n implies !ranks_before(
                #[trigger] old_p[j].0,
                x.name@,
                term,
            ) by {
                assert(old_p[j].0 == v@[j].name@);
                assert(old_p[k as int].0 == v@[k as int].name@);
                if j > k {
                    assert(!ranks_before(old_p[j].0, old_p[k as int].0, term));
                }
                if ranks_before(old_p[j].0, x.name@, term) {
                    lemma_ranks_transitive(old_p[j].0, x.name@, v@[k as int].name@, term);
                    if j == k {
                        lemma_lex_irreflexive(old_p[j].0, false);
                    }
                }
            }
            assert forall|j: int| k <= j < n implies #[trigger] old_p[j].0 != x.name@ by {
                assert(old_p[j].0 == v@[j].name@);
                assert(old_p[k as int].0 == v@[k as int].name@);
                lemma_lex_irreflexive(x.name@, false);
                if j > k {
                    assert(!ranks_before(old_p[j].0, old_p[k as int].0, term));
                }
            }
        }
    }
    let ghost new_orig = orig.insert(k as int, h.len() as int);
    let ghost nh = h.push(xp);
    let ghost xv = x;
    v.insert(k, x);
    f.insert(k, x_exact);
    assert(pairs(v@) =~= old_p.insert(k as int, xp));
    assert forall|i: int, j: int| 0 <= i < j < pairs(v@).len() implies !ranks_before(
        pairs(v@)[j].0,
        pairs(v@)[i].0,
        term,
    ) by {
        if i < k && j == k {
            assert(pairs(v@)[i].0 == old_p[i].0);
            assert(old_p[i].0 == items@[i].name@);
        } else if i == k && j > k {
            assert(pairs(v@)[j].0 == old_p[j - 1].0);
        } else if i < k && j > k {
            assert(pairs(v@)[i] == old_p[i]);
            assert(pairs(v@)[j] == old_p[j - 1]);
        } else if i > k {
            assert(pairs(v@)[i] == old_p[i - 1]);
            assert(pairs(v@)[j] == old_p[j - 1]);
        } else {
            assert(pairs(v@)[i] == old_p[i]);
            assert(pairs(v@)[j] == old_p[j]);
        }
    }
    assert forall|i: int| 0 <= i < v.len() implies f@[i] == exact(#[trigger] v@[i].name@, term) by {
        if i > k {
            assert(v@[i] == items@[i - 1]);
        } else if i < k {
            assert(v@[i] == items@[i]);
        }
    }
    proof {
        to_multiset_insert(old_p, k as int, xp);
        let np = pairs(v@);
        assert forall|q: int| 0 <= q < np.len() implies 0 <= #[trigger] new_orig[q] < nh.len()
            && np[q] == nh[new_orig[q]] by {
            if q < k {
                assert(np[q] == old_p[q] && new_orig[q] == orig[q]);
            } else if q > k {
                assert(np[q] == old_p[q - 1] && new_orig[q] == orig[q - 1]);
            }
        }
        assert forall|i: int, j: int|
            0 <= i < j < np.len() && np[i].0 == np[j].0 implies #[trigger] new_orig[i]
            < #[trigger] new_orig[j] by {
            if j == k {
                assert(new_orig[i] == orig[i]);
            } else if i == k {
                assert(np[j] == old_p[j - 1]);
            } else if i < k && j > k {
                assert(np[i] == old_p[i] && np[j] == old_p[j - 1]);
                assert(new_orig[i] == orig[i] && new_orig[j] == orig[j - 1]);
            } else if i > k {
                assert(np[i] == old_p[i - 1] && np[j] == old_p[j - 1]);
                assert(new_orig[i] == orig[i - 1] && new_orig[j] == orig[j - 1]);
            } else {
                assert(np[i] == old_p[i] && np[j] == old_p[j]);
                assert(new_orig[i] == orig[i] && new_orig[j] == orig[j]);
            }
        }
    }
    (v, f, Ghost(new_orig))
}

/// The notes among the listed `files` of the vault at `root` whose stem
/// contains `term`, ignoring case; exact matches first, then by name.
pub fn search_notes_by_name(root: &str, files: &Vec<String>, term: &str) -> (r: Vec<
    NoteSearchResult,
>)
    ensures
        pairs(r@).to_multiset() == hits(root@, texts(files@), term@).to_multiset(),
        ranked(pairs(r@), term@),
        stable_ties(pairs(r@), hits(root@, texts(files@), term@)),
{
    let lower_term = lowercase(term);
    let ghost mut orig: Seq<int> = Seq::empty();
    let mut results: Vec<NoteSearchResult> = Vec::new();
    let mut flags: Vec<bool> = Vec::new();
    let mut i: usize = 0;
    proof {
        assert(texts(files@).take(0) =~= Seq::<Seq<char>>::empty());
        assert(pairs(results@) =~= Seq::<(Seq<char>, Seq<char>)>::empty());
        pairs(results@).to_multiset_ensures();
    }
    while i < files.len()
        invariant
            i <= files.len(),
            lower_term@ == lower_of(term@),
            ranked(pairs(results@), term@),
            flags.len() == results.len(),
            forall|j: int|
                0 <= j < results.len() ==> flags@[j] == exact(#[trigger] results@[j].name@, term@),
            pairs(results@).to_multiset() == hits(root@, texts(files@).take(i as int), term@).to_multiset(),
            tie_order(pairs(results@), hits(root@, texts(files@).take(i as int), term@), orig),
        decreases files.len() - i,
    {
        let path = &files[i];
        let name = file_name_of(path.as_str());
        let stem = stem_of(name.as_str());
        let lower_stem = lowercase(stem.as_str());
        assert(texts(files@).take(i + 1).drop_last() =~= texts(files@).take(i as int));
        assert(texts(files@).take(i + 1).last() == path@);
        if contains_text(lower_stem.as_str(), lower_term.as_str()) {
            let is_exact = text_eq(lower_stem.as_str(), lower_term.as_str());
            let shown = match relative_path(root, path.as_str()) {
                Some(rel) => rel,
                None => path.clone(),
            };
            let hit = NoteSearchResult { name: stem, path: shown };
            proof {
                to_multiset_build(
                    hits(root@, texts(files@).take(i as int), term@),
                    (hit.name@, hit.path@),
                );
            }
            let pair = insert_ranked(
                results,
                flags,
                hit,
                is_exact,
                Ghost(term@),
                Ghost(hits(root@, texts(files@).take(i as int), term@)),
                Ghost(orig),
            );
            results = pair.0;
            flags = pair.1;
            proof {
                orig = pair.2@;
            }
        }
        i = i + 1;
    }
    assert(texts(files@).take(files.len() as int) =~= texts(files@));
    assert(tie_order(pairs(results@), hits(root@, texts(files@), term@), orig));
    results
}

/// A text without its leading and trailing whitespace, by Unicode's rules.
pub open spec fn trimmed(s: Seq<char>) -> Seq<char> {
    trim_end(trim_start(s))
}

/// A character of Unicode's White_Space property.
pub open spec fn is_white_space(c: char) -> bool {
    ('\u{9}' <= c <= '\u{d}') || c == ' ' || c == '\u{85}' || c == '\u{a0}' || c == '\u{1680}'
        || ('\u{2000}' <= c <= '\u{200a}') || c == '\u{2028}' || c == '\u{2029}' || c
        == '\u{202f}' || c == '\u{205f}' || c == '\u{3000}'
}

/// `s` without its leading white space.
pub open spec fn trim_start(s: Seq<char>) -> Seq<char>
    decreases s.len(),
{
    if s.len() > 0 && is_white_space(s[0]) {
        trim_start(s.drop_first())
    } else {
        s
    }
}

/// `s` without its trailing white space.
pub open spec fn trim_end(s: Seq<char>) -> Seq<char>
    decreases s.len(),
{
    if s.len() > 0 && is_white_space(s.last()) {
        trim_end(s.drop_last())
    } else {
        s
    }
}

/// Relies on `str::trim`: drops leading and trailing characters of
/// Unicode's White_Space property, as its documentation states.
#[verifier::external_body]
fn trim_text(s: &str) -> (r: &str)
    ensures
        r@ == trimmed(s@),
{
    s.trim()
}

/// What a new vault's welcome note says after its heading.
pub const WELCOME_BODY: &'static str = "\n\nThis is your new Aura vault! Start taking notes by creating new markdown files.\n\n## Getting Started\n\n- Create new notes by clicking the + button\n- Organize your thoughts in folders\n- All your notes are stored as plain markdown files\n\nHappy note-taking! \u{2728}\n";

/// The folder name for a new vault called `name`: the name without
/// surrounding whitespace; `InvalidInput` when nothing is left.
pub fn new_vault_folder(name: &str) -> (r: Result<String, Failure>)
    ensures
        trimmed(name@).len() == 0 ==> r == Err::<String, Failure>(Failure::InvalidInput),
        trimmed(name@).len() > 0 ==> (r matches Ok(s) && s@ == trimmed(name@)),
{
    let t = trim_text(name);
    if t.unicode_len() == 0 {
        Err(Failure::InvalidInput)
    } else {
        Ok(t.to_owned())
    }
}

/// The welcome note of a new vault called `name`.
pub fn welcome_note(name: &str) -> (r: String)
    ensures
        r@ == "# Welcome to "@ + name@ + WELCOME_BODY@,
{
    "# Welcome to ".to_owned().concat(name).concat(WELCOME_BODY)
}

/// `p` without what `Path::components` drops at its end: trailing
/// separators and trailing `.` segments after a separator.
pub open spec fn strip_tail(p: Seq<char>) -> Seq<char>
    decreases p.len(),
{
    if p.len() > 0 && p.last() == '/' {
        strip_tail(p.drop_last())
    } else if p.len() >= 2 && p.last() == '.' && p[p.len() - 2] == '/' {
        strip_tail(p.drop_last())
    } else {
        p
    }
}

/// The last segment of a path as `Path::file_name` gives it: trailing
/// separators and `.` segments are skipped, and there is none for an empty
/// path, the root, or a path that ends in `.` or `..` as its only or last
/// segment.
pub open spec fn last_segment(p: Seq<char>) -> Option<Seq<char>> {
    let name = file_name(strip_tail(p));
    if name.len() == 0 || name == "."@ || name == ".."@ {
        None
    } else {
        Some(name)
    }
}

/// `p` without its trailing separators and trailing `.` segments.
fn strip_tail_of(p: &str) -> (r: &str)
    ensures
        r@ == strip_tail(p@),
{
    let mut n = p.unicode_len();
    assert(p@.take(n as int) =~= p@);
    while n > 0 && (p.get_char(n - 1) == '/' || (n >= 2 && p.get_char(n - 1) == '.' && p.get_char(
        n - 2,
    ) == '/'))
        invariant
            n <= p@.len(),
            strip_tail(p@) == strip_tail(p@.take(n as int)),
        decreases n,
    {
        assert(p@.take(n as int).drop_last() =~= p@.take(n - 1));
        n = n - 1;
    }
    assert(strip_tail(p@.take(n as int)) == p@.take(n as int));
    p.substring_char(0, n)
}

/// The last segment of `p`, if it has one.
pub fn last_segment_of(p: &str) -> (r: Option<String>)
    ensures
        opt_text(r) == last_segment(p@),
{
    let name = file_name_of(strip_tail_of(p));
    if name.as_str().unicode_len() == 0 || text_eq(name.as_str(), ".") || text_eq(name.as_str(), "..") {
        None
    } else {
        Some(name)
    }
}

/// The heading that a new note at `path` starts with: the stem of its last
/// segment, or `Untitled` when it has none.
pub fn new_note_content(path: &str) -> (r: String)
    ensures
        r@ == "# "@ + match last_segment(path@) {
            Some(n) => stem(n),
            None => "Untitled"@,
        },
{
    match last_segment_of(path) {
        Some(name) => "# ".to_owned().concat(stem_of(name.as_str()).as_str()),
        None => "# ".to_owned().concat("Untitled"),
    }
}

/// The display name of the vault at `path`: its last segment, or
/// `Untitled` when there is none.
pub fn vault_name(path: &str) -> (r: String)
    ensures
        r@ == match last_segment(path@) {
            Some(n) => n,
            None => "Untitled"@,
        },
{
    match last_segment_of(path) {
        Some(name) => name,
        None => "Untitled".to_owned(),
    }
}

/// The file name of a chat exported at `timestamp`.
pub fn chat_export_name(timestamp: &str) -> (r: String)
    ensures
        r@ == "chat-"@ + timestamp@ + ".md"@,
{
    "chat-".to_owned().concat(timestamp).concat(".md")
}

/// The vault-relative path that an exported chat called `name` is saved to.
pub fn chat_export_path(name: &str) -> (r: String)
    ensures
        r@ == "Chat History/"@ + name@,
{
    "Chat History/".to_owned().concat(name)
}

} // verus!
