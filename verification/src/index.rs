//! Building the listing model for a directory: filtering out dotfiles,
//! translating each child's filesystem path into URL space, formatting sizes
//! and ages, sorting entries (directories first, then names ascending), and
//! computing the navigation metadata (base directory, parent link,
//! breadcrumbs).
//!
//! Paths live in two vocabularies: URL space (client-visible, rooted at `/`)
//! and filesystem space (rooted at the host's tree). Both are modeled as
//! sequences of path segments; the dispatcher enumerates the directory and
//! hands each child's raw facts in, and receives the assembled model back.

use vstd::prelude::*;

verus! {

use vstd::seq_lib::group_to_multiset_ensures;
use vstd::multiset::group_multiset_axioms;
use crate::humanize::{spec_format_byte_size, format_byte_size, age_phrase_of, format_age};
use crate::order::{lex_leq, lemma_lex_total, lemma_lex_trans, str_lex_le};

/// The raw facts the dispatcher reads from one directory child: its
/// filesystem name, kind flags, size in bytes, and the seconds elapsed since
/// its last-modified-or-accessed timestamp, where the filesystem exposes
/// one.
pub struct RawEntry {
    pub name: String,
    pub is_directory: bool,
    pub is_symlink: bool,
    pub size: u64,
    pub elapsed_secs: Option<u64>,
}

/// The mathematical image of a raw directory child.
pub ghost struct RawEntryView {
    pub name: Seq<char>,
    pub is_directory: bool,
    pub is_symlink: bool,
    pub size: u64,
    pub elapsed_secs: Option<u64>,
}

impl View for RawEntry {
    type V = RawEntryView;

    open spec fn view(&self) -> RawEntryView {
        RawEntryView {
            name: self.name@,
            is_directory: self.is_directory,
            is_symlink: self.is_symlink,
            size: self.size,
            elapsed_secs: self.elapsed_secs,
        }
    }
}

/// One rendered child of a listed directory: original name, kind flags, the
/// human-formatted size, the URL-space path clients navigate to, and the
/// formatted age, where a timestamp was available.
pub struct DirEntry {
    pub name: String,
    pub is_directory: bool,
    pub size: String,
    pub is_symlink: bool,
    pub path: String,
    pub last_modified: Option<String>,
}

/// The mathematical image of a rendered entry.
pub ghost struct DirEntryView {
    pub name: Seq<char>,
    pub is_directory: bool,
    pub size: Seq<char>,
    pub is_symlink: bool,
    pub path: Seq<char>,
    pub last_modified: Option<Seq<char>>,
}

impl View for DirEntry {
    type V = DirEntryView;

    open spec fn view(&self) -> DirEntryView {
        DirEntryView {
            name: self.name@,
            is_directory: self.is_directory,
            size: self.size@,
            is_symlink: self.is_symlink,
            path: self.path@,
            last_modified: (match self.last_modified {
                Some(s) => Some(s@),
                None => None,
            }),
        }
    }
}

/// The assembled view for a directory request: the ordered entries, the
/// URL-space base directory being listed, the parent link (absent exactly
/// for the root), and the breadcrumb segment names.
pub struct ListingModel {
    pub entries: Vec<DirEntry>,
    pub parent: Option<String>,
    pub base_dir: String,
    pub breadcrumbs: Vec<String>,
}

/// The listing order: directories before files, and by name, code point
/// ascending, within the same kind.
pub open spec fn entry_leq(a: DirEntryView, b: DirEntryView) -> bool {
    if a.is_directory != b.is_directory {
        a.is_directory
    } else {
        lex_leq(a.name, b.name)
    }
}

/// Whether a sequence of entries is sorted in listing order.
pub open spec fn entries_sorted(s: Seq<DirEntryView>) -> bool {
    forall|i: int, j: int| 0 <= i < j < s.len() ==> #[trigger] entry_leq(s[i], s[j])
}

/// In a sequence sorted in listing order, every directory precedes every
/// file: no file ever stands before a directory.
pub proof fn lemma_directories_first(s: Seq<DirEntryView>)
    requires
        entries_sorted(s),
    ensures
        forall|i: int, j: int|
            0 <= i < j < s.len() && s[j].is_directory ==> (#[trigger] s[i]).is_directory
                && (#[trigger] s[j]).is_directory,
{
    assert forall|i: int, j: int|
        0 <= i < j < s.len() && s[j].is_directory implies (#[trigger] s[i]).is_directory && (
    #[trigger] s[j]).is_directory by {
        assert(entry_leq(s[i], s[j]));
    }
}

/// The views of a sequence of rendered entries.
pub open spec fn entry_views(s: Seq<DirEntry>) -> Seq<DirEntryView> {
    s.map_values(|e: DirEntry| e@)
}

/// The views of a sequence of raw children.
pub open spec fn raw_views(s: Seq<RawEntry>) -> Seq<RawEntryView> {
    s.map_values(|e: RawEntry| e@)
}

proof fn lemma_entry_total(a: DirEntryView, b: DirEntryView)
    ensures
        entry_leq(a, b) || entry_leq(b, a),
{
    if a.is_directory == b.is_directory {
        lemma_lex_total(a.name, b.name);
    }
}

proof fn lemma_entry_trans(a: DirEntryView, b: DirEntryView, c: DirEntryView)
    requires
        entry_leq(a, b),
        entry_leq(b, c),
    ensures
        entry_leq(a, c),
{
    if a.is_directory == b.is_directory && b.is_directory == c.is_directory {
        lemma_lex_trans(a.name, b.name, c.name);
    }
}

/// The URL-space segments `/a/b/c` render as: each segment prefixed by a
/// slash.
pub open spec fn joined(segs: Seq<Seq<char>>) -> Seq<char>
    decreases segs.len(),
{
    if segs.len() == 0 {
        Seq::empty()
    } else {
        joined(segs.drop_last()) + seq!['/'] + segs.last()
    }
}

/// The URL-space rendering of a segment path; the empty path (the root)
/// renders as `/`.
pub open spec fn url_of(segs: Seq<Seq<char>>) -> Seq<char> {
    if segs.len() == 0 {
        seq!['/']
    } else {
        joined(segs)
    }
}

/// Whether `p` is a (not necessarily proper) segment-wise prefix of `q`.
pub open spec fn seg_prefix(p: Seq<Seq<char>>, q: Seq<Seq<char>>) -> bool {
    p.len() <= q.len() && p == q.subrange(0, p.len() as int)
}

/// A filesystem path expressed relative to the root: the root prefix is
/// stripped; a path not under the root is kept as it stands (which the
/// resolver rules out, but a listing must not fail on it).
pub open spec fn rel_of(fs: Seq<Seq<char>>, root: Seq<Seq<char>>) -> Seq<Seq<char>> {
    if seg_prefix(root, fs) {
        fs.subrange(root.len() as int, fs.len() as int)
    } else {
        fs
    }
}

/// Whether a name is shown in a listing: dotfiles are excluded entirely.
pub open spec fn visible_name(n: Seq<char>) -> bool {
    n.len() == 0 || n[0] != '.'
}

/// The rendered image of one raw child of the directory whose root-relative
/// segments are `rel`.
pub open spec fn rendered(r: RawEntryView, rel: Seq<Seq<char>>) -> DirEntryView {
    DirEntryView {
        name: r.name,
        is_directory: r.is_directory,
        size: spec_format_byte_size(r.size),
        is_symlink: r.is_symlink,
        path: url_of(rel.push(r.name)),
        last_modified: (match r.elapsed_secs {
            Some(s) => Some(age_phrase_of(s)),
            None => None,
        }),
    }
}

/// The rendered entries of a directory's raw children, in reading order,
/// dotfiles excluded.
pub open spec fn listed(raw: Seq<RawEntryView>, rel: Seq<Seq<char>>) -> Seq<DirEntryView>
    decreases raw.len(),
{
    if raw.len() == 0 {
        Seq::empty()
    } else if visible_name(raw.last().name) {
        listed(raw.drop_last(), rel).push(rendered(raw.last(), rel))
    } else {
        listed(raw.drop_last(), rel)
    }
}

proof fn lemma_listed_visible(raw: Seq<RawEntryView>, rel: Seq<Seq<char>>)
    ensures
        forall|i: int|
            0 <= i < listed(raw, rel).len() ==> visible_name(#[trigger] listed(raw, rel)[i].name),
    decreases raw.len(),
{
    if raw.len() > 0 {
        lemma_listed_visible(raw.drop_last(), rel);
    }
}

fn joined_prefix(segs: &Vec<String>, n: usize) -> (r: String)
    requires
        n <= segs@.len(),
    ensures
        r@ == joined(segs.deep_view().subrange(0, n as int)),
{
    let mut s = String::new();
    let mut i: usize = 0;
    while i < n
        invariant
            i <= n <= segs@.len(),
            s@ == joined(segs.deep_view().subrange(0, i as int)),
        decreases n - i,
    {
        s.append("/");
        s.append(segs[i].as_str());
        proof {
            reveal_strlit("/");
            assert("/"@ =~= seq!['/']);
            assert(segs.deep_view().subrange(0, i + 1).drop_last() =~= segs.deep_view().subrange(
                0,
                i as int,
            ));
            assert(segs.deep_view().subrange(0, i + 1).last() == segs@[i as int]@);
            assert(s@ =~= joined(segs.deep_view().subrange(0, i + 1)));
        }
        i = i + 1;
    }
    s
}

/// Renders the first `n` segments as a URL-space path.
fn url_of_prefix(segs: &Vec<String>, n: usize) -> (r: String)
    requires
        n <= segs@.len(),
    ensures
        r@ == url_of(segs.deep_view().subrange(0, n as int)),
{
    if n == 0 {
        let s = String::from_str("/");
        proof {
            reveal_strlit("/");
            assert("/"@ =~= seq!['/']);
            assert(segs.deep_view().subrange(0, 0).len() == 0);
        }
        s
    } else {
        joined_prefix(segs, n)
    }
}

fn url_join_with(segs: &Vec<String>, name: &String) -> (r: String)
    ensures
        r@ == url_of(segs.deep_view().push(name@)),
{
    let mut s = joined_prefix(segs, segs.len());
    s.append("/");
    s.append(name.as_str());
    proof {
        reveal_strlit("/");
        assert("/"@ =~= seq!['/']);
        assert(segs.deep_view().subrange(0, segs@.len() as int) =~= segs.deep_view());
        let p = segs.deep_view().push(name@);
        assert(p.drop_last() =~= segs.deep_view());
        assert(p.last() == name@);
        assert(s@ =~= joined(p));
    }
    s
}

fn entry_le(a: &DirEntry, b: &DirEntry) -> (r: bool)
    ensures
        r == entry_leq(a@, b@),
{
    if a.is_directory != b.is_directory {
        a.is_directory
    } else {
        str_lex_le(a.name.as_str(), b.name.as_str())
    }
}

fn insert_sorted(out: &mut Vec<DirEntry>, e: DirEntry)
    requires
        entries_sorted(entry_views(old(out)@)),
    ensures
        entries_sorted(entry_views(final(out)@)),
        entry_views(final(out)@).to_multiset() == entry_views(old(out)@).to_multiset().insert(e@),
{
    let ghost ov = entry_views(old(out)@);
    // the element goes before any equal one already present; the caller
    // feeds entries in reverse reading order, so equal keys keep it
    let mut p: usize = 0;
    while p < out.len()
        invariant
            *out == *old(out),
            p <= out@.len(),
            forall|k: int| 0 <= k < p ==> !entry_leq(e@, #[trigger] entry_views(out@)[k]),
        ensures
            *out == *old(out),
            p <= out@.len(),
            forall|k: int| 0 <= k < p ==> !entry_leq(e@, #[trigger] entry_views(out@)[k]),
            p < out@.len() ==> entry_leq(e@, entry_views(out@)[p as int]),
        decreases out@.len() - p,
    {
        if entry_le(&e, &out[p]) {
            break ;
        } else {
            p = p + 1;
        }
    }
    out.insert(p, e);
    proof {
        broadcast use group_to_multiset_ensures;
        broadcast use group_multiset_axioms;

        let nv = entry_views(out@);
        assert(out@ == old(out)@.insert(p as int, e));
        assert(nv =~= ov.insert(p as int, e@)) by {
            assert(forall|i: int|
                0 <= i < p ==> out@[i] == old(out)@[i] && ov.insert(p as int, e@)[i] == ov[i]);
            assert(out@[p as int] == e);
            assert(forall|i: int|
                p < i < out@.len() ==> out@[i] == old(out)@[i - 1] && ov.insert(p as int, e@)[i]
                    == ov[i - 1]);
        }
        assert(nv.to_multiset() == ov.to_multiset().insert(e@));
        assert forall|k: int| 0 <= k < p implies entry_leq(ov[k], e@) by {
            lemma_entry_total(ov[k], e@);
        }
        assert forall|i: int, j: int| 0 <= i < j < nv.len() implies #[trigger] entry_leq(
            nv[i],
            nv[j],
        ) by {
            if j < p {
                assert(entry_leq(ov[i], ov[j]));
            } else if j == p {
                assert(entry_leq(ov[i], e@));
            } else if i < p {
                assert(entry_leq(ov[i], ov[j - 1]));
            } else if i == p {
                assert(entry_leq(e@, ov[p as int]));
                if j - 1 > p {
                    assert(entry_leq(ov[p as int], ov[j - 1]));
                    lemma_entry_trans(e@, ov[p as int], ov[j - 1]);
                }
            } else {
                assert(entry_leq(ov[i - 1], ov[j - 1]));
            }
        }
    }
}

fn sort_entries(entries: Vec<DirEntry>) -> (out: Vec<DirEntry>)
    ensures
        entries_sorted(entry_views(out@)),
        entry_views(out@).to_multiset() == entry_views(entries@).to_multiset(),
{
    let ghost orig = entries@;
    let mut src = entries;
    let mut out: Vec<DirEntry> = Vec::new();
    proof {
        broadcast use group_multiset_axioms;

        assert(entry_views(out@).len() == 0);
        assert(entry_views(out@).to_multiset().add(entry_views(src@).to_multiset())
            =~= entry_views(orig).to_multiset()) by {
            broadcast use group_to_multiset_ensures;

            assert forall|x: DirEntryView| entry_views(out@).to_multiset().count(x) == 0 by {
                if entry_views(out@).to_multiset().count(x) > 0 {
                    assert(entry_views(out@).contains(x));
                }
            }
        }
    }
    while src.len() > 0
        invariant
            entries_sorted(entry_views(out@)),
            entry_views(out@).to_multiset().add(entry_views(src@).to_multiset()) == entry_views(
                orig,
            ).to_multiset(),
        decreases src@.len(),
    {
        let ghost prev = src@;
        let ghost pout = entry_views(out@);
        let e = match src.pop() {
            Some(e) => e,
            None => {
                proof {
                    assert(false);
                }
                return out;
            },
        };
        proof {
            broadcast use group_to_multiset_ensures;
            broadcast use group_multiset_axioms;

            assert(prev =~= src@.push(e));
            assert(entry_views(prev) =~= entry_views(src@).push(e@));
            assert(entry_views(prev).to_multiset() == entry_views(src@).to_multiset().insert(e@));
        }
        insert_sorted(&mut out, e);
        proof {
            broadcast use group_multiset_axioms;

            assert(entry_views(out@).to_multiset().add(entry_views(src@).to_multiset())
                =~= entry_views(orig).to_multiset()) by {
                assert(entry_views(out@).to_multiset() == pout.to_multiset().insert(e@));
                assert(pout.to_multiset().add(entry_views(src@).to_multiset().insert(e@))
                    == entry_views(orig).to_multiset());
            }
        }
    }
    proof {
        broadcast use group_to_multiset_ensures;
        broadcast use group_multiset_axioms;

        assert(entry_views(src@).len() == 0);
        assert forall|x: DirEntryView| entry_views(src@).to_multiset().count(x) == 0 by {
            if entry_views(src@).to_multiset().count(x) > 0 {
                assert(entry_views(src@).contains(x));
            }
        }
        assert(entry_views(out@).to_multiset().add(entry_views(src@).to_multiset())
            =~= entry_views(out@).to_multiset());
    }
    out
}

/// A directory about to be listed: the request's URL-space path, the
/// directory's filesystem path, and the configured root, each as segments.
pub struct DirectoryIndex {
    pub url_path: Vec<String>,
    pub fs_path: Vec<String>,
    pub root_dir: Vec<String>,
}

impl DirectoryIndex {
    /// Binds the URL-space path, the resolved filesystem path, and the
    /// configured root for one listing request.
    pub fn new(url_path: Vec<String>, fs_path: Vec<String>, root_dir: Vec<String>) -> (r:
        DirectoryIndex)
        ensures
            r.url_path == url_path,
            r.fs_path == fs_path,
            r.root_dir == root_dir,
    {
        DirectoryIndex { url_path, fs_path, root_dir }
    }

    fn relative_dir(&self) -> (r: Vec<String>)
        ensures
            r.deep_view() == rel_of(self.fs_path.deep_view(), self.root_dir.deep_view()),
    {
        let fsv = &self.fs_path;
        let rootv = &self.root_dir;
        let ghost fs = fsv.deep_view();
        let ghost root = rootv.deep_view();
        let mut is_pref = rootv.len() <= fsv.len();
        if is_pref {
            let mut i: usize = 0;
            while i < rootv.len()
                invariant
                    rootv@.len() <= fsv@.len(),
                    fs == fsv.deep_view(),
                    root == rootv.deep_view(),
                    i <= rootv@.len(),
                    forall|k: int| 0 <= k < i ==> root[k] == fs[k],
                ensures
                    i <= rootv@.len(),
                    forall|k: int| 0 <= k < i ==> root[k] == fs[k],
                    i < rootv@.len() ==> root[i as int] != fs[i as int],
                decreases rootv@.len() - i,
            {
                if !(rootv[i] == fsv[i]) {
                    break ;
                }
                i = i + 1;
            }
            is_pref = i == rootv.len();
            proof {
                if i == rootv@.len() {
                    assert(root =~= fs.subrange(0, root.len() as int));
                } else {
                    assert(fs.subrange(0, root.len() as int)[i as int] == fs[i as int]);
                }
            }
        } else {
            proof {
                assert(!seg_prefix(root, fs));
            }
        }
        let start: usize = if is_pref {
            rootv.len()
        } else {
            0
        };
        let mut rel: Vec<String> = Vec::new();
        let mut i: usize = start;
        while i < fsv.len()
            invariant
                start <= i <= fsv@.len(),
                fs == fsv.deep_view(),
                rel.deep_view() =~= fs.subrange(start as int, i as int),
            decreases fsv@.len() - i,
        {
            let c = fsv[i].clone();
            proof {
                assert(c@ == fs[i as int]);
            }
            let ghost prev = rel.deep_view();
            rel.push(c);
            proof {
                assert(rel.deep_view() =~= prev.push(c@)) by {
                    assert(forall|k: int|
                        0 <= k < prev.len() ==> #[trigger] rel.deep_view()[k] == prev[k]);
                }
                assert(prev.push(c@) =~= fs.subrange(start as int, i + 1));
            }
            i = i + 1;
        }
        proof {
            if is_pref {
                assert(rel.deep_view() =~= fs.subrange(root.len() as int, fs.len() as int));
            } else {
                assert(rel.deep_view() =~= fs);
            }
        }
        rel
    }

    /// Assembles the listing model from the directory's raw children.
    ///
    /// The entries keep exactly the children whose names do not start with a
    /// dot, rendered with formatted size, URL-space path and age, and come
    /// sorted: directories before files, names ascending within each kind.
    /// The base directory is the listed directory relative to the root,
    /// rendered in URL space; the parent link is absent exactly for a root
    /// listing; the breadcrumbs are the request path's segments.
    pub fn build_listing(&self, raw: Vec<RawEntry>, is_root: bool) -> (m: ListingModel)
        ensures
            entries_sorted(entry_views(m.entries@)),
            entry_views(m.entries@).to_multiset() == listed(
                raw_views(raw@),
                rel_of(self.fs_path.deep_view(), self.root_dir.deep_view()),
            ).to_multiset(),
            forall|i: int|
                0 <= i < m.entries@.len() ==> visible_name(
                    #[trigger] entry_views(m.entries@)[i].name,
                ),
            m.base_dir@ == url_of(rel_of(self.fs_path.deep_view(), self.root_dir.deep_view())),
            m.parent is Some <==> !is_root && self.url_path@.len() > 0,
            m.parent is Some ==> m.parent->0@ == url_of(self.url_path.deep_view().drop_last()),
            m.breadcrumbs.deep_view() == self.url_path.deep_view(),
    {
        let rel = self.relative_dir();
        let ghost relv = rel.deep_view();
        let mut kept: Vec<DirEntry> = Vec::new();
        let mut i: usize = 0;
        while i < raw.len()
            invariant
                i <= raw@.len(),
                relv == rel.deep_view(),
                rel.deep_view() == rel_of(self.fs_path.deep_view(), self.root_dir.deep_view()),
                entry_views(kept@) == listed(raw_views(raw@.subrange(0, i as int)), relv),
            decreases raw@.len() - i,
        {
            let entry = &raw[i];
            proof {
                assert(raw_views(raw@.subrange(0, i + 1)).drop_last() =~= raw_views(
                    raw@.subrange(0, i as int),
                ));
                assert(raw_views(raw@.subrange(0, i + 1)).last() == entry@);
            }
            let name_len = entry.name.as_str().unicode_len();
            let hidden = name_len > 0 && entry.name.as_str().get_char(0) == '.';
            if !hidden {
                let de = DirEntry {
                    name: entry.name.clone(),
                    is_directory: entry.is_directory,
                    size: format_byte_size(entry.size),
                    is_symlink: entry.is_symlink,
                    path: url_join_with(&rel, &entry.name),
                    last_modified: (match entry.elapsed_secs {
                        Some(s) => Some(format_age(s)),
                        None => None,
                    }),
                };
                proof {
                    assert(de@ == rendered(entry@, relv));
                }
                kept.push(de);
                proof {
                    assert(entry_views(kept@) =~= listed(raw_views(raw@.subrange(0, i + 1)), relv));
                }
            } else {
                proof {
                    assert(!visible_name(entry@.name));
                    assert(entry_views(kept@) =~= listed(raw_views(raw@.subrange(0, i + 1)), relv));
                }
            }
            i = i + 1;
        }
        proof {
            assert(raw@.subrange(0, raw@.len() as int) =~= raw@);
        }
        let sorted = sort_entries(kept);
        proof {
            broadcast use group_to_multiset_ensures;

            lemma_listed_visible(raw_views(raw@), relv);
            assert forall|k: int| 0 <= k < sorted@.len() implies visible_name(
                #[trigger] entry_views(sorted@)[k].name,
            ) by {
                let x = entry_views(sorted@)[k];
                assert(entry_views(sorted@).contains(x));
                assert(entry_views(sorted@).to_multiset().count(x) > 0);
                assert(listed(raw_views(raw@), relv).contains(x));
                let j = choose|j: int|
                    0 <= j < listed(raw_views(raw@), relv).len() && listed(raw_views(raw@), relv)[j]
                        == x;
                assert(visible_name(listed(raw_views(raw@), relv)[j].name));
            }
        }
        let base_dir = url_of_prefix(&rel, rel.len());
        proof {
            assert(rel.deep_view().subrange(0, rel@.len() as int) =~= relv);
        }
        let parent: Option<String> = if is_root || self.url_path.len() == 0 {
            None
        } else {
            let p = url_of_prefix(&self.url_path, self.url_path.len() - 1);
            proof {
                assert(self.url_path.deep_view().subrange(
                    0,
                    self.url_path@.len() - 1,
                ) =~= self.url_path.deep_view().drop_last());
            }
            Some(p)
        };
        let mut breadcrumbs: Vec<String> = Vec::new();
        let mut i: usize = 0;
        while i < self.url_path.len()
            invariant
                i <= self.url_path@.len(),
                breadcrumbs.deep_view() =~= self.url_path.deep_view().subrange(0, i as int),
            decreases self.url_path@.len() - i,
        {
            let c = self.url_path[i].clone();
            proof {
                assert(c@ == self.url_path.deep_view()[i as int]);
            }
            let ghost prev = breadcrumbs.deep_view();
            breadcrumbs.push(c);
            proof {
                assert(breadcrumbs.deep_view() =~= prev.push(c@)) by {
                    assert(forall|k: int|
                        0 <= k < prev.len() ==> #[trigger] breadcrumbs.deep_view()[k] == prev[k]);
                }
                assert(prev.push(c@) =~= self.url_path.deep_view().subrange(0, i + 1));
            }
            i = i + 1;
        }
        proof {
            assert(breadcrumbs.deep_view() =~= self.url_path.deep_view());
        }
        ListingModel { entries: sorted, parent, base_dir, breadcrumbs }
    }
}

} // verus!
