//! The index of shared files: which files a search term matches, and which
//! files and folders a peer may see.
//!
//! A search term is lowercased and cut into alphanumeric words.  A file
//! matches when every plain word of the term is among the words of its
//! folder or its name, each word marked with `*` ends some word of the
//! file, and no word marked with `-` is a word of the file.
use vstd::prelude::*;

use crate::client::users::{key_position, keys_unique, lemma_lookup_at, lookup};
use crate::protocol::listing::{
    file_name_key, file_view, files_view, folder_dir_key, folders_view, sort_files_by_name,
    sort_folders_by_directory, stable_sort_by_key, FileView, FolderView,
};
use crate::protocol::wire::chars_of;
use crate::text::{
    alnum_words, chars_contain, chars_end_with, chars_eq, ends_with, lowercase, lowercase_of,
    occurs_in, slice_range, split_alnum, split_words_ws, utf8_len, words,
};
use crate::types::{FileAttributes, FileInfo, FolderContents};

verus! {

/// Most results a search answers with.
pub const MAX_SEARCH_RESULTS: usize = 300;

/// Search terms shorter than this many bytes match nothing.
pub const MIN_SEARCH_CHARS: usize = 3;

/// A scanned folder: its virtual path, its files sorted by name, and
/// whether only buddies see it.
pub struct ScannedFolder {
    pub virtual_path: String,
    pub files: Vec<FileInfo>,
    pub buddy_only: bool,
}

/// A shared file: where peers know it, where it is on disk, and what it
/// holds.
pub struct FileEntry {
    pub virtual_path: String,
    pub real_path: String,
    pub size: u64,
    pub attributes: FileAttributes,
    pub buddy_only: bool,
}

/// The shared folders and files, with their lookups by path and by word.
pub struct SharesIndex {
    folders: Vec<ScannedFolder>,
    folder_lookup: Vec<(String, usize)>,
    files: Vec<FileEntry>,
    paths: Vec<(String, u32)>,
    paths_lower: Vec<(String, u32)>,
    word_index: Vec<(String, Vec<u32>)>,
}

// ---------------------------------------------------------------------
// Search terms
// ---------------------------------------------------------------------

/// The alphanumeric words of the whitespace-separated words that start
/// with `mark`, the mark left out.
pub open spec fn marked_from(ws: Seq<Seq<char>>, mark: char) -> Seq<Seq<char>>
    decreases ws.len(),
{
    if ws.len() == 0 {
        Seq::empty()
    } else {
        marked_from(ws.drop_last(), mark) + if ws.last().len() > 0 && ws.last()[0] == mark {
            alnum_words(ws.last().drop_first())
        } else {
            Seq::empty()
        }
    }
}

/// Words a result must not hold: those of `-word` in the lowercased term.
pub open spec fn excluded_words(t: Seq<char>) -> Seq<Seq<char>> {
    marked_from(words(t), '-')
}

/// Word endings a result must hold: those of `*word` in the lowercased term.
pub open spec fn partial_words(t: Seq<char>) -> Seq<Seq<char>> {
    marked_from(words(t), '*')
}

/// A word a result must hold: a word of the lowercased term that is
/// neither excluded nor partial.
pub open spec fn included_word(t: Seq<char>, x: Seq<char>) -> bool {
    alnum_words(t).contains(x) && !excluded_words(t).contains(x) && !partial_words(t).contains(x)
}

/// The view of a search result: the file's full virtual path as its name.
pub open spec fn result_view(e: FileEntry) -> FileView {
    (1u8, e.virtual_path@, e.size, e.attributes)
}

/// The view of a scanned folder as a listing.
pub open spec fn scanned_view(f: ScannedFolder) -> FolderView {
    (f.virtual_path@, files_view(f.files@))
}

/// The folders a peer sees, in order.
pub open spec fn visible_folders(fs: Seq<ScannedFolder>, is_buddy: bool) -> Seq<FolderView>
    decreases fs.len(),
{
    if fs.len() == 0 {
        Seq::empty()
    } else {
        visible_folders(fs.drop_last(), is_buddy) + if is_buddy || !fs.last().buddy_only {
            seq![scanned_view(fs.last())]
        } else {
            Seq::empty()
        }
    }
}

/// Number of folders that are not for buddies only.
pub open spec fn public_folder_count(fs: Seq<ScannedFolder>) -> nat
    decreases fs.len(),
{
    if fs.len() == 0 {
        0
    } else {
        public_folder_count(fs.drop_last()) + if fs.last().buddy_only {
            0nat
        } else {
            1nat
        }
    }
}

/// Number of files that are not for buddies only.
pub open spec fn public_file_count(fs: Seq<FileEntry>) -> nat
    decreases fs.len(),
{
    if fs.len() == 0 {
        0
    } else {
        public_file_count(fs.drop_last()) + if fs.last().buddy_only {
            0nat
        } else {
            1nat
        }
    }
}

impl SharesIndex {
    pub closed spec fn folder_list(&self) -> Seq<ScannedFolder> {
        self.folders@
    }

    pub closed spec fn file_list(&self) -> Seq<FileEntry> {
        self.files@
    }

    /// The folder with this virtual path.
    pub closed spec fn folder_at(&self, dir: Seq<char>) -> Option<usize> {
        lookup(self.folder_lookup@, dir)
    }

    /// The first file shared whose lowercased virtual path this is.
    pub closed spec fn file_at(&self, lower: Seq<char>) -> Option<u32> {
        lookup(self.paths_lower@, lower)
    }

    /// The file with exactly this virtual path.
    pub closed spec fn exact_file_at(&self, path: Seq<char>) -> Option<u32> {
        lookup(self.paths@, path)
    }

    /// The file a virtual path names: the one with exactly that path, else
    /// the first one whose path is the same but for case.
    pub open spec fn resolved(&self, path: Seq<char>) -> Option<u32> {
        match self.exact_file_at(path) {
            Some(f) => Some(f),
            None => self.file_at(lowercase_of(path)),
        }
    }

    /// Whether a word is indexed.
    pub closed spec fn indexed(&self, w: Seq<char>) -> bool {
        lookup(self.word_index@, w) is Some
    }

    /// The files holding a word, in the order they were indexed.
    pub closed spec fn postings(&self, w: Seq<char>) -> Seq<u32> {
        match lookup(self.word_index@, w) {
            Some(p) => p@,
            None => Seq::empty(),
        }
    }

    /// Lookups hold each key once and point at existing folders and files.
    pub closed spec fn wf(&self) -> bool {
        &&& keys_unique(self.folder_lookup@)
        &&& keys_unique(self.paths@)
        &&& keys_unique(self.paths_lower@)
        &&& keys_unique(self.word_index@)
        &&& self.files@.len() <= u32::MAX
        &&& forall|i: int| 0 <= i < self.folder_lookup@.len() ==> #[trigger] self.folder_lookup@[i].1
            < self.folders@.len()
        &&& forall|i: int| 0 <= i < self.paths@.len() ==> #[trigger] self.paths@[i].1
            < self.files@.len()
        &&& forall|i: int| 0 <= i < self.paths_lower@.len() ==> #[trigger] self.paths_lower@[i].1
            < self.files@.len()
        &&& forall|i: int, j: int|
            0 <= i < self.word_index@.len() && 0 <= j < self.word_index@[i].1@.len()
                ==> #[trigger] self.word_index@[i].1@[j] < self.files@.len()
    }

    /// Whether file `f` matches the lowercased term `t`, before the
    /// permissions and excluded phrases are applied.
    pub open spec fn matches(&self, t: Seq<char>, f: u32) -> bool {
        &&& exists|x: Seq<char>| #[trigger] included_word(t, x)
        &&& forall|x: Seq<char>| #[trigger] included_word(t, x) ==> self.postings(x).contains(f)
        &&& forall|p: Seq<char>| #[trigger] partial_words(t).contains(p) ==> exists|w: Seq<char>|
            #[trigger] self.indexed(w) && ends_with(w, p) && self.postings(w).contains(f)
        &&& forall|e: Seq<char>| #[trigger] excluded_words(t).contains(e) ==> !self.postings(
            e,
        ).contains(f)
    }

    /// Whether file `f` is a result of the lowercased term `t` for this
    /// peer: it matches, the peer may see it, and its lowercased path
    /// holds none of the excluded phrases.
    pub open spec fn hit(&self, t: Seq<char>, is_buddy: bool, phrases: Seq<Seq<char>>, f: int) -> bool {
        &&& 0 <= f < self.file_list().len()
        &&& self.matches(t, f as u32)
        &&& is_buddy || !self.file_list()[f].buddy_only
        &&& forall|k: int| 0 <= k < phrases.len() ==> !occurs_in(
            lowercase_of(self.file_list()[f].virtual_path@),
            #[trigger] phrases[k],
        )
    }

    /// The results among the first `n` files, in index order.
    pub open spec fn hits_upto(&self, t: Seq<char>, is_buddy: bool, phrases: Seq<Seq<char>>, n: int) -> Seq<
        int,
    >
        decreases n,
    {
        if n <= 0 {
            Seq::empty()
        } else if self.hit(t, is_buddy, phrases, n - 1) {
            self.hits_upto(t, is_buddy, phrases, n - 1).push(n - 1)
        } else {
            self.hits_upto(t, is_buddy, phrases, n - 1)
        }
    }

    /// What a search of lowercased term `t` answers: the first results in
    /// index order, at most `max`, sorted by name.
    pub open spec fn search_view(&self, t: Seq<char>, is_buddy: bool, phrases: Seq<Seq<char>>, max: usize) -> Seq<
        FileView,
    > {
        let hits = self.hits_upto(t, is_buddy, phrases, self.file_list().len() as int);
        let kept = if hits.len() <= max {
            hits
        } else {
            hits.take(max as int)
        };
        stable_sort_by_key(
            kept.map_values(|f: int| result_view(self.file_list()[f])),
            file_name_key(),
        )
    }

    /// Results among fewer files come first among more files.
    pub proof fn lemma_hits_prefix(
        &self,
        t: Seq<char>,
        is_buddy: bool,
        phrases: Seq<Seq<char>>,
        m: int,
        n: int,
    )
        requires
            0 <= m <= n,
        ensures
            self.hits_upto(t, is_buddy, phrases, n).len() >= self.hits_upto(t, is_buddy, phrases, m).len(),
            self.hits_upto(t, is_buddy, phrases, n).take(
                self.hits_upto(t, is_buddy, phrases, m).len() as int,
            ) == self.hits_upto(t, is_buddy, phrases, m),
        decreases n - m,
    {
        if m < n {
            self.lemma_hits_prefix(t, is_buddy, phrases, m, n - 1);
            let a = self.hits_upto(t, is_buddy, phrases, m);
            let b = self.hits_upto(t, is_buddy, phrases, n - 1);
            if self.hit(t, is_buddy, phrases, n - 1) {
                assert(b.push(n - 1).take(a.len() as int) =~= b.take(a.len() as int));
            }
        } else {
            let a = self.hits_upto(t, is_buddy, phrases, m);
            assert(a.take(a.len() as int) =~= a);
        }
    }
}

/// A copy of a file entry of a listing.
fn copy_file(f: &FileInfo) -> (c: FileInfo)
    ensures
        c.code == f.code,
        c.name@ == f.name@,
        c.size == f.size,
        c.attributes == f.attributes,
{
    FileInfo { code: f.code, name: f.name.clone(), size: f.size, attributes: f.attributes }
}

/// A copy of the files of a listing.
fn copy_files(files: &Vec<FileInfo>) -> (c: Vec<FileInfo>)
    ensures
        files_view(c@) == files_view(files@),
{
    let mut c: Vec<FileInfo> = Vec::new();
    let mut i: usize = 0;
    while i < files.len()
        invariant
            i <= files@.len(),
            files_view(c@) == files_view(files@.take(i as int)),
        decreases files@.len() - i,
    {
        let ghost before = c@;
        c.push(copy_file(&files[i]));
        proof {
            assert(files@.take(i + 1) =~= files@.take(i as int).push(files@[i as int]));
            assert(files_view(c@) =~= files_view(before).push(file_view(files@[i as int])));
            assert(files_view(files@.take(i + 1)) =~= files_view(files@.take(i as int)).push(
                file_view(files@[i as int]),
            ));
        }
        i = i + 1;
    }
    proof {
        assert(files@.take(i as int) =~= files@);
    }
    c
}

/// The listing of a scanned folder.
fn folder_listing(folder: &ScannedFolder) -> (c: FolderContents)
    ensures
        (c.directory@, files_view(c.files@)) == scanned_view(*folder),
{
    FolderContents { directory: folder.virtual_path.clone(), files: copy_files(&folder.files) }
}

impl SharesIndex {
    /// An index with nothing shared.
    pub fn new() -> (ix: Self)
        ensures
            ix.wf(),
            ix.folder_list().len() == 0,
            ix.file_list().len() == 0,
            forall|d: Seq<char>| ix.folder_at(d) is None,
            forall|p: Seq<char>| ix.file_at(p) is None,
            forall|p: Seq<char>| ix.exact_file_at(p) is None,
            forall|w: Seq<char>| !ix.indexed(w),
    {
        SharesIndex {
            folders: Vec::new(),
            folder_lookup: Vec::new(),
            files: Vec::new(),
            paths: Vec::new(),
            paths_lower: Vec::new(),
            word_index: Vec::new(),
        }
    }

    /// Numbers of folders and of files that are not for buddies only.
    pub fn counts(&self) -> (c: (u32, u32))
        ensures
            c.0 == public_folder_count(self.folder_list()) as u32,
            c.1 == public_file_count(self.file_list()) as u32,
    {
        let mut folders: usize = 0;
        let mut i: usize = 0;
        while i < self.folders.len()
            invariant
                i <= self.folders@.len(),
                folders == public_folder_count(self.folders@.take(i as int)),
                folders <= i,
            decreases self.folders@.len() - i,
        {
            proof {
                assert(self.folders@.take(i + 1).drop_last() =~= self.folders@.take(i as int));
            }
            if !self.folders[i].buddy_only {
                folders = folders + 1;
            }
            i = i + 1;
        }
        let mut files: usize = 0;
        let mut j: usize = 0;
        while j < self.files.len()
            invariant
                j <= self.files@.len(),
                files == public_file_count(self.files@.take(j as int)),
                files <= j,
            decreases self.files@.len() - j,
        {
            proof {
                assert(self.files@.take(j + 1).drop_last() =~= self.files@.take(j as int));
            }
            if !self.files[j].buddy_only {
                files = files + 1;
            }
            j = j + 1;
        }
        proof {
            assert(self.folders@.take(i as int) =~= self.folders@);
            assert(self.files@.take(j as int) =~= self.files@);
        }
        (folders as u32, files as u32)
    }

    /// The folders this peer may see, sorted by virtual path.
    pub fn browse(&self, is_buddy: bool) -> (list: Vec<FolderContents>)
        ensures
            folders_view(list@) == stable_sort_by_key(
                visible_folders(self.folder_list(), is_buddy),
                folder_dir_key(),
            ),
    {
        let mut list: Vec<FolderContents> = Vec::new();
        let mut i: usize = 0;
        while i < self.folders.len()
            invariant
                i <= self.folders@.len(),
                folders_view(list@) == visible_folders(self.folders@.take(i as int), is_buddy),
            decreases self.folders@.len() - i,
        {
            proof {
                assert(self.folders@.take(i + 1).drop_last() =~= self.folders@.take(i as int));
            }
            let ghost before = list@;
            if is_buddy || !self.folders[i].buddy_only {
                list.push(folder_listing(&self.folders[i]));
                proof {
                    assert(folders_view(list@) =~= folders_view(before).push(
                        scanned_view(self.folders@[i as int]),
                    ));
                }
            } else {
                proof {
                    assert(visible_folders(self.folders@.take(i + 1), is_buddy) =~= visible_folders(
                        self.folders@.take(i as int),
                        is_buddy,
                    ));
                }
            }
            i = i + 1;
        }
        proof {
            assert(self.folders@.take(i as int) =~= self.folders@);
        }
        sort_folders_by_directory(&mut list);
        list
    }

    /// The folder with this exact virtual path, if this peer may see it.
    pub fn folder_contents(&self, directory: &str, is_buddy: bool) -> (list: Vec<FolderContents>)
        requires
            self.wf(),
        ensures
            match self.folder_at(directory@) {
                Some(i) => if self.folder_list()[i as int].buddy_only && !is_buddy {
                    list@.len() == 0
                } else {
                    folders_view(list@) == seq![scanned_view(self.folder_list()[i as int])]
                },
                None => list@.len() == 0,
            },
    {
        match key_position(&self.folder_lookup, directory) {
            Some(k) => {
                proof {
                    lemma_lookup_at(self.folder_lookup@, k as int);
                }
                let index = self.folder_lookup[k].1;
                let folder = &self.folders[index];
                if folder.buddy_only && !is_buddy {
                    return Vec::new();
                }
                let list = vec![folder_listing(folder)];
                proof {
                    assert(folders_view(list@) =~= seq![scanned_view(self.folders@[index as int])]);
                }
                list
            },
            None => {
                proof {
                    assert(!(exists|j: int|
                        0 <= j < self.folder_lookup@.len() && self.folder_lookup@[j].0@
                            == directory@));
                }
                Vec::new()
            },
        }
    }

    /// The file at a virtual path, if this peer may see it: where it is on
    /// disk, its size and its attributes.  The file with exactly that path
    /// wins; otherwise the first one whose path differs only in case.
    pub fn resolve(&self, virtual_path: &str, is_buddy: bool) -> (r: Option<(&String, u64, &FileAttributes)>)
        requires
            self.wf(),
        ensures
            match self.resolved(virtual_path@) {
                Some(f) => if self.file_list()[f as int].buddy_only && !is_buddy {
                    r is None
                } else {
                    r matches Some(x) && x.0@ == self.file_list()[f as int].real_path@ && x.1
                        == self.file_list()[f as int].size && *x.2 == self.file_list()[f as int].attributes
                },
                None => r is None,
            },
    {
        let found = match key_position(&self.paths, virtual_path) {
            Some(k) => {
                proof {
                    lemma_lookup_at(self.paths@, k as int);
                }
                Some(self.paths[k].1 as usize)
            },
            None => {
                proof {
                    assert(!(exists|j: int|
                        0 <= j < self.paths@.len() && self.paths@[j].0@ == virtual_path@));
                }
                let lower = lowercase(virtual_path);
                match key_position(&self.paths_lower, lower.as_str()) {
                    Some(k) => {
                        proof {
                            lemma_lookup_at(self.paths_lower@, k as int);
                        }
                        Some(self.paths_lower[k].1 as usize)
                    },
                    None => {
                        proof {
                            assert(!(exists|j: int|
                                0 <= j < self.paths_lower@.len() && self.paths_lower@[j].0@ == lower@));
                        }
                        None
                    },
                }
            },
        };
        match found {
            Some(index) => {
                let entry = &self.files[index];
                if entry.buddy_only && !is_buddy {
                    return None;
                }
                Some((&entry.real_path, entry.size, &entry.attributes))
            },
            None => None,
        }
    }
}

proof fn lemma_push_to_set<A>(s: Seq<A>, x: A)
    ensures
        s.push(x).to_set() == s.to_set().insert(x),
{
    assert forall|a: A| s.push(x).to_set().contains(a) == s.to_set().insert(x).contains(a) by {
        lemma_contains_push(s, x, a);
    }
    assert(s.push(x).to_set() =~= s.to_set().insert(x));
}

proof fn lemma_contains_push<A>(s: Seq<A>, x: A, y: A)
    ensures
        s.push(x).contains(y) == (s.contains(y) || x == y),
{
    if s.contains(y) {
        let i = choose|i: int| 0 <= i < s.len() && s[i] == y;
        assert(s.push(x)[i] == y);
    }
    if x == y {
        assert(s.push(x)[s.len() as int] == y);
    }
    if s.push(x).contains(y) {
        let i = choose|i: int| 0 <= i < s.push(x).len() && s.push(x)[i] == y;
        if i < s.len() {
            assert(s[i] == y);
        }
    }
}

/// A mask of `n` flags, all equal to `value`.
fn filled(n: usize, value: bool) -> (m: Vec<bool>)
    ensures
        m@.len() == n,
        forall|f: int| 0 <= f < n ==> m@[f] == value,
{
    let mut m: Vec<bool> = Vec::new();
    let mut i: usize = 0;
    while i < n
        invariant
            i <= n,
            m@.len() == i,
            forall|f: int| 0 <= f < i ==> m@[f] == value,
        decreases n - i,
    {
        m.push(value);
        i = i + 1;
    }
    m
}

/// Keeps the flags of `keep` that `m` sets (or, with `negate`, clears).
fn narrow(keep: &mut Vec<bool>, m: &Vec<bool>, negate: bool)
    requires
        old(keep)@.len() == m@.len(),
    ensures
        final(keep)@.len() == old(keep)@.len(),
        forall|f: int| 0 <= f < m@.len() ==> #[trigger] final(keep)@[f] == (old(keep)@[f] && if negate { !m@[f] } else { m@[f] }),
{
    let mut i: usize = 0;
    while i < m.len()
        invariant
            keep@.len() == m@.len(),
            old(keep)@.len() == m@.len(),
            i <= m@.len(),
            forall|f: int| 0 <= f < i ==> #[trigger] keep@[f] == (old(keep)@[f] && if negate { !m@[f] } else { m@[f] }),
            forall|f: int| i <= f < m@.len() ==> keep@[f] == old(keep)@[f],
        decreases m@.len() - i,
    {
        let v = keep[i] && if negate { !m[i] } else { m[i] };
        let ghost prev = keep@;
        keep.set(i, v);
        proof {
            assert(keep@ == prev.update(i as int, v));
            assert(prev[i as int] == old(keep)@[i as int]);
            assert forall|f: int| 0 <= f < i + 1 implies #[trigger] keep@[f] == (old(keep)@[f] && if negate {
                !m@[f]
            } else {
                m@[f]
            }) by {
                if f < i {
                    assert(keep@[f] == prev[f]);
                }
            }
        }
        i = i + 1;
    }
}

/// Whether a word is in a list of words.
fn has_word(list: &Vec<Vec<char>>, x: &Vec<char>) -> (b: bool)
    ensures
        b == list@.map_values(|p: Vec<char>| p@).contains(x@),
{
    let ghost view = list@.map_values(|p: Vec<char>| p@);
    let mut i: usize = 0;
    while i < list.len()
        invariant
            view == list@.map_values(|p: Vec<char>| p@),
            i <= list@.len(),
            forall|j: int| 0 <= j < i ==> view[j] != x@,
        decreases list@.len() - i,
    {
        if chars_eq(list[i].as_slice(), x.as_slice()) {
            proof {
                assert(view[i as int] == x@);
            }
            return true;
        }
        i = i + 1;
    }
    false
}

/// The alphanumeric words of the whitespace-separated words that start
/// with `mark`.
fn marked(ws: &Vec<Vec<char>>, mark: char) -> (out: Vec<Vec<char>>)
    ensures
        out@.map_values(|p: Vec<char>| p@) == marked_from(ws@.map_values(|p: Vec<char>| p@), mark),
{
    let ghost view = ws@.map_values(|p: Vec<char>| p@);
    let mut out: Vec<Vec<char>> = Vec::new();
    let mut i: usize = 0;
    proof {
        assert(view.take(0).len() == 0);
        assert(out@.map_values(|p: Vec<char>| p@) =~= marked_from(view.take(0), mark));
    }
    while i < ws.len()
        invariant
            view == ws@.map_values(|p: Vec<char>| p@),
            i <= ws@.len(),
            out@.map_values(|p: Vec<char>| p@) == marked_from(view.take(i as int), mark),
        decreases ws@.len() - i,
    {
        proof {
            assert(view.take(i + 1).drop_last() =~= view.take(i as int));
        }
        let w = &ws[i];
        if w.len() > 0 && w[0] == mark {
            let rest = slice_range(w.as_slice(), 1, w.len());
            let found = split_alnum(rest.as_slice());
            let ghost before = out@.map_values(|p: Vec<char>| p@);
            let mut j: usize = 0;
            while j < found.len()
                invariant
                    j <= found@.len(),
                    out@.map_values(|p: Vec<char>| p@) == before + found@.map_values(
                        |p: Vec<char>| p@,
                    ).take(j as int),
                decreases found@.len() - j,
            {
                let ghost prev = out@.map_values(|p: Vec<char>| p@);
                out.push(copy_word(&found[j]));
                proof {
                    assert(out@.map_values(|p: Vec<char>| p@) =~= prev.push(found@[j as int]@));
                    assert(found@.map_values(|p: Vec<char>| p@).take(j + 1) =~= found@.map_values(
                        |p: Vec<char>| p@,
                    ).take(j as int).push(found@[j as int]@));
                }
                j = j + 1;
            }
            proof {
                assert(found@.map_values(|p: Vec<char>| p@).take(j as int) =~= found@.map_values(
                    |p: Vec<char>| p@,
                ));
                assert(view[i as int].drop_first() =~= rest@);
            }
        }
        i = i + 1;
    }
    proof {
        assert(view.take(i as int) =~= view);
    }
    out
}

/// A copy of a word.
fn copy_word(w: &Vec<char>) -> (c: Vec<char>)
    ensures
        c@ == w@,
{
    slice_range(w.as_slice(), 0, w.len())
}

impl SharesIndex {
    /// Flags the files holding a word.
    fn posting_mask(&self, w: &Vec<char>) -> (m: Vec<bool>)
        requires
            self.wf(),
        ensures
            m@.len() == self.file_list().len(),
            forall|f: int| 0 <= f < m@.len() ==> m@[f] == self.postings(w@).contains(f as u32),
    {
        let n = self.files.len();
        let mut m = filled(n, false);
        let text = crate::text::string_from_chars(w.as_slice());
        match key_position(&self.word_index, text.as_str()) {
            Some(k) => {
                proof {
                    lemma_lookup_at(self.word_index@, k as int);
                }
                let p = &self.word_index[k].1;
                let mut j: usize = 0;
                while j < p.len()
                    invariant
                        self.wf(),
                        n == self.files@.len(),
                        k < self.word_index@.len(),
                        *p == self.word_index@[k as int].1,
                        m@.len() == n,
                        j <= p@.len(),
                        forall|f: int| 0 <= f < n ==> m@[f] == p@.take(j as int).contains(f as u32),
                    decreases p@.len() - j,
                {
                    let f = p[j];
                    assert(f < n);
                    let ghost prev = m@;
                    m.set(f as usize, true);
                    proof {
                        assert(p@.take(j + 1) =~= p@.take(j as int).push(f));
                        assert forall|g: int| 0 <= g < n implies m@[g] == p@.take(j + 1).contains(
                            g as u32,
                        ) by {
                            lemma_contains_push(p@.take(j as int), f, g as u32);
                            if g != f as int {
                                assert(m@[g] == prev[g]);
                                assert(g as u32 != f);
                            }
                        }
                    }
                    j = j + 1;
                }
                proof {
                    assert(p@.take(j as int) =~= p@);
                }
            },
            None => {
                proof {
                    assert(!(exists|j: int|
                        0 <= j < self.word_index@.len() && self.word_index@[j].0@ == w@));
                }
            },
        }
        m
    }

    /// Flags the files holding some indexed word that ends with `p`.
    fn partial_mask(&self, p: &Vec<char>) -> (m: Vec<bool>)
        requires
            self.wf(),
        ensures
            m@.len() == self.file_list().len(),
            forall|f: int|
                0 <= f < m@.len() ==> (m@[f] == exists|w: Seq<char>|
                    #[trigger] self.indexed(w) && ends_with(w, p@) && self.postings(w).contains(
                        f as u32,
                    )),
    {
        let n = self.files.len();
        let mut m = filled(n, false);
        let mut k: usize = 0;
        while k < self.word_index.len()
            invariant
                self.wf(),
                n == self.files@.len(),
                m@.len() == n,
                k <= self.word_index@.len(),
                forall|f: int|
                    0 <= f < n ==> (m@[f] == exists|q: int|
                        0 <= q < k && ends_with(#[trigger] self.word_index@[q].0@, p@)
                            && self.word_index@[q].1@.contains(f as u32)),
            decreases self.word_index@.len() - k,
        {
            let key = chars_of(self.word_index[k].0.as_str());
            if chars_end_with(key.as_slice(), p.as_slice()) {
                let postings = &self.word_index[k].1;
                let ghost before = m@;
                let mut j: usize = 0;
                while j < postings.len()
                    invariant
                        self.wf(),
                        n == self.files@.len(),
                        k < self.word_index@.len(),
                        *postings == self.word_index@[k as int].1,
                        m@.len() == n,
                        before.len() == n,
                        j <= postings@.len(),
                        forall|f: int|
                            0 <= f < n ==> #[trigger] m@[f] == (before[f] || postings@.take(
                                j as int,
                            ).contains(f as u32)),
                    decreases postings@.len() - j,
                {
                    let f = postings[j];
                    assert(f < n);
                    let ghost prev = m@;
                    m.set(f as usize, true);
                    proof {
                        assert(postings@.take(j + 1) =~= postings@.take(j as int).push(f));
                        assert forall|g: int| 0 <= g < n implies #[trigger] m@[g] == (before[g]
                            || postings@.take(j + 1).contains(g as u32)) by {
                            lemma_contains_push(postings@.take(j as int), f, g as u32);
                            assert(prev[g] == (before[g] || postings@.take(j as int).contains(
                                g as u32,
                            )));
                            if g != f as int {
                                assert(m@[g] == prev[g]);
                                assert(g as u32 != f);
                            } else {
                                assert(m@[g]);
                            }
                        }
                    }
                    j = j + 1;
                }
                proof {
                    assert(postings@.take(j as int) =~= postings@);
                    assert(ends_with(self.word_index@[k as int].0@, p@));
                    assert forall|f: int| 0 <= f < n implies (m@[f] == exists|q: int|
                        0 <= q < k + 1 && ends_with(#[trigger] self.word_index@[q].0@, p@)
                            && self.word_index@[q].1@.contains(f as u32)) by {
                        assert(m@[f] == (before[f] || postings@.contains(f as u32)));
                        if postings@.contains(f as u32) {
                            assert(ends_with(self.word_index@[k as int].0@, p@));
                        }
                        if exists|q: int|
                            0 <= q < k + 1 && ends_with(#[trigger] self.word_index@[q].0@, p@)
                                && self.word_index@[q].1@.contains(f as u32) {
                            let q = choose|q: int|
                                0 <= q < k + 1 && ends_with(#[trigger] self.word_index@[q].0@, p@)
                                    && self.word_index@[q].1@.contains(f as u32);
                            if q < k {
                                assert(before[f]);
                            }
                        }
                    }
                }
            } else {
                proof {
                    assert forall|f: int| 0 <= f < n implies (m@[f] == exists|q: int|
                        0 <= q < k + 1 && ends_with(#[trigger] self.word_index@[q].0@, p@)
                            && self.word_index@[q].1@.contains(f as u32)) by {
                        if exists|q: int|
                            0 <= q < k + 1 && ends_with(#[trigger] self.word_index@[q].0@, p@)
                                && self.word_index@[q].1@.contains(f as u32) {
                            let q = choose|q: int|
                                0 <= q < k + 1 && ends_with(#[trigger] self.word_index@[q].0@, p@)
                                    && self.word_index@[q].1@.contains(f as u32);
                            assert(q != k);
                        }
                    }
                }
            }
            k = k + 1;
        }
        proof {
            assert forall|f: int| 0 <= f < n implies (m@[f] == exists|w: Seq<char>|
                #[trigger] self.indexed(w) && ends_with(w, p@) && self.postings(w).contains(
                    f as u32,
                )) by {
                if m@[f] {
                    let q = choose|q: int|
                        0 <= q < k && ends_with(#[trigger] self.word_index@[q].0@, p@)
                            && self.word_index@[q].1@.contains(f as u32);
                    lemma_lookup_at(self.word_index@, q);
                    assert(self.indexed(self.word_index@[q].0@));
                }
                if exists|w: Seq<char>|
                    #[trigger] self.indexed(w) && ends_with(w, p@) && self.postings(w).contains(
                        f as u32,
                    ) {
                    let w = choose|w: Seq<char>|
                        #[trigger] self.indexed(w) && ends_with(w, p@) && self.postings(w).contains(
                            f as u32,
                        );
                    let q = choose|q: int|
                        0 <= q < self.word_index@.len() && self.word_index@[q].0@ == w;
                    lemma_lookup_at(self.word_index@, q);
                    assert(ends_with(self.word_index@[q].0@, p@));
                }
            }
        }
        m
    }
}

/// The characters of each word of a list.
pub open spec fn word_views(v: Seq<Vec<char>>) -> Seq<Seq<char>> {
    v.map_values(|p: Vec<char>| p@)
}

/// Whether one of the phrases occurs in `s`.
fn holds_phrase(s: &Vec<char>, phrases: &Vec<Vec<char>>) -> (b: bool)
    ensures
        b == exists|k: int| 0 <= k < phrases@.len() && occurs_in(s@, #[trigger] phrases@[k]@),
{
    let mut k: usize = 0;
    while k < phrases.len()
        invariant
            k <= phrases@.len(),
            forall|j: int| 0 <= j < k ==> !occurs_in(s@, #[trigger] phrases@[j]@),
        decreases phrases@.len() - k,
    {
        if chars_contain(s.as_slice(), phrases[k].as_slice()) {
            return true;
        }
        k = k + 1;
    }
    false
}

impl SharesIndex {
    /// Some indexed word of file `f` ends with `p`.
    spec fn partial_hit(&self, p: Seq<char>, f: int) -> bool {
        exists|v: Seq<char>|
            #[trigger] self.indexed(v) && ends_with(v, p) && self.postings(v).contains(f as u32)
    }

    /// File `f` holds each of the first `i` words of `w` that are included
    /// words of `t`.
    spec fn holds_included(&self, t: Seq<char>, w: Seq<Seq<char>>, i: int, f: int) -> bool {
        forall|k: int|
            0 <= k < i && #[trigger] included_word(t, w[k]) ==> self.postings(w[k]).contains(
                f as u32,
            )
    }

    /// Each of the first `j` partial words ends some word of file `f`.
    spec fn holds_partial(&self, pw: Seq<Seq<char>>, j: int, f: int) -> bool {
        forall|k: int| 0 <= k < j ==> #[trigger] self.partial_hit(pw[k], f)
    }

    /// File `f` holds none of the first `e` excluded words.
    spec fn avoids_excluded(&self, xw: Seq<Seq<char>>, e: int, f: int) -> bool {
        forall|k: int| 0 <= k < e ==> !self.postings(#[trigger] xw[k]).contains(f as u32)
    }

    /// Flags the files that match the lowercased term `t`, given its
    /// words, its excluded words and its partial words.
    fn match_mask(
        &self,
        ws: &Vec<Vec<char>>,
        ex: &Vec<Vec<char>>,
        pa: &Vec<Vec<char>>,
        Ghost(t): Ghost<Seq<char>>,
    ) -> (keep: Vec<bool>)
        requires
            self.wf(),
            word_views(ws@) == alnum_words(t),
            word_views(ex@) == excluded_words(t),
            word_views(pa@) == partial_words(t),
        ensures
            keep@.len() == self.file_list().len(),
            forall|f: int| 0 <= f < keep@.len() ==> keep@[f] == self.matches(t, f as u32),
    {
        let ghost w = word_views(ws@);
        let ghost exw = word_views(ex@);
        let ghost paw = word_views(pa@);
        let n = self.files.len();
        let mut keep = filled(n, true);
        let mut any = false;
        let mut i: usize = 0;
        while i < ws.len()
            invariant
                self.wf(),
                n == self.files@.len(),
                w == word_views(ws@),
                w == alnum_words(t),
                exw == word_views(ex@),
                exw == excluded_words(t),
                paw == word_views(pa@),
                paw == partial_words(t),
                i <= ws@.len(),
                keep@.len() == n,
                any == exists|k: int| 0 <= k < i && #[trigger] included_word(t, w[k]),
                forall|f: int| 0 <= f < n ==> #[trigger] keep@[f] == self.holds_included(t, w, i as int, f),
            decreases ws@.len() - i,
        {
            proof {
                assert(w[i as int] == ws@[i as int]@);
                assert(w.contains(w[i as int]));
            }
            let ghost prev = keep@;
            if !has_word(ex, &ws[i]) && !has_word(pa, &ws[i]) {
                proof {
                    assert(included_word(t, w[i as int]));
                }
                any = true;
                let m = self.posting_mask(&ws[i]);
                narrow(&mut keep, &m, false);
                proof {
                    assert forall|f: int| 0 <= f < n implies #[trigger] keep@[f]
                        == self.holds_included(t, w, i + 1, f) by {
                        assert(keep@[f] == (prev[f] && m@[f]));
                        if keep@[f] {
                            assert forall|k: int|
                                0 <= k < i + 1 && #[trigger] included_word(t, w[k]) implies self.postings(
                                w[k],
                            ).contains(f as u32) by {
                                if k < i {
                                    assert(self.holds_included(t, w, i as int, f));
                                }
                            }
                        }
                        if self.holds_included(t, w, i + 1, f) {
                            assert(self.postings(w[i as int]).contains(f as u32));
                            assert forall|k: int|
                                0 <= k < i && #[trigger] included_word(t, w[k]) implies self.postings(
                                w[k],
                            ).contains(f as u32) by {}
                        }
                    }
                }
            } else {
                proof {
                    assert(!included_word(t, w[i as int]));
                    assert forall|f: int| 0 <= f < n implies #[trigger] keep@[f]
                        == self.holds_included(t, w, i + 1, f) by {
                        if self.holds_included(t, w, i as int, f) {
                            assert forall|k: int|
                                0 <= k < i + 1 && #[trigger] included_word(t, w[k]) implies self.postings(
                                w[k],
                            ).contains(f as u32) by {}
                        }
                        if self.holds_included(t, w, i + 1, f) {
                            assert forall|k: int|
                                0 <= k < i && #[trigger] included_word(t, w[k]) implies self.postings(
                                w[k],
                            ).contains(f as u32) by {}
                        }
                    }
                }
            }
            i = i + 1;
        }
        if !any {
            proof {
                assert forall|x: Seq<char>| !#[trigger] included_word(t, x) by {
                    if included_word(t, x) {
                        let k = choose|k: int| 0 <= k < w.len() && w[k] == x;
                        assert(included_word(t, w[k]));
                    }
                }
            }
            return filled(n, false);
        }
        let ghost base = keep@;
        let mut j: usize = 0;
        while j < pa.len()
            invariant
                self.wf(),
                n == self.files@.len(),
                paw == word_views(pa@),
                j <= pa@.len(),
                keep@.len() == n,
                base.len() == n,
                forall|f: int|
                    0 <= f < n ==> #[trigger] keep@[f] == (base[f] && self.holds_partial(
                        paw,
                        j as int,
                        f,
                    )),
            decreases pa@.len() - j,
        {
            let m = self.partial_mask(&pa[j]);
            let ghost prev = keep@;
            narrow(&mut keep, &m, false);
            proof {
                assert(paw[j as int] == pa@[j as int]@);
                assert forall|f: int| 0 <= f < n implies #[trigger] keep@[f] == (base[f]
                    && self.holds_partial(paw, j + 1, f)) by {
                    assert(keep@[f] == (prev[f] && m@[f]));
                    assert(m@[f] == self.partial_hit(paw[j as int], f));
                    if self.holds_partial(paw, j + 1, f) {
                        assert forall|k: int| 0 <= k < j implies #[trigger] self.partial_hit(
                            paw[k],
                            f,
                        ) by {}
                    }
                    if self.holds_partial(paw, j as int, f) && m@[f] {
                        assert forall|k: int| 0 <= k < j + 1 implies #[trigger] self.partial_hit(
                            paw[k],
                            f,
                        ) by {}
                    }
                }
            }
            j = j + 1;
        }
        let ghost mid = keep@;
        let mut e: usize = 0;
        while e < ex.len()
            invariant
                self.wf(),
                n == self.files@.len(),
                exw == word_views(ex@),
                e <= ex@.len(),
                keep@.len() == n,
                mid.len() == n,
                forall|f: int|
                    0 <= f < n ==> #[trigger] keep@[f] == (mid[f] && self.avoids_excluded(
                        exw,
                        e as int,
                        f,
                    )),
            decreases ex@.len() - e,
        {
            let m = self.posting_mask(&ex[e]);
            let ghost prev = keep@;
            narrow(&mut keep, &m, true);
            proof {
                assert(exw[e as int] == ex@[e as int]@);
                assert forall|f: int| 0 <= f < n implies #[trigger] keep@[f] == (mid[f]
                    && self.avoids_excluded(exw, e + 1, f)) by {
                    assert(keep@[f] == (prev[f] && !m@[f]));
                    if self.avoids_excluded(exw, e + 1, f) {
                        assert forall|k: int| 0 <= k < e implies !self.postings(
                            #[trigger] exw[k],
                        ).contains(f as u32) by {}
                    }
                    if self.avoids_excluded(exw, e as int, f) && !m@[f] {
                        assert forall|k: int| 0 <= k < e + 1 implies !self.postings(
                            #[trigger] exw[k],
                        ).contains(f as u32) by {}
                    }
                }
            }
            e = e + 1;
        }
        proof {
            let k0 = choose|k: int| 0 <= k < i && #[trigger] included_word(t, w[k]);
            assert forall|f: int| 0 <= f < n implies keep@[f] == self.matches(t, f as u32) by {
                assert(included_word(t, w[k0]));
                if keep@[f] {
                    assert(mid[f]);
                    assert(base[f]);
                    assert forall|x: Seq<char>| #[trigger]
                        included_word(t, x) implies self.postings(x).contains(f as u32) by {
                        let k = choose|k: int| 0 <= k < w.len() && w[k] == x;
                        assert(included_word(t, w[k]));
                    }
                    assert forall|p: Seq<char>| #[trigger] partial_words(t).contains(p) implies exists|
                        v: Seq<char>,
                    | #[trigger] self.indexed(v) && ends_with(v, p) && self.postings(v).contains(
                        f as u32,
                    ) by {
                        let k = choose|k: int| 0 <= k < paw.len() && paw[k] == p;
                        assert(self.partial_hit(paw[k], f));
                    }
                    assert forall|x: Seq<char>| #[trigger]
                        excluded_words(t).contains(x) implies !self.postings(x).contains(
                        f as u32,
                    ) by {
                        let k = choose|k: int| 0 <= k < exw.len() && exw[k] == x;
                        assert(!self.postings(exw[k]).contains(f as u32));
                    }
                } else if self.matches(t, f as u32) {
                    assert forall|k: int|
                        0 <= k < i && #[trigger] included_word(t, w[k]) implies self.postings(
                        w[k],
                    ).contains(f as u32) by {}
                    assert(base[f]);
                    assert forall|k: int| 0 <= k < j implies #[trigger] self.partial_hit(paw[k], f) by {
                        assert(partial_words(t).contains(paw[k]));
                    }
                    assert(mid[f]);
                    assert forall|k: int| 0 <= k < e implies !self.postings(
                        #[trigger] exw[k],
                    ).contains(f as u32) by {
                        assert(excluded_words(t).contains(exw[k]));
                    }
                    assert(keep@[f]);
                }
            }
        }
        keep
    }
}

impl SharesIndex {
    /// The results among the flagged files, in index order, at most
    /// `MAX_SEARCH_RESULTS`.
    fn collect_hits(
        &self,
        keep: &Vec<bool>,
        is_buddy: bool,
        phrases: &Vec<Vec<char>>,
        max: usize,
        Ghost(t): Ghost<Seq<char>>,
    ) -> (out: Vec<FileInfo>)
        requires
            self.wf(),
            keep@.len() == self.file_list().len(),
            forall|f: int| 0 <= f < keep@.len() ==> keep@[f] == self.matches(t, f as u32),
        ensures
            ({
                let hits = self.hits_upto(t, is_buddy, word_views(phrases@), self.file_list().len() as int);
                let kept = if hits.len() <= max {
                    hits
                } else {
                    hits.take(max as int)
                };
                files_view(out@) == kept.map_values(|f: int| result_view(self.file_list()[f]))
            }),
    {
        let ghost ph = word_views(phrases@);
        let n = self.files.len();
        let mut out: Vec<FileInfo> = Vec::new();
        let mut f: usize = 0;
        while f < n && out.len() < max
            invariant
                self.wf(),
                n == self.files@.len(),
                keep@.len() == n,
                forall|g: int| 0 <= g < n ==> keep@[g] == self.matches(t, g as u32),
                ph == word_views(phrases@),
                f <= n,
                out@.len() == self.hits_upto(t, is_buddy, ph, f as int).len(),
                out@.len() <= max,
                files_view(out@) == self.hits_upto(t, is_buddy, ph, f as int).map_values(
                    |g: int| result_view(self.file_list()[g]),
                ),
            decreases n - f,
        {
            let ghost before = self.hits_upto(t, is_buddy, ph, f as int);
            let mut taken = false;
            if keep[f] {
                let entry = &self.files[f];
                if is_buddy || !entry.buddy_only {
                    let lower = lowercase(entry.virtual_path.as_str());
                    let lc = chars_of(lower.as_str());
                    if !holds_phrase(&lc, phrases) {
                        let ghost prev = out@;
                        out.push(
                            FileInfo {
                                code: 1,
                                name: entry.virtual_path.clone(),
                                size: entry.size,
                                attributes: entry.attributes,
                            },
                        );
                        taken = true;
                        proof {
                            assert(self.hit(t, is_buddy, ph, f as int)) by {
                                assert forall|k: int| 0 <= k < ph.len() implies !occurs_in(
                                    lowercase_of(self.file_list()[f as int].virtual_path@),
                                    #[trigger] ph[k],
                                ) by {
                                    assert(ph[k] == phrases@[k]@);
                                }
                            }
                            assert(files_view(out@) =~= files_view(prev).push(
                                result_view(self.files@[f as int]),
                            ));
                            assert(self.hits_upto(t, is_buddy, ph, f + 1) == before.push(f as int));
                            assert(before.push(f as int).map_values(
                                |g: int| result_view(self.file_list()[g]),
                            ) =~= before.map_values(|g: int| result_view(self.file_list()[g])).push(
                                result_view(self.files@[f as int]),
                            ));
                        }
                    } else {
                        proof {
                            let k = choose|k: int|
                                0 <= k < phrases@.len() && occurs_in(lc@, #[trigger] phrases@[k]@);
                            assert(ph[k] == phrases@[k]@);
                            assert(!self.hit(t, is_buddy, ph, f as int));
                        }
                    }
                }
            }
            proof {
                if !taken {
                    assert(!self.hit(t, is_buddy, ph, f as int));
                    assert(self.hits_upto(t, is_buddy, ph, f + 1) == before);
                }
            }
            f = f + 1;
        }
        proof {
            let hits = self.hits_upto(t, is_buddy, ph, n as int);
            self.lemma_hits_prefix(t, is_buddy, ph, f as int, n as int);
            if f < n {
                assert(out@.len() == max);
                if hits.len() <= max {
                    assert(hits =~= hits.take(max as int));
                }
            } else {
                assert(hits.len() <= max);
            }
        }
        out
    }

    /// The shared files matching a search term, as this peer may see them:
    /// at most `max_results`, the first in index order, sorted by name; a
    /// term shorter than `min_chars` bytes matches nothing.
    pub fn search_limited(
        &self,
        search_term: &str,
        is_buddy: bool,
        excluded_phrases: &[String],
        max_results: usize,
        min_chars: usize,
    ) -> (results: Vec<FileInfo>)
        requires
            self.wf(),
        ensures
            search_term.len() < min_chars ==> results@.len() == 0,
            search_term.len() >= min_chars ==> files_view(results@) == self.search_view(
                lowercase_of(search_term@),
                is_buddy,
                excluded_phrases@.map_values(|s: String| s@),
                max_results,
            ),
    {
        if search_term.len() < min_chars {
            return Vec::new();
        }
        let lower = lowercase(search_term);
        let term = chars_of(lower.as_str());
        let spaced = split_words_ws(term.as_slice());
        let excluded = marked(&spaced, '-');
        let partial = marked(&spaced, '*');
        let included = split_alnum(term.as_slice());
        let keep = self.match_mask(&included, &excluded, &partial, Ghost(lower@));
        let mut phrases: Vec<Vec<char>> = Vec::new();
        let mut i: usize = 0;
        while i < excluded_phrases.len()
            invariant
                i <= excluded_phrases@.len(),
                word_views(phrases@) == excluded_phrases@.map_values(|s: String| s@).take(i as int),
            decreases excluded_phrases@.len() - i,
        {
            let ghost prev = word_views(phrases@);
            phrases.push(chars_of(excluded_phrases[i].as_str()));
            proof {
                assert(word_views(phrases@) =~= prev.push(excluded_phrases@[i as int]@));
                assert(excluded_phrases@.map_values(|s: String| s@).take(i + 1) =~= excluded_phrases@.map_values(
                    |s: String| s@,
                ).take(i as int).push(excluded_phrases@[i as int]@));
            }
            i = i + 1;
        }
        proof {
            assert(excluded_phrases@.map_values(|s: String| s@).take(i as int) =~= excluded_phrases@.map_values(
                |s: String| s@,
            ));
        }
        let mut results = self.collect_hits(&keep, is_buddy, &phrases, max_results, Ghost(lower@));
        sort_files_by_name(&mut results);
        results
    }

    /// The shared files matching a search term, as this peer may see them:
    /// at most `MAX_SEARCH_RESULTS`, the first in index order, sorted by
    /// name; a term shorter than `MIN_SEARCH_CHARS` bytes matches nothing.
    pub fn search(&self, search_term: &str, is_buddy: bool, excluded_phrases: &[String]) -> (results:
        Vec<FileInfo>)
        requires
            self.wf(),
        ensures
            search_term.len() < MIN_SEARCH_CHARS ==> results@.len() == 0,
            search_term.len() >= MIN_SEARCH_CHARS ==> files_view(results@) == self.search_view(
                lowercase_of(search_term@),
                is_buddy,
                excluded_phrases@.map_values(|s: String| s@),
                MAX_SEARCH_RESULTS,
            ),
    {
        self.search_limited(search_term, is_buddy, excluded_phrases, MAX_SEARCH_RESULTS, MIN_SEARCH_CHARS)
    }
}

// ---------------------------------------------------------------------
// Building the index
// ---------------------------------------------------------------------

/// What a directory entry is.
#[derive(Debug, Clone, Copy, PartialEq, Eq, Structural)]
pub enum EntryKind {
    Folder,
    File,
    Other,
}

/// An entry of a scanned directory, as the file system reports it.
pub struct DirEntry {
    pub name: String,
    pub real_path: String,
    pub kind: EntryKind,
    pub size: u64,
    pub attributes: FileAttributes,
}

/// A directory being scanned: its virtual path, the words of that path,
/// the files kept so far and the subdirectories to scan next.
pub struct FolderScan {
    virtual_dir: String,
    dir_chars: Vec<char>,
    dir_words: Vec<Vec<char>>,
    files: Vec<FileInfo>,
    subfolders: Vec<(String, String)>,
}

/// What stands in file names for a backslash, the separator of virtual
/// paths.
pub open spec fn sentinel() -> Seq<char> {
    seq!['@', '@', 'B', 'A', 'C', 'K', 'S', 'L', 'A', 'S', 'H', '@', '@']
}

/// A file name with each backslash replaced by the sentinel.
pub open spec fn escaped(name: Seq<char>) -> Seq<char>
    decreases name.len(),
{
    if name.len() == 0 {
        Seq::empty()
    } else {
        escaped(name.drop_last()) + if name.last() == '\\' {
            sentinel()
        } else {
            seq![name.last()]
        }
    }
}

/// A virtual path below a directory.
pub open spec fn child_path(dir: Seq<char>, name: Seq<char>) -> Seq<char> {
    dir + seq!['\\'] + name
}

/// Names starting with a dot are hidden and not shared.
pub open spec fn is_hidden(name: Seq<char>) -> bool {
    name.len() > 0 && name[0] == '.'
}

/// The words a file is found by: those of its folder's lowercased path and
/// of its lowercased name.
pub open spec fn file_words(dir_words: Seq<Seq<char>>, base: Seq<char>) -> Set<Seq<char>> {
    (dir_words + alnum_words(lowercase_of(base))).to_set()
}

/// Whether a name is hidden.
pub fn is_hidden_name(name: &str) -> (b: bool)
    ensures
        b == is_hidden(name@),
{
    let chars = chars_of(name);
    chars.len() > 0 && chars[0] == '.'
}

/// `name` with each backslash replaced by the sentinel.
fn escape_name(name: &[char]) -> (out: Vec<char>)
    ensures
        out@ == escaped(name@),
{
    let mut out: Vec<char> = Vec::new();
    let mut i: usize = 0;
    while i < name.len()
        invariant
            i <= name@.len(),
            out@ == escaped(name@.take(i as int)),
        decreases name@.len() - i,
    {
        proof {
            assert(name@.take(i + 1).drop_last() =~= name@.take(i as int));
        }
        let ghost before = out@;
        if name[i] == '\\' {
            let marks = ['@', '@', 'B', 'A', 'C', 'K', 'S', 'L', 'A', 'S', 'H', '@', '@'];
            let mut k: usize = 0;
            while k < 13
                invariant
                    k <= 13,
                    marks@ == sentinel(),
                    out@ == before + sentinel().take(k as int),
                decreases 13 - k,
            {
                out.push(marks[k]);
                proof {
                    assert(sentinel().take(k + 1) =~= sentinel().take(k as int).push(marks@[k as int]));
                }
                k = k + 1;
            }
            proof {
                assert(sentinel().take(13) =~= sentinel());
            }
        } else {
            out.push(name[i]);
            proof {
                assert(out@ =~= before + seq![name@[i as int]]);
            }
        }
        i = i + 1;
    }
    proof {
        assert(name@.take(i as int) =~= name@);
    }
    out
}

/// `dir`, a backslash and `name`.
fn join_child(dir: &[char], name: &[char]) -> (out: Vec<char>)
    ensures
        out@ == child_path(dir@, name@),
{
    let mut out = slice_range(dir, 0, dir.len());
    out.push('\\');
    let mut i: usize = 0;
    let ghost start = out@;
    while i < name.len()
        invariant
            i <= name@.len(),
            start == dir@ + seq!['\\'],
            out@ == start + name@.take(i as int),
        decreases name@.len() - i,
    {
        out.push(name[i]);
        proof {
            assert(name@.take(i + 1) =~= name@.take(i as int).push(name@[i as int]));
        }
        i = i + 1;
    }
    proof {
        assert(name@.take(i as int) =~= name@);
        assert(out@ =~= child_path(dir@, name@));
    }
    out
}

impl FolderScan {
    pub closed spec fn dir(&self) -> Seq<char> {
        self.virtual_dir@
    }

    /// The words of the folder's lowercased virtual path.
    pub closed spec fn dir_words(&self) -> Seq<Seq<char>> {
        word_views(self.dir_words@)
    }

    /// The files kept so far, in the order found.
    pub closed spec fn found(&self) -> Seq<FileView> {
        files_view(self.files@)
    }

    /// The subdirectories found so far: real path and virtual path.
    pub closed spec fn subdirs(&self) -> Seq<(Seq<char>, Seq<char>)> {
        self.subfolders@.map_values(|d: (String, String)| (d.0@, d.1@))
    }

    pub closed spec fn wf(&self) -> bool {
        self.dir_chars@ == self.virtual_dir@
    }

    /// Starts scanning a directory.
    pub fn new(virtual_dir: String) -> (scan: Self)
        ensures
            scan.wf(),
            scan.dir() == virtual_dir@,
            scan.dir_words() == alnum_words(lowercase_of(virtual_dir@)),
            scan.found().len() == 0,
            scan.subdirs().len() == 0,
    {
        let lower = lowercase(virtual_dir.as_str());
        let lower_chars = chars_of(lower.as_str());
        let dir_words = split_alnum(lower_chars.as_slice());
        let dir_chars = chars_of(virtual_dir.as_str());
        let scan = FolderScan { virtual_dir, dir_chars, dir_words, files: Vec::new(), subfolders: Vec::new() };
        proof {
            assert(scan.found() =~= Seq::<FileView>::empty());
            assert(scan.subdirs() =~= Seq::<(Seq<char>, Seq<char>)>::empty());
        }
        scan
    }
}

impl SharesIndex {
    /// Number of files shared.
    pub fn file_count(&self) -> (n: usize)
        ensures
            n == self.file_list().len(),
    {
        self.files.len()
    }

    /// Whether a directory with this virtual path was scanned.
    pub fn has_folder(&self, virtual_dir: &str) -> (b: bool)
        ensures
            b == self.folder_at(virtual_dir@) is Some,
    {
        match key_position(&self.folder_lookup, virtual_dir) {
            Some(k) => {
                proof {
                    assert(exists|j: int|
                        0 <= j < self.folder_lookup@.len() && self.folder_lookup@[j].0@
                            == virtual_dir@);
                }
                true
            },
            None => false,
        }
    }

    /// Adds file `n` to the postings of a word.
    fn post_word(&mut self, w: &Vec<char>, n: u32)
        requires
            old(self).wf(),
            n < old(self).file_list().len(),
        ensures
            final(self).wf(),
            final(self).folder_list() == old(self).folder_list(),
            final(self).file_list() == old(self).file_list(),
            forall|d: Seq<char>| final(self).folder_at(d) == old(self).folder_at(d),
            forall|p: Seq<char>| final(self).file_at(p) == old(self).file_at(p),
            forall|p: Seq<char>| final(self).exact_file_at(p) == old(self).exact_file_at(p),
            forall|v: Seq<char>|
                #[trigger] final(self).postings(v) == if v == w@ {
                    old(self).postings(v).push(n)
                } else {
                    old(self).postings(v)
                },
            forall|v: Seq<char>| #[trigger] final(self).indexed(v) == (old(self).indexed(v) || v == w@),
    {
        let text = crate::text::string_from_chars(w.as_slice());
        let ghost old_list = self.word_index@;
        match key_position(&self.word_index, text.as_str()) {
            Some(k) => {
                proof {
                    lemma_lookup_at(old_list, k as int);
                }
                let mut entry = (String::new(), Vec::new());
                std::mem::swap(&mut entry, &mut self.word_index[k]);
                let (key, mut postings) = entry;
                postings.push(n);
                let ghost new_postings = postings@;
                self.word_index.set(k, (key, postings));
                proof {
                    crate::client::users::lemma_assoc_after_set(old_list, self.word_index@, k as int, w@);
                    lemma_lookup_at(self.word_index@, k as int);
                    assert forall|i: int, j: int|
                        0 <= i < self.word_index@.len() && 0 <= j < self.word_index@[i].1@.len()
                            implies #[trigger] self.word_index@[i].1@[j] < self.files@.len() by {
                        if i != k {
                            assert(self.word_index@[i] == old_list[i]);
                        } else if j < old_list[i].1@.len() {
                            assert(self.word_index@[i].1@[j] == old_list[i].1@[j]);
                        }
                    }
                }
            },
            None => {
                let postings = vec![n];
                self.word_index.push((text, postings));
                proof {
                    crate::client::users::lemma_assoc_after_push(old_list, self.word_index@, w@);
                    assert forall|i: int, j: int|
                        0 <= i < self.word_index@.len() && 0 <= j < self.word_index@[i].1@.len()
                            implies #[trigger] self.word_index@[i].1@[j] < self.files@.len() by {
                        if i < old_list.len() {
                            assert(self.word_index@[i] == old_list[i]);
                        }
                    }
                }
            },
        }
    }
}

impl SharesIndex {
    /// Takes one entry of the directory being scanned.  Hidden entries are
    /// skipped; a folder is kept for scanning; a file is shared under the
    /// directory's virtual path, its backslashes escaped, unless a shared
    /// file has the same path compared without case.
    pub fn add_entry(&mut self, scan: &mut FolderScan, entry: DirEntry, buddy_only: bool)
        requires
            old(self).wf(),
            old(scan).wf(),
            old(self).file_list().len() < u32::MAX,
        ensures
            final(self).wf(),
            final(scan).wf(),
            final(scan).dir() == old(scan).dir(),
            final(scan).dir_words() == old(scan).dir_words(),
            final(self).folder_list() == old(self).folder_list(),
            forall|d: Seq<char>| final(self).folder_at(d) == old(self).folder_at(d),
            ({
                let base = escaped(entry.name@);
                let path = child_path(old(scan).dir(), base);
                let n = old(self).file_list().len();
                let added = !is_hidden(entry.name@) && entry.kind == EntryKind::File && old(self).exact_file_at(path) is None;
                &&& !is_hidden(entry.name@) && entry.kind == EntryKind::Folder ==> final(scan).subdirs()
                    == old(scan).subdirs().push(
                    (entry.real_path@, child_path(old(scan).dir(), entry.name@)),
                )
                &&& !(!is_hidden(entry.name@) && entry.kind == EntryKind::Folder) ==> final(scan).subdirs() == old(scan).subdirs()
                &&& added ==> {
                    &&& final(scan).found() == old(scan).found().push(
                        (1u8, base, entry.size, entry.attributes),
                    )
                    &&& final(self).file_list() == old(self).file_list().push(
                        FileEntry {
                            virtual_path: final(self).file_list()[n as int].virtual_path,
                            real_path: entry.real_path,
                            size: entry.size,
                            attributes: entry.attributes,
                            buddy_only,
                        },
                    )
                    &&& final(self).file_list()[n as int].virtual_path@ == path
                    &&& final(self).exact_file_at(path) == Some(n as u32)
                    &&& forall|p: Seq<char>|
                        p != path ==> #[trigger] final(self).exact_file_at(p) == old(self).exact_file_at(p)
                    &&& final(self).file_at(lowercase_of(path)) == if old(self).file_at(lowercase_of(path)) is Some {
                        old(self).file_at(lowercase_of(path))
                    } else {
                        Some(n as u32)
                    }
                    &&& forall|p: Seq<char>|
                        p != lowercase_of(path) ==> #[trigger] final(self).file_at(p) == old(self).file_at(p)
                    &&& forall|w: Seq<char>|
                        #[trigger] final(self).postings(w) == if file_words(
                            old(scan).dir_words(),
                            base,
                        ).contains(w) {
                            old(self).postings(w).push(n as u32)
                        } else {
                            old(self).postings(w)
                        }
                    &&& forall|w: Seq<char>|
                        #[trigger] final(self).indexed(w) == (old(self).indexed(w) || file_words(
                            old(scan).dir_words(),
                            base,
                        ).contains(w))
                }
                &&& !added ==> {
                    &&& final(scan).found() == old(scan).found()
                    &&& final(self).file_list() == old(self).file_list()
                    &&& forall|p: Seq<char>| #[trigger] final(self).file_at(p) == old(self).file_at(p)
                    &&& forall|p: Seq<char>| #[trigger] final(self).exact_file_at(p) == old(self).exact_file_at(p)
                    &&& forall|w: Seq<char>| #[trigger] final(self).postings(w) == old(self).postings(w)
                    &&& forall|w: Seq<char>| #[trigger] final(self).indexed(w) == old(self).indexed(w)
                }
            }),
    {
        let name = chars_of(entry.name.as_str());
        if name.len() > 0 && name[0] == '.' {
            return;
        }
        match entry.kind {
            EntryKind::Folder => {
                let child = join_child(scan.dir_chars.as_slice(), name.as_slice());
                let ghost before = scan.subdirs();
                scan.subfolders.push((entry.real_path, crate::text::string_from_chars(child.as_slice())));
                proof {
                    assert(scan.subdirs() =~= before.push(
                        (entry.real_path@, child_path(old(scan).dir(), entry.name@)),
                    ));
                }
                return;
            },
            EntryKind::Other => {
                return;
            },
            EntryKind::File => {},
        }
        let base = escape_name(name.as_slice());
        let path = join_child(scan.dir_chars.as_slice(), base.as_slice());
        let path_text = crate::text::string_from_chars(path.as_slice());
        if let Some(k) = key_position(&self.paths, path_text.as_str()) {
            proof {
                lemma_lookup_at(self.paths@, k as int);
            }
            return;
        }
        proof {
            assert(!(exists|j: int|
                0 <= j < self.paths@.len() && self.paths@[j].0@ == path_text@));
        }
        let lower = lowercase(path_text.as_str());
        let lower_known = match key_position(&self.paths_lower, lower.as_str()) {
            Some(k) => {
                proof {
                    lemma_lookup_at(self.paths_lower@, k as int);
                }
                true
            },
            None => {
                proof {
                    assert(!(exists|j: int|
                        0 <= j < self.paths_lower@.len() && self.paths_lower@[j].0@ == lower@));
                }
                false
            },
        };
        let n = self.files.len() as u32;
        let ghost old_self = *self;
        let exact_key = crate::text::string_from_chars(path.as_slice());
        self.files.push(
            FileEntry {
                virtual_path: path_text,
                real_path: entry.real_path,
                size: entry.size,
                attributes: entry.attributes,
                buddy_only,
            },
        );
        let ghost old_exact = self.paths@;
        self.paths.push((exact_key, n));
        proof {
            crate::client::users::lemma_assoc_after_push(old_exact, self.paths@, path@);
            assert forall|i: int| 0 <= i < self.paths@.len() implies #[trigger] self.paths@[i].1
                < self.files@.len() by {
                if i < old_exact.len() {
                    assert(self.paths@[i] == old_exact[i]);
                }
            }
        }
        let ghost old_paths = self.paths_lower@;
        if !lower_known {
            self.paths_lower.push((lower, n));
            proof {
                crate::client::users::lemma_assoc_after_push(old_paths, self.paths_lower@, lowercase_of(path@));
            }
        }
        proof {
            assert forall|i: int| 0 <= i < self.paths_lower@.len() implies #[trigger] self.paths_lower@[i].1
                < self.files@.len() by {
                if i < old_paths.len() {
                    assert(self.paths_lower@[i] == old_paths[i]);
                }
            }
            assert forall|i: int, j: int|
                0 <= i < self.word_index@.len() && 0 <= j < self.word_index@[i].1@.len()
                    implies #[trigger] self.word_index@[i].1@[j] < self.files@.len() by {}
        }
        let base_text = crate::text::string_from_chars(base.as_slice());
        let base_lower = lowercase(base_text.as_str());
        let base_lower_chars = chars_of(base_lower.as_str());
        let name_words = split_alnum(base_lower_chars.as_slice());
        let mut all: Vec<Vec<char>> = Vec::new();
        let mut i: usize = 0;
        while i < scan.dir_words.len()
            invariant
                i <= scan.dir_words@.len(),
                word_views(all@) == word_views(scan.dir_words@).take(i as int),
            decreases scan.dir_words@.len() - i,
        {
            let ghost prev = word_views(all@);
            all.push(copy_word(&scan.dir_words[i]));
            proof {
                assert(word_views(all@) =~= prev.push(scan.dir_words@[i as int]@));
                assert(word_views(scan.dir_words@).take(i + 1) =~= word_views(scan.dir_words@).take(
                    i as int,
                ).push(scan.dir_words@[i as int]@));
            }
            i = i + 1;
        }
        let mut j: usize = 0;
        while j < name_words.len()
            invariant
                i == scan.dir_words@.len(),
                j <= name_words@.len(),
                word_views(all@) == word_views(scan.dir_words@) + word_views(name_words@).take(
                    j as int,
                ),
            decreases name_words@.len() - j,
        {
            proof {
                if j == 0 {
                    assert(word_views(scan.dir_words@).take(i as int) =~= word_views(scan.dir_words@));
                }
            }
            let ghost prev = word_views(all@);
            all.push(copy_word(&name_words[j]));
            proof {
                assert(word_views(all@) =~= prev.push(name_words@[j as int]@));
                assert(word_views(name_words@).take(j + 1) =~= word_views(name_words@).take(
                    j as int,
                ).push(name_words@[j as int]@));
            }
            j = j + 1;
        }
        proof {
            if j == 0 {
                assert(word_views(scan.dir_words@).take(i as int) =~= word_views(scan.dir_words@));
            }
            assert(word_views(name_words@).take(j as int) =~= word_views(name_words@));
            assert(base_text@ == escaped(entry.name@));
        }
        let ghost all_words = word_views(all@);
        let ghost mid = *self;
        let mut seen: Vec<Vec<char>> = Vec::new();
        let mut k: usize = 0;
        while k < all.len()
            invariant
                self.wf(),
                n as int == old_self.files@.len(),
                self.files@.len() == n + 1,
                all_words == word_views(all@),
                k <= all@.len(),
                word_views(seen@).to_set() == all_words.take(k as int).to_set(),
                self.folders@ == mid.folders@,
                self.files@ == mid.files@,
                forall|d: Seq<char>| #[trigger] self.folder_at(d) == mid.folder_at(d),
                forall|p: Seq<char>| #[trigger] self.file_at(p) == mid.file_at(p),
                forall|p: Seq<char>| #[trigger] self.exact_file_at(p) == mid.exact_file_at(p),
                forall|w: Seq<char>|
                    #[trigger] self.postings(w) == if all_words.take(k as int).to_set().contains(w) {
                        mid.postings(w).push(n)
                    } else {
                        mid.postings(w)
                    },
                forall|w: Seq<char>|
                    #[trigger] self.indexed(w) == (mid.indexed(w) || all_words.take(
                        k as int,
                    ).to_set().contains(w)),
            decreases all@.len() - k,
        {
            proof {
                assert(all_words.take(k + 1) =~= all_words.take(k as int).push(all_words[k as int]));
                lemma_push_to_set(all_words.take(k as int), all_words[k as int]);
                assert(all_words[k as int] == all@[k as int]@);
            }
            if !has_word(&seen, &all[k]) {
                proof {
                    assert(!word_views(seen@).to_set().contains(all@[k as int]@));
                }
                let ghost prev = *self;
                self.post_word(&all[k], n);
                let ghost prev_seen = word_views(seen@);
                seen.push(copy_word(&all[k]));
                proof {
                    assert(word_views(seen@) =~= prev_seen.push(all_words[k as int]));
                    lemma_push_to_set(prev_seen, all_words[k as int]);
                }
            } else {
                proof {
                    assert(word_views(seen@).to_set().contains(all@[k as int]@));
                }
            }
            k = k + 1;
        }
        proof {
            assert(all_words.take(k as int) =~= all_words);
            assert(all_words =~= scan.dir_words() + alnum_words(lowercase_of(escaped(entry.name@))));
        }
        let info = FileInfo { code: 1, name: base_text, size: entry.size, attributes: entry.attributes };
        let ghost before_found = scan.found();
        scan.files.push(info);
        proof {
            assert(scan.found() =~= before_found.push((1u8, escaped(entry.name@), entry.size, entry.attributes)));
            assert(scan.subdirs() == old(scan).subdirs());
        }
    }

    /// Ends the scan of a directory: it is shared with its files sorted by
    /// name.  The subdirectories to scan next are handed back, in the
    /// order found.
    pub fn finish_folder(&mut self, scan: FolderScan, buddy_only: bool) -> (subdirs: Vec<
        (String, String),
    >)
        requires
            old(self).wf(),
        ensures
            final(self).wf(),
            subdirs@.map_values(|d: (String, String)| (d.0@, d.1@)) == scan.subdirs(),
            final(self).folder_list().len() == old(self).folder_list().len() + 1,
            forall|i: int|
                0 <= i < old(self).folder_list().len() ==> #[trigger] final(self).folder_list()[i]
                    == old(self).folder_list()[i],
            scanned_view(final(self).folder_list().last()) == (scan.dir(), stable_sort_by_key(
                scan.found(),
                file_name_key(),
            )),
            final(self).folder_list().last().buddy_only == buddy_only,
            final(self).folder_at(scan.dir()) == Some(old(self).folder_list().len() as usize),
            forall|d: Seq<char>| d != scan.dir() ==> #[trigger] final(self).folder_at(d) == old(self).folder_at(d),
            final(self).file_list() == old(self).file_list(),
            forall|p: Seq<char>| #[trigger] final(self).file_at(p) == old(self).file_at(p),
            forall|p: Seq<char>| #[trigger] final(self).exact_file_at(p) == old(self).exact_file_at(p),
            forall|w: Seq<char>| #[trigger] final(self).postings(w) == old(self).postings(w),
            forall|w: Seq<char>| #[trigger] final(self).indexed(w) == old(self).indexed(w),
    {
        let FolderScan { virtual_dir, dir_chars: _, dir_words: _, mut files, subfolders } = scan;
        sort_files_by_name(&mut files);
        let index = self.folders.len();
        let ghost old_lookup = self.folder_lookup@;
        let ghost old_folders = self.folders@;
        let key = virtual_dir.clone();
        match key_position(&self.folder_lookup, virtual_dir.as_str()) {
            Some(k) => {
                self.folder_lookup.set(k, (key, index));
                proof {
                    crate::client::users::lemma_assoc_after_set(old_lookup, self.folder_lookup@, k as int, virtual_dir@);
                    lemma_lookup_at(self.folder_lookup@, k as int);
                }
            },
            None => {
                self.folder_lookup.push((key, index));
                proof {
                    crate::client::users::lemma_assoc_after_push(old_lookup, self.folder_lookup@, virtual_dir@);
                }
            },
        }
        self.folders.push(ScannedFolder { virtual_path: virtual_dir, files, buddy_only });
        proof {
            assert forall|i: int| 0 <= i < self.folder_lookup@.len() implies #[trigger] self.folder_lookup@[i].1
                < self.folders@.len() by {
                if self.folder_lookup@[i].0@ != scan.dir() {
                    assert(self.folder_lookup@[i] == old_lookup[i]);
                }
            }
        }
        subfolders
    }
}

// ---------------------------------------------------------------------
// Laws
// ---------------------------------------------------------------------

/// Inserting into a sorted list adds one element.
proof fn lemma_insert_len<T>(sorted: Seq<T>, x: T, key: spec_fn(T) -> Seq<char>)
    ensures
        crate::protocol::listing::insert_by_key(sorted, x, key).len() == sorted.len() + 1,
    decreases sorted.len(),
{
    if sorted.len() > 0 {
        lemma_insert_len(sorted.drop_last(), x, key);
    }
}

/// Sorting keeps the number of elements.
proof fn lemma_sort_len<T>(s: Seq<T>, key: spec_fn(T) -> Seq<char>)
    ensures
        stable_sort_by_key(s, key).len() == s.len(),
    decreases s.len(),
{
    if s.len() > 0 {
        lemma_sort_len(s.drop_last(), key);
        lemma_insert_len(stable_sort_by_key(s.drop_last(), key), s.last(), key);
    }
}

impl SharesIndex {
    /// Every result is a file that matches the term, that the peer may
    /// see, and whose path holds no excluded phrase; results come in
    /// index order without repeats.
    pub proof fn lemma_hits_are_hits(&self, t: Seq<char>, is_buddy: bool, phrases: Seq<Seq<char>>, n: int)
        ensures
            forall|i: int|
                0 <= i < self.hits_upto(t, is_buddy, phrases, n).len() ==> self.hit(
                    t,
                    is_buddy,
                    phrases,
                    #[trigger] self.hits_upto(t, is_buddy, phrases, n)[i],
                ),
            forall|i: int, j: int|
                0 <= i < j < self.hits_upto(t, is_buddy, phrases, n).len() ==> self.hits_upto(
                    t,
                    is_buddy,
                    phrases,
                    n,
                )[i] < self.hits_upto(t, is_buddy, phrases, n)[j],
            forall|i: int|
                0 <= i < self.hits_upto(t, is_buddy, phrases, n).len() ==> #[trigger] self.hits_upto(
                    t,
                    is_buddy,
                    phrases,
                    n,
                )[i] < n,
        decreases n,
    {
        if n > 0 {
            self.lemma_hits_are_hits(t, is_buddy, phrases, n - 1);
            let prev = self.hits_upto(t, is_buddy, phrases, n - 1);
            let cur = self.hits_upto(t, is_buddy, phrases, n);
            if self.hit(t, is_buddy, phrases, n - 1) {
                assert(cur == prev.push(n - 1));
                assert forall|i: int| 0 <= i < cur.len() implies self.hit(
                    t,
                    is_buddy,
                    phrases,
                    #[trigger] cur[i],
                ) by {
                    if i < prev.len() {
                        assert(cur[i] == prev[i]);
                    }
                }
                assert forall|i: int, j: int| 0 <= i < j < cur.len() implies cur[i] < cur[j] by {
                    assert(cur[i] == prev[i]);
                    if j < prev.len() {
                        assert(cur[j] == prev[j]);
                    }
                }
            }
        }
    }
}

/// A search never answers with more than its limit of files.
pub proof fn law_search_results_capped(
    ix: SharesIndex,
    t: Seq<char>,
    is_buddy: bool,
    phrases: Seq<Seq<char>>,
    max: usize,
)
    ensures
        ix.search_view(t, is_buddy, phrases, max).len() <= max,
{
    let hits = ix.hits_upto(t, is_buddy, phrases, ix.file_list().len() as int);
    let kept = if hits.len() <= max {
        hits
    } else {
        hits.take(max as int)
    };
    lemma_sort_len(kept.map_values(|f: int| result_view(ix.file_list()[f])), file_name_key());
}

/// Every file a search answers with for a peer that is not a buddy is
/// shared with everyone, holds each plain word of the term, and holds
/// none of its excluded words.
pub proof fn law_search_respects_permissions_and_exclusions(
    ix: SharesIndex,
    t: Seq<char>,
    phrases: Seq<Seq<char>>,
    f: int,
)
    requires
        ix.hits_upto(t, false, phrases, ix.file_list().len() as int).contains(f),
    ensures
        !ix.file_list()[f].buddy_only,
        forall|x: Seq<char>| #[trigger] included_word(t, x) ==> ix.postings(x).contains(f as u32),
        forall|e: Seq<char>| #[trigger] excluded_words(t).contains(e) ==> !ix.postings(e).contains(f as u32),
        forall|k: int| 0 <= k < phrases.len() ==> !occurs_in(
            lowercase_of(ix.file_list()[f].virtual_path@),
            #[trigger] phrases[k],
        ),
{
    ix.lemma_hits_are_hits(t, false, phrases, ix.file_list().len() as int);
    let hits = ix.hits_upto(t, false, phrases, ix.file_list().len() as int);
    let i = choose|i: int| 0 <= i < hits.len() && hits[i] == f;
    assert(ix.hit(t, false, phrases, hits[i]));
}

} // verus!
