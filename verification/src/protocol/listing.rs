//! Share listings in peer messages: file attributes, files, and folders.
use vstd::prelude::*;
use vstd::utf8::encode_utf8;

use super::wire::{
    framed_text, le_bytes, sp_file_size, sp_string, sp_take, sp_u32, sp_u8, Decoded,
    MessageReader, MessageWriter, ProtocolError, chars_of,
};
use crate::text::string_from_chars;
use crate::types::{FileAttributes, FileInfo, FolderContents};

verus! {

broadcast use vstd::seq::group_seq_axioms;

// ---------------------------------------------------------------------
// Attributes
// ---------------------------------------------------------------------

/// No attribute known.
pub open spec fn no_attributes() -> FileAttributes {
    FileAttributes { bitrate: None, length: None, vbr: None, sample_rate: None, bit_depth: None }
}

/// The attributes with the one of the given protocol id set; unknown ids
/// change nothing.
pub open spec fn set_attribute(a: FileAttributes, id: u32, value: u32) -> FileAttributes {
    if id == 0 {
        FileAttributes { bitrate: Some(value), ..a }
    } else if id == 1 {
        FileAttributes { length: Some(value), ..a }
    } else if id == 2 {
        FileAttributes { vbr: Some(value), ..a }
    } else if id == 4 {
        FileAttributes { sample_rate: Some(value), ..a }
    } else if id == 5 {
        FileAttributes { bit_depth: Some(value), ..a }
    } else {
        a
    }
}

/// Reads `n` attribute pairs into `acc`.
pub open spec fn sp_attribute_pairs(data: Seq<u8>, pos: int, n: nat, acc: FileAttributes) -> Decoded<
    FileAttributes,
>
    decreases n,
{
    if n == 0 {
        Ok((acc, pos))
    } else {
        match sp_u32(data, pos) {
            Ok((id, q)) => match sp_u32(data, q) {
                Ok((value, r)) => sp_attribute_pairs(
                    data,
                    r,
                    (n - 1) as nat,
                    set_attribute(acc, id, value),
                ),
                Err(e) => Err(e),
            },
            Err(e) => Err(e),
        }
    }
}

/// Attributes: a count, then that many (id, value) pairs.
pub open spec fn sp_attributes(data: Seq<u8>, pos: int) -> Decoded<FileAttributes> {
    match sp_u32(data, pos) {
        Ok((n, q)) => sp_attribute_pairs(data, q, n as nat, no_attributes()),
        Err(e) => Err(e),
    }
}

/// Bytes of one attribute when it is known.
pub open spec fn attribute_bytes(id: u32, value: Option<u32>) -> Seq<u8> {
    match value {
        Some(v) => le_bytes(id as nat, 4) + le_bytes(v as nat, 4),
        None => Seq::empty(),
    }
}

pub open spec fn known(value: Option<u32>) -> nat {
    if value is Some {
        1
    } else {
        0
    }
}

/// Bytes of attributes: the number of known ones, then each known one in
/// the order bitrate, length, VBR, sample rate, bit depth.
pub open spec fn attributes_bytes(a: FileAttributes) -> Seq<u8> {
    le_bytes(
        known(a.bitrate) + known(a.length) + known(a.vbr) + known(a.sample_rate) + known(
            a.bit_depth,
        ),
        4,
    ) + attribute_bytes(0, a.bitrate) + attribute_bytes(1, a.length) + attribute_bytes(2, a.vbr)
        + attribute_bytes(4, a.sample_rate) + attribute_bytes(5, a.bit_depth)
}

pub fn read_file_attributes(r: &mut MessageReader) -> (res: Result<FileAttributes, ProtocolError>)
    requires
        old(r).wf(),
    ensures
        final(r).wf(),
        final(r).data() == old(r).data(),
        match sp_attributes(old(r).data(), old(r).pos()) {
            Ok((a, q)) => res == Ok::<FileAttributes, ProtocolError>(a) && final(r).pos() == q,
            Err((e, q)) => res == Err::<FileAttributes, ProtocolError>(e) && final(r).pos() == q,
        },
{
    let mut attrs = FileAttributes::empty();
    let num = r.read_u32()?;
    let mut i: u32 = 0;
    while i < num
        invariant
            r.wf(),
            r.data() == old(r).data(),
            i <= num,
            sp_attributes(old(r).data(), old(r).pos()) == sp_attribute_pairs(
                r.data(),
                r.pos(),
                (num - i) as nat,
                attrs,
            ),
        decreases num - i,
    {
        let attr_id = r.read_u32()?;
        let value = r.read_u32()?;
        if attr_id == 0 {
            attrs.bitrate = Some(value);
        } else if attr_id == 1 {
            attrs.length = Some(value);
        } else if attr_id == 2 {
            attrs.vbr = Some(value);
        } else if attr_id == 4 {
            attrs.sample_rate = Some(value);
        } else if attr_id == 5 {
            attrs.bit_depth = Some(value);
        }
        i = i + 1;
    }
    Ok(attrs)
}

fn write_attribute(w: &mut MessageWriter, id: u32, value: Option<u32>)
    ensures
        final(w)@ == old(w)@ + attribute_bytes(id, value),
{
    if let Some(v) = value {
        w.write_u32(id);
        w.write_u32(v);
        proof {
            assert(final(w)@ =~= old(w)@ + attribute_bytes(id, value));
        }
    } else {
        proof {
            assert(final(w)@ =~= old(w)@ + attribute_bytes(id, value));
        }
    }
}

fn known_count(attrs: &FileAttributes) -> (n: u32)
    ensures
        n as nat == known(attrs.bitrate) + known(attrs.length) + known(attrs.vbr) + known(
            attrs.sample_rate,
        ) + known(attrs.bit_depth),
{
    let mut n: u32 = 0;
    if attrs.bitrate.is_some() {
        n = n + 1;
    }
    if attrs.length.is_some() {
        n = n + 1;
    }
    if attrs.vbr.is_some() {
        n = n + 1;
    }
    if attrs.sample_rate.is_some() {
        n = n + 1;
    }
    if attrs.bit_depth.is_some() {
        n = n + 1;
    }
    n
}

pub fn write_file_attributes(w: &mut MessageWriter, attrs: &FileAttributes)
    ensures
        final(w)@ == old(w)@ + attributes_bytes(*attrs),
{
    let count = known_count(attrs);
    w.write_u32(count);
    let ghost s1 = w@;
    write_attribute(w, 0, attrs.bitrate);
    write_attribute(w, 1, attrs.length);
    let ghost s3 = w@;
    write_attribute(w, 2, attrs.vbr);
    write_attribute(w, 4, attrs.sample_rate);
    write_attribute(w, 5, attrs.bit_depth);
    proof {
        let a = *attrs;
        let head = le_bytes(
            known(a.bitrate) + known(a.length) + known(a.vbr) + known(a.sample_rate) + known(
                a.bit_depth,
            ),
            4,
        );
        assert(s1 == old(w)@ + head);
        let p1 = attribute_bytes(0, a.bitrate);
        let p2 = attribute_bytes(1, a.length);
        let p3 = attribute_bytes(2, a.vbr);
        let p4 = attribute_bytes(4, a.sample_rate);
        let p5 = attribute_bytes(5, a.bit_depth);
        assert(s3 =~= old(w)@ + (head + p1 + p2));
        assert(final(w)@ =~= old(w)@ + (head + p1 + p2 + p3 + p4 + p5));
    }
}

// ---------------------------------------------------------------------
// Order of names
// ---------------------------------------------------------------------

/// Lexicographic order of byte strings.
pub open spec fn bytes_le(a: Seq<u8>, b: Seq<u8>) -> bool
    decreases a.len(),
{
    if a.len() == 0 {
        true
    } else if b.len() == 0 {
        false
    } else if a[0] != b[0] {
        a[0] < b[0]
    } else {
        bytes_le(a.drop_first(), b.drop_first())
    }
}

/// The order of `str`: lexicographic on the UTF-8 bytes.
pub open spec fn text_le(a: Seq<char>, b: Seq<char>) -> bool {
    bytes_le(encode_utf8(a), encode_utf8(b))
}

/// Inserts `x` into a list sorted by `key`, after every element whose key
/// is not greater.
pub open spec fn insert_by_key<T>(sorted: Seq<T>, x: T, key: spec_fn(T) -> Seq<char>) -> Seq<T>
    decreases sorted.len(),
{
    if sorted.len() == 0 {
        seq![x]
    } else if text_le(key(sorted.last()), key(x)) {
        sorted.push(x)
    } else {
        insert_by_key(sorted.drop_last(), x, key).push(sorted.last())
    }
}

/// The list sorted by `key`, elements with equal keys keeping their order
/// (a stable sort).
pub open spec fn stable_sort_by_key<T>(s: Seq<T>, key: spec_fn(T) -> Seq<char>) -> Seq<T>
    decreases s.len(),
{
    if s.len() == 0 {
        s
    } else {
        insert_by_key(stable_sort_by_key(s.drop_last(), key), s.last(), key)
    }
}

// ---------------------------------------------------------------------
// Files and folders
// ---------------------------------------------------------------------

/// A file entry: code, name, size and attributes.
pub type FileView = (u8, Seq<char>, u64, FileAttributes);

/// A folder: its directory and files.
pub type FolderView = (Seq<char>, Seq<FileView>);

pub open spec fn file_view(f: FileInfo) -> FileView {
    (f.code, f.name@, f.size, f.attributes)
}

pub open spec fn files_view(files: Seq<FileInfo>) -> Seq<FileView> {
    files.map_values(|f: FileInfo| file_view(f))
}

pub open spec fn folder_view(f: FolderContents) -> FolderView {
    (f.directory@, files_view(f.files@))
}

pub open spec fn folders_view(folders: Seq<FolderContents>) -> Seq<FolderView> {
    folders.map_values(|f: FolderContents| folder_view(f))
}

pub open spec fn file_name_key() -> spec_fn(FileView) -> Seq<char> {
    |f: FileView| f.1
}

pub open spec fn folder_dir_key() -> spec_fn(FolderView) -> Seq<char> {
    |f: FolderView| f.0
}

/// A path with `/` separators turned into `\`.
pub open spec fn backslashed(s: Seq<char>) -> Seq<char> {
    s.map_values(|c: char| if c == '/' { '\\' } else { c })
}

/// `str::replace('/', "\\")`, written out.
pub fn to_backslashes(s: &str) -> (out: String)
    ensures
        out@ == backslashed(s@),
{
    let chars = chars_of(s);
    let mut out: Vec<char> = Vec::new();
    let mut i: usize = 0;
    while i < chars.len()
        invariant
            i <= chars@.len(),
            out@ =~= backslashed(chars@.subrange(0, i as int)),
        decreases chars@.len() - i,
    {
        out.push(if chars[i] == '/' { '\\' } else { chars[i] });
        i = i + 1;
    }
    proof {
        assert(chars@.subrange(0, i as int) =~= s@);
    }
    string_from_chars(out.as_slice())
}

/// A file entry: code, name (with `\` separators when asked), size, an
/// extension field that is skipped, and attributes.
pub open spec fn sp_file_entry(data: Seq<u8>, pos: int, backslash: bool) -> Decoded<FileView> {
    match sp_u8(data, pos) {
        Err(e) => Err(e),
        Ok((code, p1)) => match sp_string(data, p1) {
            Err(e) => Err(e),
            Ok((name, p2)) => match sp_file_size(data, p2) {
                Err(e) => Err(e),
                Ok((size, p3)) => match sp_u32(data, p3) {
                    Err(e) => Err(e),
                    Ok((ext_len, p4)) => match sp_take(data, p4, ext_len as int) {
                        Err(e) => Err(e),
                        Ok((_, p5)) => match sp_attributes(data, p5) {
                            Err(e) => Err(e),
                            Ok((attributes, p6)) => Ok(
                                (
                                    (
                                        code,
                                        if backslash {
                                            backslashed(name)
                                        } else {
                                            name
                                        },
                                        size,
                                        attributes,
                                    ),
                                    p6,
                                ),
                            ),
                        },
                    },
                },
            },
        },
    }
}

/// Reads `n` file entries into `acc`.
pub open spec fn sp_file_entries(
    data: Seq<u8>,
    pos: int,
    n: nat,
    backslash: bool,
    acc: Seq<FileView>,
) -> Decoded<Seq<FileView>>
    decreases n,
{
    if n == 0 {
        Ok((acc, pos))
    } else {
        match sp_file_entry(data, pos, backslash) {
            Ok((f, q)) => sp_file_entries(data, q, (n - 1) as nat, backslash, acc.push(f)),
            Err(e) => Err(e),
        }
    }
}

/// A file list: a count, that many entries, sorted by name.
pub open spec fn sp_file_list(data: Seq<u8>, pos: int, backslash: bool) -> Decoded<Seq<FileView>> {
    match sp_u32(data, pos) {
        Ok((n, q)) => match sp_file_entries(data, q, n as nat, backslash, Seq::empty()) {
            Ok((files, r)) => Ok((stable_sort_by_key(files, file_name_key()), r)),
            Err(e) => Err(e),
        },
        Err(e) => Err(e),
    }
}

/// Reads `n` folders into `acc`.
pub open spec fn sp_folder_entries(data: Seq<u8>, pos: int, n: nat, acc: Seq<FolderView>) -> Decoded<
    Seq<FolderView>,
>
    decreases n,
{
    if n == 0 {
        Ok((acc, pos))
    } else {
        match sp_string(data, pos) {
            Err(e) => Err(e),
            Ok((directory, q)) => match sp_file_list(data, q, false) {
                Err(e) => Err(e),
                Ok((files, r)) => sp_folder_entries(
                    data,
                    r,
                    (n - 1) as nat,
                    acc.push((backslashed(directory), files)),
                ),
            },
        }
    }
}

/// A folder list: a count, that many folders, sorted by directory.
pub open spec fn sp_folder_list(data: Seq<u8>, pos: int) -> Decoded<Seq<FolderView>> {
    match sp_u32(data, pos) {
        Ok((n, q)) => match sp_folder_entries(data, q, n as nat, Seq::empty()) {
            Ok((folders, r)) => Ok((stable_sort_by_key(folders, folder_dir_key()), r)),
            Err(e) => Err(e),
        },
        Err(e) => Err(e),
    }
}

/// `slice::sort_by` on the names: a stable sort in the order of `str`.
#[verifier::external_body]
pub(crate) fn sort_files_by_name(files: &mut Vec<FileInfo>)
    ensures
        files_view(final(files)@) == stable_sort_by_key(files_view(old(files)@), file_name_key()),
{
    files.sort_by(|a, b| a.name.cmp(&b.name));
}

/// `slice::sort_by` on the directories: a stable sort in the order of `str`.
#[verifier::external_body]
pub(crate) fn sort_folders_by_directory(folders: &mut Vec<FolderContents>)
    ensures
        folders_view(final(folders)@) == stable_sort_by_key(
            folders_view(old(folders)@),
            folder_dir_key(),
        ),
{
    folders.sort_by(|a, b| a.directory.cmp(&b.directory));
}

pub fn read_file_entry(r: &mut MessageReader, backslash_name: bool) -> (res: Result<
    FileInfo,
    ProtocolError,
>)
    requires
        old(r).wf(),
    ensures
        final(r).wf(),
        final(r).data() == old(r).data(),
        match sp_file_entry(old(r).data(), old(r).pos(), backslash_name) {
            Ok((f, q)) => (res matches Ok(x) && file_view(x) == f) && final(r).pos() == q,
            Err((e, q)) => res == Err::<FileInfo, ProtocolError>(e) && final(r).pos() == q,
        },
{
    let code = r.read_u8()?;
    let mut name = r.read_string()?;
    if backslash_name {
        name = to_backslashes(name.as_str());
    }
    let size = r.read_file_size()?;
    let ext_len = r.read_u32()?;
    r.skip(ext_len as usize)?;
    let attributes = read_file_attributes(r)?;
    Ok(FileInfo { code, name, size, attributes })
}

pub fn read_file_list(r: &mut MessageReader, backslash_name: bool) -> (res: Result<
    Vec<FileInfo>,
    ProtocolError,
>)
    requires
        old(r).wf(),
    ensures
        final(r).wf(),
        final(r).data() == old(r).data(),
        match sp_file_list(old(r).data(), old(r).pos(), backslash_name) {
            Ok((fs, q)) => (res matches Ok(x) && files_view(x@) == fs) && final(r).pos() == q,
            Err((e, q)) => res == Err::<Vec<FileInfo>, ProtocolError>(e) && final(r).pos() == q,
        },
{
    let num = r.read_u32()?;
    let ghost after_count = r.pos();
    let mut files: Vec<FileInfo> = Vec::new();
    let mut i: u32 = 0;
    proof {
        assert(files_view(files@) =~= Seq::<FileView>::empty());
    }
    while i < num
        invariant
            r.wf(),
            r.data() == old(r).data(),
            i <= num,
            sp_u32(old(r).data(), old(r).pos()) == Decoded::<u32>::Ok((num, after_count)),
            sp_file_entries(old(r).data(), after_count, num as nat, backslash_name, Seq::empty())
                == sp_file_entries(r.data(), r.pos(), (num - i) as nat, backslash_name, files_view(files@)),
        decreases num - i,
    {
        let ghost before = files_view(files@);
        let entry = read_file_entry(r, backslash_name)?;
        files.push(entry);
        proof {
            assert(files_view(files@) =~= before.push(file_view(entry)));
        }
        i = i + 1;
    }
    if files.len() > 1 {
        sort_files_by_name(&mut files);
    } else {
        proof {
            let v = files_view(files@);
            if v.len() == 1 {
                assert(v.drop_last() =~= Seq::<FileView>::empty());
                assert(stable_sort_by_key(v.drop_last(), file_name_key()) =~= Seq::<FileView>::empty());
                assert(insert_by_key(Seq::<FileView>::empty(), v.last(), file_name_key()) =~= seq![v.last()]);
                assert(stable_sort_by_key(v, file_name_key()) =~= v);
            }
        }
    }
    Ok(files)
}

pub fn read_folder_list(r: &mut MessageReader) -> (res: Result<Vec<FolderContents>, ProtocolError>)
    requires
        old(r).wf(),
    ensures
        final(r).wf(),
        final(r).data() == old(r).data(),
        match sp_folder_list(old(r).data(), old(r).pos()) {
            Ok((fs, q)) => (res matches Ok(x) && folders_view(x@) == fs) && final(r).pos() == q,
            Err((e, q)) => res == Err::<Vec<FolderContents>, ProtocolError>(e) && final(r).pos()
                == q,
        },
{
    let num = r.read_u32()?;
    let ghost after_count = r.pos();
    let mut folders: Vec<FolderContents> = Vec::new();
    let mut i: u32 = 0;
    proof {
        assert(folders_view(folders@) =~= Seq::<FolderView>::empty());
    }
    while i < num
        invariant
            r.wf(),
            r.data() == old(r).data(),
            i <= num,
            sp_u32(old(r).data(), old(r).pos()) == Decoded::<u32>::Ok((num, after_count)),
            sp_folder_entries(old(r).data(), after_count, num as nat, Seq::empty())
                == sp_folder_entries(r.data(), r.pos(), (num - i) as nat, folders_view(folders@)),
        decreases num - i,
    {
        let ghost before = folders_view(folders@);
        let raw = r.read_string()?;
        let directory = to_backslashes(raw.as_str());
        let files = read_file_list(r, false)?;
        let ghost fv = files_view(files@);
        let folder = FolderContents { directory, files };
        folders.push(folder);
        proof {
            assert(folders_view(folders@) =~= before.push((backslashed(raw@), fv)));
        }
        i = i + 1;
    }
    if folders.len() > 1 {
        sort_folders_by_directory(&mut folders);
    } else {
        proof {
            let v = folders_view(folders@);
            if v.len() == 1 {
                assert(v.drop_last() =~= Seq::<FolderView>::empty());
                assert(stable_sort_by_key(v.drop_last(), folder_dir_key()) =~= Seq::<FolderView>::empty());
                assert(insert_by_key(Seq::<FolderView>::empty(), v.last(), folder_dir_key()) =~= seq![v.last()]);
                assert(stable_sort_by_key(v, folder_dir_key()) =~= v);
            }
        }
    }
    Ok(folders)
}

// ---------------------------------------------------------------------
// Writing
// ---------------------------------------------------------------------

/// Bytes of each element, one after another.
pub open spec fn concat_map<T>(s: Seq<T>, f: spec_fn(T) -> Seq<u8>) -> Seq<u8>
    decreases s.len(),
{
    if s.len() == 0 {
        Seq::empty()
    } else {
        f(s[0]) + concat_map(s.drop_first(), f)
    }
}

pub proof fn lemma_concat_map_push<T>(s: Seq<T>, x: T, f: spec_fn(T) -> Seq<u8>)
    ensures
        concat_map(s.push(x), f) == concat_map(s, f) + f(x),
    decreases s.len(),
{
    if s.len() == 0 {
        reveal_with_fuel(concat_map, 2);
        assert(s.push(x).drop_first() =~= Seq::<T>::empty());
        assert(concat_map(s.push(x), f) =~= f(x));
        assert(concat_map(s, f) + f(x) =~= f(x));
    } else {
        lemma_concat_map_push(s.drop_first(), x, f);
        assert(s.push(x).drop_first() =~= s.drop_first().push(x));
        assert(concat_map(s.push(x), f) =~= concat_map(s, f) + f(x));
    }
}

/// Bytes of a file entry: code, name, size, an empty extension, attributes.
pub open spec fn file_entry_bytes(f: FileView) -> Seq<u8> {
    seq![f.0] + framed_text(f.1) + le_bytes(f.2 as nat, 8) + le_bytes(0, 4) + attributes_bytes(f.3)
}

/// Bytes of a file list: the count, then the entries.
pub open spec fn file_list_bytes(files: Seq<FileView>) -> Seq<u8> {
    le_bytes((files.len() as u32) as nat, 4) + concat_map(files, |f: FileView| file_entry_bytes(f))
}

/// Bytes of a folder: its directory, then its file list.
pub open spec fn folder_bytes(f: FolderView) -> Seq<u8> {
    framed_text(f.0) + file_list_bytes(f.1)
}

/// Bytes of a folder list: the count, then the folders.
pub open spec fn folder_list_bytes(folders: Seq<FolderView>) -> Seq<u8> {
    le_bytes((folders.len() as u32) as nat, 4) + concat_map(
        folders,
        |f: FolderView| folder_bytes(f),
    )
}

pub fn write_file_entry(w: &mut MessageWriter, file: &FileInfo)
    ensures
        final(w)@ == old(w)@ + file_entry_bytes(file_view(*file)),
{
    w.write_u8(file.code);
    w.write_string(file.name.as_str());
    w.write_u64(file.size);
    w.write_u32(0);
    write_file_attributes(w, &file.attributes);
    proof {
        assert(final(w)@ =~= old(w)@ + file_entry_bytes(file_view(*file)));
    }
}

pub fn write_file_list(w: &mut MessageWriter, files: &[FileInfo])
    ensures
        final(w)@ == old(w)@ + file_list_bytes(files_view(files@)),
{
    let ghost fs = files_view(files@);
    let ghost f = |x: FileView| file_entry_bytes(x);
    w.write_u32(files.len() as u32);
    let ghost start = w@;
    let mut i: usize = 0;
    proof {
        assert(fs.take(0) =~= Seq::<FileView>::empty());
        assert(start + concat_map(fs.take(0), f) =~= start);
    }
    while i < files.len()
        invariant
            i <= files@.len(),
            fs == files_view(files@),
            f == (|x: FileView| file_entry_bytes(x)),
            w@ == start + concat_map(fs.take(i as int), f),
        decreases files@.len() - i,
    {
        write_file_entry(w, &files[i]);
        proof {
            lemma_concat_map_push(fs.take(i as int), fs[i as int], f);
            assert(fs.take(i + 1) =~= fs.take(i as int).push(fs[i as int]));
        }
        i = i + 1;
    }
    proof {
        assert(fs.take(i as int) =~= fs);
    }
}

pub fn write_folder_list(w: &mut MessageWriter, folders: &[FolderContents])
    ensures
        final(w)@ == old(w)@ + folder_list_bytes(folders_view(folders@)),
{
    let ghost fs = folders_view(folders@);
    let ghost f = |x: FolderView| folder_bytes(x);
    w.write_u32(folders.len() as u32);
    let ghost start = w@;
    let mut i: usize = 0;
    proof {
        assert(fs.take(0) =~= Seq::<FolderView>::empty());
        assert(start + concat_map(fs.take(0), f) =~= start);
    }
    while i < folders.len()
        invariant
            i <= folders@.len(),
            fs == folders_view(folders@),
            f == (|x: FolderView| folder_bytes(x)),
            w@ == start + concat_map(fs.take(i as int), f),
        decreases folders@.len() - i,
    {
        let ghost before = w@;
        w.write_string(folders[i].directory.as_str());
        write_file_list(w, folders[i].files.as_slice());
        proof {
            assert(w@ =~= before + folder_bytes(fs[i as int]));
            lemma_concat_map_push(fs.take(i as int), fs[i as int], f);
            assert(fs.take(i + 1) =~= fs.take(i as int).push(fs[i as int]));
        }
        i = i + 1;
    }
    proof {
        assert(fs.take(i as int) =~= fs);
    }
}

} // verus!
