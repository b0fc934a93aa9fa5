//! Where downloaded files land: file names made safe for the local file
//! system, and folders that mirror the remote share.
//!
//! Paths are text with `/` between components; virtual paths of shares use
//! `\`.
use vstd::prelude::*;

use crate::protocol::server_request::{hex_lower, md5_digest, md5_of, to_hex_lower};
use crate::text::{
    char_utf8_width, find_last, fit_prefix, fit_prefix_chars, last_index_of, split_chars,
    split_on, string_from_chars, strip_prefix_chars, strip_prefix_or_self, slice_range, utf8_len,
    utf8_len_of,
};
use crate::protocol::wire::chars_of;

verus! {

broadcast use vstd::seq::group_seq_axioms;

/// Byte limit of a file name where the file system does not say.
pub const DEFAULT_BASENAME_BYTE_LIMIT: usize = 255;

/// Characters that cannot stand in a file name: path separators, the
/// characters Windows refuses, and control characters.
pub open spec fn is_unsafe_char(c: char) -> bool {
    c == '/' || c == '\\' || c == ':' || c == '*' || c == '?' || c == '"' || c == '<' || c == '>'
        || c == '|' || (c as u32) <= 0x1f
}

pub open spec fn replace_unsafe(s: Seq<char>) -> Seq<char> {
    s.map_values(|c: char| if is_unsafe_char(c) { '_' } else { c })
}

/// `s` without its leading spaces.
pub open spec fn trim_leading_spaces(s: Seq<char>) -> Seq<char>
    decreases s.len(),
{
    if s.len() > 0 && s[0] == ' ' {
        trim_leading_spaces(s.drop_first())
    } else {
        s
    }
}

/// `s` without its trailing dots and spaces.
pub open spec fn trim_trailing_dots_spaces(s: Seq<char>) -> Seq<char>
    decreases s.len(),
{
    if s.len() > 0 && (s.last() == '.' || s.last() == ' ') {
        trim_trailing_dots_spaces(s.drop_last())
    } else {
        s
    }
}

/// A name safe for the local file system: unsafe characters become `_`,
/// leading spaces and trailing dots and spaces go; a name left empty is
/// all underscores, one per character.
pub open spec fn clean_name(name: Seq<char>) -> Seq<char> {
    let replaced = replace_unsafe(name);
    let trimmed = trim_trailing_dots_spaces(trim_leading_spaces(replaced));
    if trimmed.len() == 0 {
        Seq::new(replaced.len(), |i: int| '_')
    } else {
        trimmed
    }
}

pub fn clean_file_name(name: &str) -> (cleaned: String)
    ensures
        cleaned@ == clean_name(name@),
{
    let chars = chars_of(name);
    let mut replaced: Vec<char> = Vec::new();
    let mut i: usize = 0;
    while i < chars.len()
        invariant
            i <= chars@.len(),
            chars@ == name@,
            replaced@ =~= replace_unsafe(chars@.subrange(0, i as int)),
        decreases chars@.len() - i,
    {
        let c = chars[i];
        let unsafe_char = c == '/' || c == '\\' || c == ':' || c == '*' || c == '?' || c == '"'
            || c == '<' || c == '>' || c == '|' || (c as u32) <= 0x1f;
        replaced.push(if unsafe_char { '_' } else { c });
        i = i + 1;
    }
    proof {
        assert(chars@.subrange(0, i as int) =~= name@);
    }
    let ghost r = replaced@;
    let mut start: usize = 0;
    proof {
        assert(r.subrange(0, r.len() as int) =~= r);
    }
    while start < replaced.len() && replaced[start] == ' '
        invariant
            start <= r.len(),
            r == replaced@,
            trim_leading_spaces(r) == trim_leading_spaces(r.subrange(start as int, r.len() as int)),
        decreases r.len() - start,
    {
        proof {
            assert(r.subrange(start as int, r.len() as int).drop_first() =~= r.subrange(
                start + 1,
                r.len() as int,
            ));
        }
        start = start + 1;
    }
    let mut end = replaced.len();
    proof {
        assert(trim_leading_spaces(r) == r.subrange(start as int, r.len() as int));
    }
    while end > start && (replaced[end - 1] == '.' || replaced[end - 1] == ' ')
        invariant
            start <= end <= r.len(),
            r == replaced@,
            trim_trailing_dots_spaces(trim_leading_spaces(r)) == trim_trailing_dots_spaces(
                r.subrange(start as int, end as int),
            ),
        decreases end,
    {
        proof {
            assert(r.subrange(start as int, end as int).drop_last() =~= r.subrange(
                start as int,
                end - 1,
            ));
        }
        end = end - 1;
    }
    if start == end {
        proof {
            assert(r.subrange(start as int, end as int) =~= Seq::<char>::empty());
        }
        let mut underscores: Vec<char> = Vec::new();
        let mut k: usize = 0;
        while k < replaced.len()
            invariant
                k <= r.len(),
                r == replaced@,
                underscores@ =~= Seq::new(k as nat, |j: int| '_'),
            decreases r.len() - k,
        {
            underscores.push('_');
            k = k + 1;
        }
        string_from_chars(underscores.as_slice())
    } else {
        let kept = slice_range(replaced.as_slice(), start, end);
        string_from_chars(kept.as_slice())
    }
}

/// `base` followed by the path component `part`, as `PathBuf::push` joins a
/// relative component.
pub open spec fn path_join(base: Seq<char>, part: Seq<char>) -> Seq<char> {
    if base.len() == 0 {
        part
    } else if base.last() == '/' {
        base + part
    } else {
        base + seq!['/'] + part
    }
}

/// `base` with the non-empty components `parts[i..]` cleaned and joined.
pub open spec fn join_clean_from(base: Seq<char>, parts: Seq<Seq<char>>, i: int) -> Seq<char>
    decreases parts.len() - i,
{
    if i < 0 || i >= parts.len() {
        base
    } else if parts[i].len() == 0 {
        join_clean_from(base, parts, i + 1)
    } else {
        join_clean_from(path_join(base, clean_name(parts[i])), parts, i + 1)
    }
}

pub fn join_path(base: &str, part: &str) -> (joined: String)
    ensures
        joined@ == path_join(base@, part@),
{
    let b = chars_of(base);
    let p = chars_of(part);
    let mut out = slice_range(b.as_slice(), 0, b.len());
    if b.len() > 0 && b[b.len() - 1] != '/' {
        out.push('/');
    }
    let mut i: usize = 0;
    let ghost start = out@;
    while i < p.len()
        invariant
            i <= p@.len(),
            out@ =~= start + p@.subrange(0, i as int),
        decreases p@.len() - i,
    {
        out.push(p[i]);
        i = i + 1;
    }
    proof {
        assert(p@.subrange(0, i as int) =~= part@);
    }
    string_from_chars(out.as_slice())
}

fn join_clean(base: &str, parts: &Vec<Vec<char>>) -> (path: String)
    ensures
        path@ == join_clean_from(base@, parts@.map_values(|p: Vec<char>| p@), 0),
{
    let ghost ps = parts@.map_values(|p: Vec<char>| p@);
    let mut path = base.to_owned();
    let mut i: usize = 0;
    while i < parts.len()
        invariant
            i <= parts@.len(),
            ps == parts@.map_values(|p: Vec<char>| p@),
            join_clean_from(base@, ps, 0) == join_clean_from(path@, ps, i as int),
        decreases parts@.len() - i,
    {
        if parts[i].len() > 0 {
            let part = string_from_chars(parts[i].as_slice());
            let cleaned = clean_file_name(part.as_str());
            path = join_path(path.as_str(), cleaned.as_str());
        }
        i = i + 1;
    }
    path
}

/// The folder part of a virtual path: everything before the last `\`.
pub open spec fn virtual_folder_of(virtual_path: Seq<char>) -> Seq<char> {
    let k = last_index_of(virtual_path, '\\');
    if k < 0 {
        Seq::empty()
    } else {
        virtual_path.subrange(0, k)
    }
}

/// The file name of a virtual path: everything after the last `\`.
pub open spec fn virtual_basename_of(virtual_path: Seq<char>) -> Seq<char> {
    let k = last_index_of(virtual_path, '\\');
    if k < 0 {
        virtual_path
    } else {
        virtual_path.subrange(k + 1, virtual_path.len() as int)
    }
}

pub fn virtual_folder(virtual_path: &str) -> (folder: String)
    ensures
        folder@ == virtual_folder_of(virtual_path@),
{
    let chars = chars_of(virtual_path);
    proof {
        crate::text::lemma_last_index_of_bounds(chars@, '\\');
    }
    match find_last(chars.as_slice(), '\\') {
        Some(k) => string_from_chars(slice_range(chars.as_slice(), 0, k).as_slice()),
        None => String::new(),
    }
}

pub fn virtual_basename(virtual_path: &str) -> (name: String)
    ensures
        name@ == virtual_basename_of(virtual_path@),
{
    let chars = chars_of(virtual_path);
    proof {
        crate::text::lemma_last_index_of_bounds(chars@, '\\');
    }
    match find_last(chars.as_slice(), '\\') {
        Some(k) => {
            assert(k < chars.len());
            string_from_chars(slice_range(chars.as_slice(), k + 1, chars.len()).as_slice())
        },
        None => virtual_path.to_owned(),
    }
}

/// The folder for downloads of a user: the download folder, or the user's
/// own subfolder of it.
pub open spec fn default_dir(
    download_dir: Seq<char>,
    username_subfolders: bool,
    username: Seq<char>,
) -> Seq<char> {
    if username_subfolders {
        join_clean_from(download_dir, seq![username], 0)
    } else {
        download_dir
    }
}

pub fn default_download_dir(
    download_dir: &str,
    username_subfolders: bool,
    username: &str,
) -> (dir: String)
    ensures
        dir@ == default_dir(download_dir@, username_subfolders, username@),
{
    if username_subfolders {
        let mut parts: Vec<Vec<char>> = Vec::new();
        parts.push(chars_of(username));
        proof {
            assert(parts@.map_values(|p: Vec<char>| p@) =~= seq![username@]);
        }
        join_clean(download_dir, &parts)
    } else {
        download_dir.to_owned()
    }
}

/// Where a file of a folder download lands: below the user's download
/// folder, the remote folders from the downloaded folder's name down.
pub open spec fn folder_destination_of(
    download_dir: Seq<char>,
    username_subfolders: bool,
    username: Seq<char>,
    virtual_path: Seq<char>,
    root: Option<Seq<char>>,
) -> Seq<char> {
    let base = default_dir(download_dir, username_subfolders, username);
    match root {
        None => base,
        Some(r) => {
            let removed_parents = virtual_folder_of(r);
            let target = strip_prefix_or_self(virtual_folder_of(virtual_path), removed_parents);
            join_clean_from(base, split_on(target, '\\'), 0)
        },
    }
}

pub fn folder_destination(
    download_dir: &str,
    username_subfolders: bool,
    username: &str,
    virtual_path: &str,
    root: Option<&str>,
) -> (dir: String)
    ensures
        dir@ == folder_destination_of(
            download_dir@,
            username_subfolders,
            username@,
            virtual_path@,
            match root {
                Some(r) => Some(r@),
                None => None,
            },
        ),
{
    let base = default_download_dir(download_dir, username_subfolders, username);
    match root {
        None => base,
        Some(root) => {
            let removed_parents = virtual_folder(root);
            let folder = virtual_folder(virtual_path);
            let target = strip_prefix_chars(
                chars_of(folder.as_str()).as_slice(),
                chars_of(removed_parents.as_str()).as_slice(),
            );
            let parts = split_chars(target.as_slice(), '\\');
            join_clean(base.as_str(), &parts)
        },
    }
}

/// Position of the extension of a file name: the last `.`, unless it
/// starts the name.
pub open spec fn extension_start(name: Seq<char>) -> int {
    let d = last_index_of(name, '.');
    if d > 0 {
        d
    } else {
        name.len() as int
    }
}

/// A file name for a download that fits in `max_bytes` bytes: the cleaned
/// remote name, its stem cut to leave room for the extension, or the
/// extension alone cut when it does not fit.
pub open spec fn download_basename_of(virtual_path: Seq<char>, max_bytes: int) -> Seq<char> {
    let name = clean_name(virtual_basename_of(virtual_path));
    let d = extension_start(name);
    let stem = name.subrange(0, d);
    let extension = name.subrange(d, name.len() as int);
    if utf8_len(extension) > max_bytes {
        fit_prefix(extension, max_bytes)
    } else {
        fit_prefix(stem, max_bytes - utf8_len(extension)) + extension
    }
}

pub fn download_basename(virtual_path: &str, max_bytes: usize) -> (name: String)
    requires
        virtual_path@.len() <= usize::MAX / 8,
    ensures
        name@ == download_basename_of(virtual_path@, max_bytes as int),
{
    let basename = virtual_basename(virtual_path);
    let cleaned = clean_file_name(basename.as_str());
    let chars = chars_of(cleaned.as_str());
    proof {
        crate::text::lemma_last_index_of_bounds(chars@, '.');
        assert(chars@.len() <= usize::MAX / 4) by {
            crate::text::lemma_last_index_of_bounds(virtual_path@, '\\');
            assert(virtual_basename_of(virtual_path@).len() <= virtual_path@.len());
            lemma_clean_name_len(virtual_basename_of(virtual_path@));
        }
    }
    let d = match find_last(chars.as_slice(), '.') {
        Some(k) if k > 0 => k,
        _ => chars.len(),
    };
    let stem = slice_range(chars.as_slice(), 0, d);
    let extension = slice_range(chars.as_slice(), d, chars.len());
    let extension_len = utf8_len_of(extension.as_slice());
    if extension_len > max_bytes {
        return string_from_chars(fit_prefix_chars(extension.as_slice(), max_bytes).as_slice());
    }
    let mut out = fit_prefix_chars(stem.as_slice(), max_bytes - extension_len);
    let ghost head = out@;
    let mut i: usize = 0;
    while i < extension.len()
        invariant
            i <= extension@.len(),
            out@ =~= head + extension@.subrange(0, i as int),
        decreases extension@.len() - i,
    {
        out.push(extension[i]);
        i = i + 1;
    }
    proof {
        assert(extension@.subrange(0, i as int) =~= extension@);
    }
    string_from_chars(out.as_slice())
}

/// A cleaned name has at most twice the characters of the original.
proof fn lemma_clean_name_len(name: Seq<char>)
    ensures
        clean_name(name).len() <= name.len(),
{
    lemma_trim_leading_len(replace_unsafe(name));
    lemma_trim_trailing_len(trim_leading_spaces(replace_unsafe(name)));
}

proof fn lemma_trim_leading_len(s: Seq<char>)
    ensures
        trim_leading_spaces(s).len() <= s.len(),
    decreases s.len(),
{
    if s.len() > 0 && s[0] == ' ' {
        lemma_trim_leading_len(s.drop_first());
    }
}

proof fn lemma_trim_trailing_len(s: Seq<char>)
    ensures
        trim_trailing_dots_spaces(s).len() <= s.len(),
    decreases s.len(),
{
    if s.len() > 0 && (s.last() == '.' || s.last() == ' ') {
        lemma_trim_trailing_len(s.drop_last());
    }
}

/// A download's name fits in the byte limit.
pub proof fn law_download_basename_fits(virtual_path: Seq<char>, max_bytes: int)
    requires
        max_bytes >= 0,
    ensures
        utf8_len(download_basename_of(virtual_path, max_bytes)) <= max_bytes,
{
    let name = clean_name(virtual_basename_of(virtual_path));
    let d = extension_start(name);
    let stem = name.subrange(0, d);
    let extension = name.subrange(d, name.len() as int);
    if utf8_len(extension) > max_bytes {
        lemma_fit_prefix_fits(extension, max_bytes);
    } else {
        lemma_fit_prefix_fits(stem, max_bytes - utf8_len(extension));
        lemma_utf8_len_concat(fit_prefix(stem, max_bytes - utf8_len(extension)), extension);
    }
}

pub proof fn lemma_fit_prefix_fits(s: Seq<char>, limit: int)
    requires
        limit >= 0,
    ensures
        utf8_len(fit_prefix(s, limit)) <= limit,
    decreases s.len(),
{
    if s.len() > 0 && crate::text::char_width(s[0]) <= limit {
        lemma_fit_prefix_fits(s.drop_first(), limit - crate::text::char_width(s[0]));
        let rest = fit_prefix(s.drop_first(), limit - crate::text::char_width(s[0]));
        let out = seq![s[0]] + rest;
        assert(out[0] == s[0]);
        assert(out.drop_first() =~= rest);
    } else if s.len() > 0 {
        assert(fit_prefix(s, limit) =~= Seq::<char>::empty());
    }
}

pub proof fn lemma_utf8_len_concat(a: Seq<char>, b: Seq<char>)
    ensures
        utf8_len(a + b) == utf8_len(a) + utf8_len(b),
    decreases a.len(),
{
    if a.len() == 0 {
        assert(a + b =~= b);
    } else {
        lemma_utf8_len_concat(a.drop_first(), b);
        assert((a + b).drop_first() =~= a.drop_first() + b);
        assert((a + b)[0] == a[0]);
    }
}

/// Name of the partial file of a download, in the folder of incomplete
/// files: `INCOMPLETE`, the MD5 of the virtual path and user name, and the
/// download's name, together within the byte limit.
pub open spec fn incomplete_file_path_of(
    incomplete_dir: Seq<char>,
    username: Seq<char>,
    virtual_path: Seq<char>,
    max_bytes: int,
) -> Seq<char> {
    let prefix = "INCOMPLETE"@ + hex_lower(md5_of(
        vstd::utf8::encode_utf8(virtual_path) + vstd::utf8::encode_utf8(username),
    ));
    let room = if max_bytes >= prefix.len() { max_bytes - prefix.len() } else { 0 };
    path_join(incomplete_dir, prefix + download_basename_of(virtual_path, room))
}

pub fn incomplete_file_path(
    incomplete_dir: &str,
    username: &str,
    virtual_path: &str,
    max_bytes: usize,
) -> (path: String)
    requires
        virtual_path@.len() <= usize::MAX / 8,
    ensures
        path@ == incomplete_file_path_of(incomplete_dir@, username@, virtual_path@, max_bytes as int),
{
    let mut joined = vstd::slice::slice_to_vec(virtual_path.as_bytes());
    assert(joined@ == vstd::utf8::encode_utf8(virtual_path@));
    joined.extend_from_slice(username.as_bytes());
    assert(joined@ == vstd::utf8::encode_utf8(virtual_path@) + vstd::utf8::encode_utf8(username@));
    let digest = md5_digest(joined.as_slice());
    let hex = to_hex_lower(digest.as_slice());
    let prefix_text = "INCOMPLETE";
    proof {
        reveal_strlit("INCOMPLETE");
    }
    let mut prefix = chars_of(prefix_text);
    let hex_chars = chars_of(hex.as_str());
    let ghost head = prefix@;
    let mut i: usize = 0;
    while i < hex_chars.len()
        invariant
            i <= hex_chars@.len(),
            prefix@ =~= head + hex_chars@.subrange(0, i as int),
        decreases hex_chars@.len() - i,
    {
        prefix.push(hex_chars[i]);
        i = i + 1;
    }
    proof {
        assert(hex_chars@.subrange(0, i as int) =~= hex@);
    }
    let room = if max_bytes >= prefix.len() { max_bytes - prefix.len() } else { 0 };
    let basename = download_basename(virtual_path, room);
    let name_chars = chars_of(basename.as_str());
    let ghost head2 = prefix@;
    let mut k: usize = 0;
    while k < name_chars.len()
        invariant
            k <= name_chars@.len(),
            prefix@ =~= head2 + name_chars@.subrange(0, k as int),
        decreases name_chars@.len() - k,
    {
        prefix.push(name_chars[k]);
        k = k + 1;
    }
    proof {
        assert(name_chars@.subrange(0, k as int) =~= basename@);
    }
    let name = string_from_chars(prefix.as_slice());
    join_path(incomplete_dir, name.as_str())
}

/// A file name cut before its extension: the stem and the extension with
/// its dot.
pub open spec fn split_extension_of(name: Seq<char>) -> (Seq<char>, Seq<char>) {
    (name.subrange(0, extension_start(name)), name.subrange(extension_start(name), name.len() as int))
}

/// A file name cut before its extension.
pub fn split_extension(basename: &str) -> (parts: (String, String))
    ensures
        (parts.0@, parts.1@) == split_extension_of(basename@),
{
    let chars = chars_of(basename);
    proof {
        crate::text::lemma_last_index_of_bounds(chars@, '.');
    }
    let d = match find_last(chars.as_slice(), '.') {
        Some(k) if k > 0 => k,
        _ => chars.len(),
    };
    let stem = slice_range(chars.as_slice(), 0, d);
    let extension = slice_range(chars.as_slice(), d, chars.len());
    (string_from_chars(stem.as_slice()), string_from_chars(extension.as_slice()))
}

/// The longest prefix of a text whose UTF-8 encoding fits in `limit`
/// bytes.
pub fn truncate_bytes(value: &str, limit: usize) -> (out: String)
    ensures
        out@ == fit_prefix(value@, limit as int),
{
    let chars = chars_of(value);
    string_from_chars(fit_prefix_chars(chars.as_slice(), limit).as_slice())
}

/// The digit of a number below ten.
pub open spec fn digit_char(d: nat) -> char {
    (48 + d) as char
}

/// A number in decimal.
pub open spec fn decimal_of(n: nat) -> Seq<char>
    decreases n,
{
    if n < 10 {
        seq![digit_char(n)]
    } else {
        decimal_of(n / 10).push(digit_char(n % 10))
    }
}

/// Appends a number in decimal.
fn push_decimal(out: &mut Vec<char>, n: u64)
    ensures
        final(out)@ == old(out)@ + decimal_of(n as nat),
    decreases n,
{
    if n >= 10 {
        push_decimal(out, n / 10);
    }
    let d = (n % 10) as u8;
    let c = (48u8 + d) as char;
    proof {
        assert(c == digit_char((n % 10) as nat));
    }
    out.push(c);
    proof {
        if n >= 10 {
            assert(old(out)@ + decimal_of(n as nat) =~= (old(out)@ + decimal_of((n / 10) as nat)).push(c));
        } else {
            assert(old(out)@ + decimal_of(n as nat) =~= old(out)@.push(c));
        }
    }
}

/// The name a download is placed under when the names before it are
/// taken: the name itself first, then the stem with ` (1)`, ` (2)` and so
/// on before the extension.
pub open spec fn candidate_name_of(basename: Seq<char>, counter: nat) -> Seq<char> {
    if counter == 0 {
        basename
    } else {
        split_extension_of(basename).0 + seq![' ', '('] + decimal_of(counter) + seq![')']
            + split_extension_of(basename).1
    }
}

/// The `counter`-th name tried for a download.
pub fn candidate_name(basename: &str, counter: u64) -> (name: String)
    ensures
        name@ == candidate_name_of(basename@, counter as nat),
{
    if counter == 0 {
        return basename.to_owned();
    }
    let (stem, extension) = split_extension(basename);
    let mut out = chars_of(stem.as_str());
    out.push(' ');
    out.push('(');
    push_decimal(&mut out, counter);
    out.push(')');
    let tail = chars_of(extension.as_str());
    let ghost head = out@;
    let mut i: usize = 0;
    while i < tail.len()
        invariant
            i <= tail@.len(),
            out@ == head + tail@.take(i as int),
        decreases tail@.len() - i,
    {
        out.push(tail[i]);
        proof {
            assert(tail@.take(i + 1) =~= tail@.take(i as int).push(tail@[i as int]));
        }
        i = i + 1;
    }
    proof {
        assert(tail@.take(i as int) =~= tail@);
        assert(out@ =~= candidate_name_of(basename@, counter as nat));
    }
    string_from_chars(out.as_slice())
}

} // verus!
