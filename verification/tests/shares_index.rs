use newkitine::client::shares::cache::{cached_attributes, pack_cache, unpack_cache, CacheEntry};
use newkitine::client::shares::index::{DirEntry, EntryKind, FolderScan, SharesIndex};
use newkitine::types::FileAttributes;

/// A directory of a test share: its files (name and size) and its
/// subdirectories.
struct Dir {
    files: Vec<(&'static str, u64)>,
    dirs: Vec<(&'static str, Dir)>,
}

fn find<'a>(root: &'a Dir, real_root: &str, real: &str) -> &'a Dir {
    let rest = real.strip_prefix(real_root).unwrap();
    let mut dir = root;
    for part in rest.split('/').filter(|p| !p.is_empty()) {
        dir = &dir.dirs.iter().find(|(name, _)| *name == part).unwrap().1;
    }
    dir
}

/// Scans a test share the way the client walks a shared folder.
fn share(index: &mut SharesIndex, virtual_name: &str, real_root: &str, root: &Dir, buddy_only: bool) {
    let mut stack = vec![(real_root.to_string(), virtual_name.to_string())];
    while let Some((real_dir, virtual_dir)) = stack.pop() {
        if index.has_folder(&virtual_dir) {
            continue;
        }
        let dir = find(root, real_root, &real_dir);
        let mut scan = FolderScan::new(virtual_dir);
        for (name, sub) in &dir.dirs {
            let _ = sub;
            let entry = DirEntry {
                name: name.to_string(),
                real_path: format!("{real_dir}/{name}"),
                kind: EntryKind::Folder,
                size: 0,
                attributes: FileAttributes::default(),
            };
            index.add_entry(&mut scan, entry, buddy_only);
        }
        for (name, size) in &dir.files {
            let entry = DirEntry {
                name: name.to_string(),
                real_path: format!("{real_dir}/{name}"),
                kind: EntryKind::File,
                size: *size,
                attributes: FileAttributes::default(),
            };
            index.add_entry(&mut scan, entry, buddy_only);
        }
        stack.extend(index.finish_folder(scan, buddy_only));
    }
}

fn test_index() -> SharesIndex {
    let public = Dir {
        files: vec![],
        dirs: vec![(
            "Sample Album",
            Dir { files: vec![("First Song.flac", 300), ("Second Tune.ogg", 300)], dirs: vec![] },
        )],
    };
    let secret = Dir { files: vec![("hidden song.wav", 300)], dirs: vec![] };
    let mut index = SharesIndex::new();
    share(&mut index, "Public", "/base/public", &public, false);
    share(&mut index, "Private", "/base/secret", &secret, true);
    index
}

fn check_search_word_matching() {
    let index = test_index();

    let results = index.search("sample first", false, &[]);
    assert_eq!(results.len(), 1);
    assert_eq!(results[0].name, "Public\\Sample Album\\First Song.flac");

    assert!(index.search("sample missing", false, &[]).is_empty());

    let excluded = index.search("sample -tune", false, &[]);
    assert_eq!(excluded.len(), 1);
    assert_eq!(excluded[0].name, "Public\\Sample Album\\First Song.flac");

    let partial = index.search("sample *une", false, &[]);
    assert_eq!(partial.len(), 1);
    assert_eq!(partial[0].name, "Public\\Sample Album\\Second Tune.ogg");

    assert_eq!(index.search("SAMPLE ALBUM", false, &[]).len(), 2);
    assert!(index.search("ab", false, &[]).is_empty());
}

fn check_search_respects_permissions_and_phrases() {
    let index = test_index();

    assert!(index.search("hidden song", false, &[]).is_empty());
    let buddy = index.search("hidden song", true, &[]);
    assert_eq!(buddy.len(), 1);
    assert_eq!(buddy[0].name, "Private\\hidden song.wav");

    assert!(index.search("first song", false, &["first".into()]).is_empty());
}

fn check_browse_and_resolve() {
    let index = test_index();

    let public = index.browse(false);
    assert!(public.iter().all(|folder| !folder.directory.starts_with("Private")));
    let buddy = index.browse(true);
    assert!(buddy.iter().any(|folder| folder.directory == "Private"));

    let (path, size, _) = index
        .resolve("public\\sample album\\FIRST SONG.FLAC", false)
        .expect("case-insensitive resolve");
    assert_eq!(size, 300);
    assert!(path.ends_with("Sample Album/First Song.flac"));
    assert!(index.resolve("Private\\hidden song.wav", false).is_none());
    assert!(index.resolve("Private\\hidden song.wav", true).is_some());

    assert_eq!(index.folder_contents("Public\\Sample Album", false).len(), 1);
    assert!(index.folder_contents("Private", false).is_empty());
    assert!(index.folder_contents("Nope", true).is_empty());
}

#[test]
fn shares_search_word_matching() {
    check_search_word_matching();
}

#[test]
fn shares_search_respects_permissions_and_phrases() {
    check_search_respects_permissions_and_phrases();
}

#[test]
fn shares_browse_and_resolve() {
    check_browse_and_resolve();
}

#[test]
fn scan_search_word_matching() {
    check_search_word_matching();
}

#[test]
fn scan_search_respects_permissions_and_phrases() {
    check_search_respects_permissions_and_phrases();
}

#[test]
fn scan_browse_and_resolve() {
    check_browse_and_resolve();
}

#[test]
fn counts_leave_out_buddy_only_shares() {
    let index = test_index();
    assert_eq!(index.counts(), (2, 2));
}

#[test]
fn hidden_entries_are_not_shared_and_case_variants_are() {
    let root = Dir {
        files: vec![(".secret", 10), ("Song.mp3", 20), ("SONG.MP3", 30), ("a\\b.mp3", 40)],
        dirs: vec![(".cache", Dir { files: vec![("x.mp3", 1)], dirs: vec![] })],
    };
    let mut index = SharesIndex::new();
    share(&mut index, "Music", "/m", &root, false);
    assert_eq!(index.counts(), (1, 3));
    let (path, size, _) = index.resolve("Music\\SONG.MP3", false).unwrap();
    assert_eq!(path, "/m/SONG.MP3");
    assert_eq!(size, 30);
    let (path, size, _) = index.resolve("Music\\Song.mp3", false).unwrap();
    assert_eq!(path, "/m/Song.mp3");
    assert_eq!(size, 20);
    // No exact spelling: the first file shared under another case.
    let (path, size, _) = index.resolve("music\\song.mp3", false).unwrap();
    assert_eq!(path, "/m/Song.mp3");
    assert_eq!(size, 20);
    let listing = index.folder_contents("Music", false);
    let names: Vec<&str> = listing[0].files.iter().map(|f| f.name.as_str()).collect();
    assert_eq!(names, vec!["SONG.MP3", "Song.mp3", "a@@BACKSLASH@@b.mp3"]);
    assert!(index.resolve("Music\\a@@BACKSLASH@@b.mp3", false).is_some());
    assert!(index.has_folder("Music"));
    assert!(!index.has_folder("Music\\.cache"));
}

#[test]
fn case_colliding_paths_scan_and_resolve() {
    let root = Dir {
        files: vec![],
        dirs: vec![
            ("moe shop - pure", Dir { files: vec![("Crush.mp3", 200)], dirs: vec![] }),
            ("Moe Shop - Pure", Dir { files: vec![("Crush.mp3", 300)], dirs: vec![] }),
        ],
    };
    let mut index = SharesIndex::new();
    share(&mut index, "Music", "/base/music", &root, false);
    let (folders, files) = index.counts();
    assert_eq!(folders, 3);
    assert_eq!(files, 2);
    let (path, size, _) = index.resolve("Music\\Moe Shop - Pure\\Crush.mp3", false).expect("resolve exact case");
    assert_eq!(size, 300);
    assert!(path.starts_with("/base/music/Moe Shop - Pure"));
    let (path, size, _) = index
        .resolve("Music\\moe shop - pure\\Crush.mp3", false)
        .expect("resolve other exact case");
    assert_eq!(size, 200);
    assert!(path.starts_with("/base/music/moe shop - pure"));
    assert!(index.resolve("MUSIC\\MOE SHOP - PURE\\CRUSH.MP3", false).is_some());
}

#[test]
fn search_results_are_sorted_and_capped() {
    let mut files = Vec::new();
    let names: Vec<String> = (0..310).rev().map(|i| format!("track {i:03}.mp3")).collect();
    for name in &names {
        files.push((Box::leak(name.clone().into_boxed_str()) as &'static str, 5));
    }
    let root = Dir { files, dirs: vec![] };
    let mut index = SharesIndex::new();
    share(&mut index, "Big", "/big", &root, false);
    let results = index.search("track", false, &[]);
    assert_eq!(results.len(), 300);
    assert!(results.windows(2).all(|w| w[0].name <= w[1].name));
    // The first 300 files in index order are kept: tracks 309 down to 10.
    assert_eq!(results[0].name, "Big\\track 010.mp3");
    assert_eq!(results[299].name, "Big\\track 309.mp3");
}

#[test]
fn cached_attributes_hold_while_size_and_time_match() {
    let attributes = FileAttributes { bitrate: Some(320), length: Some(210), ..FileAttributes::empty() };
    let entry = CacheEntry { size: 300, mtime: 1_234_567_890, attributes };
    assert_eq!(cached_attributes(Some(&entry), 300, 1_234_567_890), Some(attributes));
    assert_eq!(cached_attributes(Some(&entry), 301, 1_234_567_890), None);
    assert_eq!(cached_attributes(Some(&entry), 300, 1_234_567_891), None);
    assert_eq!(cached_attributes(None, 300, 1_234_567_890), None);
    let json = br#"{"/music/song.mp3":{"size":300}}"#;
    let file = pack_cache(json);
    assert_ne!(file.as_slice(), json.as_slice());
    assert_eq!(unpack_cache(&file), Some(json.to_vec()));
    assert_eq!(unpack_cache(b"not gzip at all"), None);
}
