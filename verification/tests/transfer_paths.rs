use newkitine::client::transfers::files::{clean_file_name, download_basename, folder_destination};
use newkitine::client::transfers::folders::destination_root;

fn destination(username_subfolders: bool, virtual_path: &str, root: Option<&str>) -> String {
    folder_destination("/data", username_subfolders, "newuser", virtual_path, root)
}

#[test]
fn folder_destination_matches_nicotine() {
    assert_eq!(
        destination(false, "Hello\\Path\\file.mp3", Some("Hello\\Path")),
        "/data/Path"
    );
    assert_eq!(
        destination(true, "Hello\\Path\\file.mp3", Some("Hello\\Path")),
        "/data/newuser/Path"
    );
    assert_eq!(destination(true, "Hello\\file.mp3", Some("Hello")), "/data/newuser/Hello");
    assert_eq!(
        destination(
            true,
            "Hello\\Path\\Depth\\Hello Depth Test Path\\file.mp3",
            Some("Hello\\Path\\Depth\\Hello Depth Test Path")
        ),
        "/data/newuser/Hello Depth Test Path"
    );
}

#[test]
fn folder_destination_keeps_subfolders_below_the_root() {
    let root = Some("share\\Soulseek");
    assert_eq!(destination(false, "share\\Soulseek\\file1.mp3", root), "/data/Soulseek");
    assert_eq!(
        destination(false, "share\\Soulseek\\folder1\\file3.mp3", root),
        "/data/Soulseek/folder1"
    );
    assert_eq!(
        destination(false, "share\\Soulseek\\folder2\\sub2\\file6.mp3", root),
        "/data/Soulseek/folder2/sub2"
    );
    assert_eq!(destination(false, "share\\file.mp3", Some("share")), "/data/share");
    assert_eq!(
        destination(false, "share\\Soulseek\\folder1\\sub1\\file4.mp3", Some("share")),
        "/data/share/Soulseek/folder1/sub1"
    );
}

#[test]
fn single_file_downloads_land_in_the_default_folder() {
    assert_eq!(destination(false, "share\\Music\\song.mp3", None), "/data");
    assert_eq!(destination(true, "share\\Music\\song.mp3", None), "/data/newuser");
}

#[test]
fn clean_file_name_matches_nicotine() {
    assert_eq!(clean_file_name(".."), "__");
    assert_eq!(clean_file_name("a/b\\c:d*e?f\"g<h>i|j"), "a_b_c_d_e_f_g_h_i_j");
    assert_eq!(clean_file_name("song\u{7}name\u{1f}.mp3"), "song_name_.mp3");
    assert_eq!(clean_file_name("  spaced out. . "), "spaced out");
    assert_eq!(clean_file_name("///"), "___");
    assert_eq!(clean_file_name("片片片"), "片片片");
}

#[test]
fn download_basename_stays_within_the_byte_limit() {
    let virtual_path = format!("Music\\{}.mp3", "片".repeat(200));
    let basename = download_basename(&virtual_path, 255);
    assert!(basename.len() <= 255);
    assert!(basename.starts_with('片'));
    assert!(basename.ends_with(".mp3"));

    let long_extension = format!("Music\\name.{}", "x".repeat(300));
    assert_eq!(download_basename(&long_extension, 8).len(), 8);
}

#[test]
fn short_folder_names_keep_their_parent() {
    assert_eq!(destination_root("Music\\Artist\\CD1"), "Music\\Artist");
    assert_eq!(destination_root("Music\\Artist\\Disc 2"), "Music\\Artist");
    assert_eq!(
        destination_root("Music\\Artist\\A Long Album Name"),
        "Music\\Artist\\A Long Album Name"
    );
    assert_eq!(destination_root("CD1"), "CD1");
}
