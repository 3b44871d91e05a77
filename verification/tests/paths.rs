use meowverter::paths::{available_output_path, join_path, leaf, locate_tools, marker_path, temp_name, ytdlp_path};
use std::cell::RefCell;
use std::collections::HashMap;

#[test]
fn existing_output_gets_a_unique_name() {
    // a folder holding one file, as the file system would report it
    let mut files: HashMap<String, Vec<u8>> = HashMap::new();
    let dir = "/tmp/meowverter_collision_test_1_0";
    let existing = format!("{dir}/clip_Meowverter.mp4");
    files.insert(existing.clone(), b"keep me".to_vec());

    let exists = |p: &str| files.contains_key(p);
    let picked = available_output_path(&existing, &exists);
    assert!(picked.ends_with("clip_Meowverter_2.mp4"));
    assert_eq!(files.get(&existing).unwrap(), b"keep me");
}

#[test]
fn free_path_is_kept_and_taken_names_are_skipped() {
    let taken = ["out/a.mp4", "out\\a_2.mp4", "out\\a_3.mp4", "out/a_4.mp4"];
    let is_taken = |p: &str| taken.contains(&p);
    assert_eq!(available_output_path("out/b.mp4", &is_taken), "out/b.mp4");
    assert_eq!(available_output_path("out/a.mp4", &is_taken), "out\\a_4.mp4");
    let all = |_p: &str| true;
    assert_eq!(available_output_path("x.mp4", &all), "x.mp4");
    assert_eq!(available_output_path("C:\\v\\clip.tar.gz", &|p: &str| p == "C:\\v\\clip.tar.gz"), "C:\\v\\clip.tar_2.gz");
    assert_eq!(available_output_path("d/.bashrc", &|p: &str| p == "d/.bashrc"), "d\\.bashrc_2");
    // the folder as `Path::parent` gives it, joined with a backslash
    assert_eq!(available_output_path("d/.", &|p: &str| p == "d/."), "d_2");
    assert_eq!(available_output_path("a//b/./", &|p: &str| p == "a//b/./"), "a\\b_2");
    assert_eq!(available_output_path("a\\x.y.", &|p: &str| p == "a\\x.y."), "a\\x.y_2");
    assert_eq!(available_output_path("./x.mp4", &|p: &str| p == "./x.mp4"), ".\\x_2.mp4");
    assert_eq!(available_output_path("C:x.mp4", &|p: &str| p == "C:x.mp4"), "C:x_2.mp4");
    assert_eq!(available_output_path("C:\\x.mp4", &|p: &str| p == "C:\\x.mp4"), "C:\\x_2.mp4");
    assert_eq!(available_output_path("C:\\", &|p: &str| p == "C:\\"), "output_2");
    assert_eq!(available_output_path("C:.", &|p: &str| p == "C:."), "C:output_2");
    assert_eq!(available_output_path("dir/..", &|p: &str| p == "dir/.."), "dir\\output_2");
    assert_eq!(available_output_path("\\\\srv\\share\\v.mkv", &|p: &str| p.ends_with("v.mkv")), "\\\\srv\\share\\v_2.mkv");
    // verbatim paths: only '\\' separates, "." and ".." stay, the folder is written anew
    let once = |want: &'static str| move |p: &str| p == want;
    assert_eq!(available_output_path("\\\\?\\C:\\v\\a.mp4", &once("\\\\?\\C:\\v\\a.mp4")), "\\\\?\\C:\\v\\a_2.mp4");
    assert_eq!(available_output_path("\\\\?\\C:\\v\\.", &once("\\\\?\\C:\\v\\.")), "\\\\?\\C:\\v\\output_2");
    assert_eq!(available_output_path("\\\\?\\C:\\v/a.mp4", &once("\\\\?\\C:\\v/a.mp4")), "\\\\?\\C:\\v\\a_2.mp4");
    assert_eq!(available_output_path("\\\\?\\C:", &once("\\\\?\\C:")), "output_2");
    assert_eq!(available_output_path("\\\\?\\UNC\\srv\\sh\\clip.mkv", &once("\\\\?\\UNC\\srv\\sh\\clip.mkv")), "\\\\?\\UNC\\srv\\sh\\clip_2.mkv");
    assert_eq!(available_output_path("\\\\?\\C:\\a\\..\\b.mp4", &once("\\\\?\\C:\\a\\..\\b.mp4")), "\\\\?\\C:\\a\\..\\b_2.mp4");
    // a name that starts with a drive replaces the folder when joined
    assert_eq!(available_output_path("x\\C:y.mp4", &once("x\\C:y.mp4")), "C:y_2.mp4");
    assert_eq!(join_path("C:\\bin", "D:x", '\\'), "D:x");
    assert_eq!(available_output_path("noext", &|p: &str| p == "noext"), "noext_2");
    assert_eq!(available_output_path("dir/", &|p: &str| p == "dir/"), "dir_2");
    assert_eq!(available_output_path("/", &|p: &str| p == "/"), "output_2");
}

#[test]
fn leaf_names() {
    assert_eq!(leaf("C:\\Users\\me\\Videos\\clip.mp4"), "clip.mp4");
    assert_eq!(leaf("/tmp/x/y.gif"), "y.gif");
    assert_eq!(leaf("plain.mp3"), "plain.mp3");
    assert_eq!(leaf("dir/"), "");
}

#[test]
fn tool_locations() {
    assert_eq!(join_path("C:\\bin", "ffmpeg.exe", '\\'), "C:\\bin\\ffmpeg.exe");
    assert_eq!(join_path("/opt/bin/", "x", '/'), "/opt/bin/x");
    assert_eq!(join_path("", "x", '/'), "x");
    assert_eq!(marker_path("/b", '/'), "/b/ffmpeg_release.txt");
    assert_eq!(ytdlp_path("/b", '/', &|p: &str| p == "/b/yt-dlp.exe").as_deref(), Some("/b/yt-dlp.exe"));
    assert_eq!(ytdlp_path("/b", '/', &|_p: &str| false), None);
    let asked = RefCell::new(Vec::new());
    let runs = |n: &str| {
        asked.borrow_mut().push(n.to_string());
        n == "ffprobe"
    };
    let (m, p) = locate_tools("/b", '/', &|p: &str| p == "/b/ffmpeg.exe", &runs);
    assert_eq!(m.as_deref(), Some("/b/ffmpeg.exe"));
    assert_eq!(p.as_deref(), Some("ffprobe"));
    assert_eq!(*asked.borrow(), vec!["ffprobe".to_string()]);
    let (m2, p2) = locate_tools("/b", '/', &|_p: &str| false, &|_n: &str| false);
    assert_eq!((m2, p2), (None, None));
}

#[test]
fn temp_names() {
    assert_eq!(temp_name("meowverter_gifest", 42, 7, "gif"), "meowverter_gifest_42_7.gif");
    assert_eq!(temp_name("meowverter_collision_test", 1, 0, ""), "meowverter_collision_test_1_0");
}

use meowverter::paths::{check_distinct_output, same_path};

#[test]
fn output_must_differ_from_input() {
    assert!(same_path("C:\\v\\a.mp4", "C:/v//a.mp4"));
    assert!(same_path("v/./a.mp4", "v/a.mp4"));
    assert!(!same_path("./a.mp4", "a.mp4"));
    assert!(!same_path("/a.mp4", "a.mp4"));
    assert!(same_path("dir/", "dir"));
    assert!(!same_path("a.mp4", "b.mp4"));
    assert_eq!(check_distinct_output("a.mp4", "a.mp4").unwrap_err(), "The output file must be different from the original.");
    assert!(check_distinct_output("a.mkv", "a_Meowverter.mp4").is_ok());
    // Windows prefixes: a drive in either case, a root after the drive, network shares
    assert!(same_path("c:\\v\\a.mp4", "C:/v/a.mp4"));
    assert!(!same_path("C:", "C:\\"));
    assert!(!same_path("C:a.mp4", "C:\\a.mp4"));
    assert!(!same_path("C:\\a.mp4", "D:\\a.mp4"));
    assert!(same_path("//srv/share/a.mp4", "\\\\srv\\share\\a.mp4"));
    assert!(same_path("\\\\srv\\share", "\\\\srv\\share\\"));
    assert!(!same_path("\\\\srv\\share\\a.mp4", "\\srv\\share\\a.mp4"));
    assert!(!same_path("\\\\srv\\share\\a.mp4", "\\\\srv\\other\\a.mp4"));
    // verbatim paths: only '\\' separates, "." and ".." stay
    assert!(same_path("\\\\?\\C:\\v\\a.mp4", "\\\\?\\c:\\v\\\\a.mp4"));
    assert!(!same_path("\\\\?\\C:\\v\\.\\a.mp4", "\\\\?\\C:\\v\\a.mp4"));
    assert!(!same_path("\\\\?\\C:\\v/a.mp4", "\\\\?\\C:\\v\\a.mp4"));
    assert!(!same_path("\\\\?\\C:\\a.mp4", "C:\\a.mp4"));
    assert!(!same_path("\\\\?\\C:", "\\\\?\\C:\\"));
    assert!(same_path("\\\\?\\UNC\\srv\\sh\\a", "\\\\?\\UNC\\srv\\sh\\a\\"));
    assert!(!same_path("\\\\?\\UNC\\srv\\sh\\a", "\\\\srv\\sh\\a"));
    assert!(same_path("\\\\?\\Volume{x}\\a", "\\\\?\\Volume{x}\\a"));
    // device paths, and "//?/" which is not verbatim but a share named "?"
    assert!(same_path("\\\\.\\COM1", "//./COM1"));
    assert!(same_path("//?/C:/v/./a", "//?/C:\\v\\a"));
}
