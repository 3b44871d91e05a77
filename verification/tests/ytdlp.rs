use meowverter::ytdlp::{
    download_args, format_selector, info_args, path_env, size_args, size_from_output, sizes_from_formats, FormatInfo,
    YtDownloadOpts,
};

#[test]
fn selectors() {
    assert_eq!(format_selector(""), "bv*+ba/b");
    assert_eq!(format_selector("best"), "bv*+ba/b");
    assert_eq!(format_selector("source"), "bv*+ba/b");
    assert_eq!(format_selector("720"), "bv*[height<=720]+ba/b[height<=720]");
    assert_eq!(size_args("U", "480")[4], "bv*[height<=480]+ba/b[height<=480]");
    assert_eq!(info_args("U"), vec!["--dump-single-json", "--no-playlist", "--no-warnings", "U"]);
    assert_eq!(path_env("C:\\bin", "P"), "C:\\bin;P");
}

#[test]
fn size_output() {
    assert_eq!(size_from_output("NA\n 123456 \n7\n"), 123456);
    assert_eq!(size_from_output("NA\n"), 0);
    assert_eq!(size_from_output(""), 0);
}

#[test]
fn download_command() {
    let o = YtDownloadOpts {
        url: "U".to_string(),
        quality: "1080".to_string(),
        format: "webm".to_string(),
        mode: "video".to_string(),
        trim_start_ms: Some(1500),
        trim_end_ms: Some(62_005),
    };
    let a = download_args(&o, "B", "P", "D");
    assert_eq!(a[0], "U");
    assert_eq!(a[12], "B");
    assert_eq!(a[15], "P");
    assert_eq!(a[17], "D\\%(title).120B [%(id)s].%(ext)s");
    let tail: Vec<&str> = a[20..].iter().map(|s| s.as_str()).collect();
    assert_eq!(
        tail,
        vec!["-f", "bv*[height<=1080]+ba/b[height<=1080]", "--merge-output-format", "webm", "--download-sections", "*1.50-62.01", "--force-keyframes-at-cuts"]
    );
    let mut au = o;
    au.mode = "audio".to_string();
    au.trim_end_ms = Some(1000);
    let b = download_args(&au, "B", "P", "D");
    let tail: Vec<&str> = b[20..].iter().map(|s| s.as_str()).collect();
    assert_eq!(tail, vec!["-x", "--audio-format", "mp3", "--audio-quality", "0"]);
}

fn f(v: &str, a: &str, h: u64, tbr: i64, size: Option<u64>, approx: Option<u64>) -> FormatInfo {
    FormatInfo { vcodec: v.to_string(), acodec: a.to_string(), height: h, tbr, filesize: size, filesize_approx: approx }
}

#[test]
fn per_quality_sizes() {
    let fs = vec![
        f("none", "opus", 0, 50, Some(1000), None),
        f("none", "opus", 0, 130, None, Some(3000)),
        f("avc1", "none", 360, 300, Some(10_000), None),
        f("vp9", "none", 720, 900, Some(50_000), None),
        f("avc1", "none", 720, 1200, None, Some(60_000)),
        f("av01", "none", 2160, 9000, None, None),
        f("avc1", "none", 1080, 2000, Some(100_000), None),
    ];
    let got = sizes_from_formats(&fs);
    let want: Vec<(String, u64)> = vec![
        ("best".to_string(), 103_000),
        ("2160".to_string(), 103_000),
        ("1440".to_string(), 103_000),
        ("1080".to_string(), 103_000),
        ("720".to_string(), 63_000),
        ("480".to_string(), 13_000),
        ("360".to_string(), 13_000),
    ];
    assert_eq!(got, want);
    assert!(sizes_from_formats(&vec![f("none", "aac", 0, 1, Some(5), None)]).is_empty());
}

#[test]
fn sizes_cover_larger_caps() {
    // only a 480p video: every choice from "best" down to "480" is sized, "360" is not
    let fs = vec![f("avc1", "none", 480, 700, Some(20_000), None), f("none", "opus", 0, 90, Some(2_000), None)];
    let keys: Vec<String> = sizes_from_formats(&fs).into_iter().map(|(k, _)| k).collect();
    assert_eq!(keys, vec!["best", "2160", "1440", "1080", "720", "480"]);
}

use meowverter::ytdlp::{download_status, search_result, sizes_fit_check, yt_line, ytdlp_failure, YtLine};

#[test]
fn download_lines() {
    match yt_line("[download]  42.5% of ~ 10.00MiB at  2.50MiB/s ETA 00:03") {
        YtLine::Download { percents, speed } => {
            assert_eq!(percents, vec!["42.5".to_string()]);
            assert_eq!(speed, "2.50MiB/s");
        }
        _ => panic!("expected a download line"),
    }
    match yt_line("[download] 100% of 3MiB") {
        YtLine::Download { percents, speed } => {
            assert_eq!(percents, vec!["100".to_string()]);
            assert_eq!(speed, "");
        }
        _ => panic!("expected a download line"),
    }
    assert!(matches!(yt_line("[Merger] Merging formats into \"x.mp4\""), YtLine::Finishing));
    assert!(matches!(yt_line("[ExtractAudio] Destination: x.mp3"), YtLine::Finishing));
    assert!(matches!(yt_line("[download] Destination: x.webm"), YtLine::Other));
    assert_eq!(download_status(""), "Downloading…");
    assert_eq!(download_status("1MiB/s"), "Downloading… 1MiB/s");
}

#[test]
fn download_failures() {
    assert_eq!(ytdlp_failure("a\nERROR: Video unavailable \nwarning\n\n"), "ERROR: Video unavailable");
    assert_eq!(ytdlp_failure("a\n  last words  \n\n"), "last words");
    assert_eq!(ytdlp_failure(""), "yt-dlp failed");
}

#[test]
fn search_results() {
    assert_eq!(
        search_result("\n https://youtu.be/x \n\n212\n"),
        Ok(("https://youtu.be/x".to_string(), Some("212".to_string())))
    );
    assert_eq!(search_result("https://youtu.be/x"), Ok(("https://youtu.be/x".to_string(), None)));
    assert_eq!(search_result(" \n").unwrap_err(), "Couldn't find that song to download.");
}

#[test]
fn size_sums_fit() {
    let fs = vec![f("none", "opus", 0, 1, Some(u64::MAX / 2 + 1), None), f("avc1", "none", 360, 1, Some(u64::MAX / 2 + 1), None)];
    assert!(!sizes_fit_check(&fs));
    let ok = vec![f("avc1", "none", 360, 1, Some(5), None)];
    assert!(sizes_fit_check(&ok));
}

use meowverter::ytdlp::failure_given;

#[test]
fn failure_from_lowered_lines() {
    // the lowered lines decide which line is reported; the line itself is reported as is
    let log = "first\nSECOND Ärger\nthird";
    let lows: Vec<String> = vec!["first".into(), "second error".into(), "third".into()];
    assert_eq!(failure_given(log, &lows), "SECOND Ärger");
    let none: Vec<String> = vec!["a".into(), "b".into(), "c".into()];
    assert_eq!(failure_given(log, &none), "third");
}
