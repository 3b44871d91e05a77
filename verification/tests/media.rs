use meowverter::media::{
    data_url, dims_args, failure_message, gif_estimate, gif_estimate_fits, gif_estimate_lengths, gif_sample_args, parse_dims, progress_line,
    thumbnail_args, thumbnail_result, vmaf_args, vmaf_score_texts, ProgressLine,
};

#[test]
fn thumbnails() {
    let a = thumbnail_args("in.mp4", -5);
    assert_eq!(a[4], "0.000");
    assert_eq!(thumbnail_args("in.mp4", 12_345)[4], "12.345");
    assert_eq!(a.last().unwrap(), "pipe:1");
    // JPEG magic bytes, Base64-encoded by the base64 crate
    assert_eq!(thumbnail_result(true, &vec![0xFF, 0xD8, 0xFF], "").unwrap(), "data:image/jpeg;base64,/9j/");
    assert_eq!(thumbnail_result(true, &vec![1], "").unwrap(), "data:image/jpeg;base64,AQ==");
    assert_eq!(thumbnail_result(true, &vec![], "boom").unwrap_err(), "thumbnail failed: boom");
    assert_eq!(thumbnail_result(false, &vec![1, 2], "bad").unwrap_err(), "thumbnail failed: bad");
    assert_eq!(data_url("QQ=="), "data:image/jpeg;base64,QQ==");
}

#[test]
fn gif_estimates() {
    assert_eq!(gif_estimate_lengths(10_000), (10_000, 2000));
    assert_eq!(gif_estimate_lengths(50), (100, 100));
    // (5024 - 1024) x 10 s / 2 s + 1024
    assert_eq!(gif_estimate(5024, 10_000), Ok(21_024));
    assert_eq!(gif_estimate(500, 10_000), Ok(1024));
    // 1 x 3 / 2 = 1.5 rounds to 2
    assert_eq!(gif_estimate(1025, 3000), Ok(1026));
    assert_eq!(gif_estimate(3072, 6000), Ok(7168));
    // a short clip is its own sample
    assert_eq!(gif_estimate(4096, 1500), Ok(4096));
    assert_eq!(gif_estimate(0, 10_000).unwrap_err(), "gif estimate produced no output");
    // the same double arithmetic as `(per as f64 * (full / sample)).round() as u64 + 1024`
    for (bytes, ms) in [(3024u64, 2001i64), (2024, 2001), (2025, 2001), (1_000_000, 123_457), (5_000_000, 7_777), (u64::MAX / 4, 9_999)] {
        let full = (ms as f64 / 1000.0).max(0.1);
        let sample = full.min(2.0);
        let per = bytes.saturating_sub(1024) as f64;
        let want = ((per * (full / sample)).round() as u64).checked_add(1024);
        match want {
            Some(w) => assert_eq!(gif_estimate(bytes, ms), Ok(w), "{bytes} {ms}"),
            None => assert!(!gif_estimate_fits(bytes, ms)),
        }
    }
    let a = gif_sample_args("in", -1, 2000, "VF", "out.gif");
    assert_eq!(a, vec!["-y", "-hide_banner", "-loglevel", "error", "-ss", "0.000", "-t", "2.000", "-i", "in", "-vf", "VF", "-loop", "0", "-an", "out.gif"]);
}

#[test]
fn vmaf_inputs() {
    assert_eq!(parse_dims(" 1920,1080\n"), Ok((1920, 1080)));
    assert_eq!(parse_dims("1280 , 720,x"), Ok((1280, 720)));
    assert_eq!(parse_dims("").unwrap_err(), "couldn't read output dimensions");
    assert_eq!(parse_dims("640").unwrap_err(), "couldn't read output dimensions");
    assert_eq!(dims_args("o.mp4").last().unwrap(), "o.mp4");
    let a = vmaf_args("o.mp4", "r.mkv", 2500, 0, 1280, 720);
    assert_eq!(a[4], "20.000");
    assert_eq!(a[8], "2.500");
    assert_eq!(a[14], "[0:v]setpts=PTS-STARTPTS[d];[1:v]scale=1280:720:flags=bicubic,setpts=PTS-STARTPTS[r];[d][r]libvmaf=n_threads=16");
    let log = "frame=1\n[Parsed_libvmaf_4 @ 0x1] VMAF score: 93.512 \nbye";
    assert_eq!(vmaf_score_texts(log), vec!["93.512".to_string()]);
}

#[test]
fn progress_lines() {
    assert!(matches!(progress_line("out_time_us=1500000"), ProgressLine::OutTime(t) if t == "1500000"));
    assert!(matches!(progress_line("speed= 2.5x"), ProgressLine::Speed(t) if t == "2.5x"));
    assert!(matches!(progress_line("fps=30.0"), ProgressLine::Fps(t) if t == "30.0"));
    assert!(matches!(progress_line("progress=end"), ProgressLine::Other));
}

#[test]
fn failure_messages() {
    assert_eq!(failure_message("a\nEncoder not found\n  \n", "ffmpeg failed"), "Encoder not found");
    assert_eq!(failure_message(" \n", "ffmpeg failed"), "ffmpeg failed");
}

use meowverter::media::{probe_args, summarize_streams, tail_chars, StreamInfo};

fn st(kind: Option<&str>, name: &str, w: Option<u64>, avg: Option<&str>, r: Option<&str>) -> StreamInfo {
    StreamInfo {
        codec_type: kind.map(|s| s.to_string()),
        codec_name: Some(name.to_string()),
        width: w,
        height: w.map(|x| x / 2),
        avg_frame_rate: avg.map(|s| s.to_string()),
        r_frame_rate: r.map(|s| s.to_string()),
    }
}

#[test]
fn stream_summary() {
    let ss = vec![
        st(Some("audio"), "aac", None, None, None),
        st(None, "x", Some(1), None, None),
        st(Some("video"), "h264", Some(1920), Some("0/0"), Some("30000/1001")),
        st(Some("video"), "mjpeg", Some(300), Some("25/1"), None),
        st(Some("audio"), "opus", None, None, None),
    ];
    let s = summarize_streams(&ss);
    assert!(s.has_video && s.has_audio);
    assert_eq!((s.width, s.height), (1920, 960));
    assert_eq!((s.vcodec.as_str(), s.fps_text.as_str(), s.acodec.as_str()), ("h264", "30000/1001", "aac"));
    let none = summarize_streams(&vec![st(Some("video"), "v", Some(u64::from(u32::MAX) + 2), None, None)]);
    assert_eq!(none.width, 1);
    assert_eq!(none.fps_text, "0/1");
    assert_eq!(probe_args("x.mkv"), vec!["-v", "error", "-print_format", "json", "-show_format", "-show_streams", "x.mkv"]);
}

#[test]
fn log_tails() {
    assert_eq!(tail_chars("héllo", 3), "llo");
    assert_eq!(tail_chars("ab", 4000), "ab");
}
