use meowverter::jobs::{after_pass, finish_plan, ConvertStep, JobGate, PassOutcome, ToolPaths};

#[test]
fn one_job_at_a_time() {
    let mut g = JobGate::new();
    assert!(!g.is_active());
    assert!(g.claim_job().is_ok());
    assert_eq!(g.claim_job().unwrap_err(), "Another conversion or download is already running.");
    assert!(g.is_active());
    g.release();
    assert!(g.claim_job().is_ok());
}

#[test]
fn pass_walk() {
    assert!(matches!(after_pass(0, 3, 0, 2, PassOutcome::Done, false), ConvertStep::RunPass(1)));
    assert!(matches!(after_pass(0, 3, 1, 2, PassOutcome::Done, false), ConvertStep::Finished));
    assert!(matches!(after_pass(0, 3, 0, 1, PassOutcome::Cancelled, false), ConvertStep::Cancelled));
    assert!(matches!(after_pass(0, 3, 0, 1, PassOutcome::Failed("x".into()), false), ConvertStep::NextAttempt(1)));
    assert!(matches!(after_pass(2, 3, 0, 1, PassOutcome::Failed("x".into()), false), ConvertStep::Error(e) if e == "x"));
    assert!(matches!(after_pass(0, 3, 0, 1, PassOutcome::Failed("x".into()), true), ConvertStep::Error(_)));
    assert!(matches!(after_pass(0, 3, 1, 2, PassOutcome::Failed("y".into()), false), ConvertStep::Error(e) if e == "y"));
}

#[test]
fn finishing() {
    assert_eq!(finish_plan("in.mkv", "in_Meowverter.mp4", true, 9), Ok((true, "in_Meowverter.mp4".to_string())));
    assert_eq!(finish_plan("in.mkv", "in_Meowverter.mp4", false, 9), Ok((false, "in_Meowverter.mp4".to_string())));
    assert_eq!(finish_plan("same", "same", true, 9), Ok((false, "same".to_string())));
    assert_eq!(
        finish_plan("a", "b", true, 0).unwrap_err(),
        "FFmpeg finished without creating a usable output file."
    );
}

#[test]
fn tool_cache() {
    let mut t = ToolPaths::new();
    let st = t.check_ffmpeg("/b", '/', &|_p: &str| false, &|n: &str| n == "ffmpeg");
    assert!(st.present && st.on_path);
    assert_eq!(st.ffmpeg.as_deref(), Some("ffmpeg"));
    assert_eq!(t.ffprobe, None);
    assert_eq!(
        t.stored_ffprobe("/b", '/', &|_p: &str| false, &|_n: &str| false).unwrap_err(),
        "ffprobe not found - let Meowverter download it first."
    );
    // the lookup above found nothing, and forgot the earlier ffmpeg
    assert_eq!(t.ffmpeg, None);
    let m = t.stored_ffmpeg("/b", '/', &|p: &str| p == "/b/ffmpeg.exe", &|_n: &str| false).unwrap();
    assert_eq!(m, "/b/ffmpeg.exe");
    // remembered: no lookup
    let again = t.stored_ffmpeg("/b", '/', &|_p: &str| panic!("no lookup expected"), &|_n: &str| false).unwrap();
    assert_eq!(again, "/b/ffmpeg.exe");
}

#[test]
fn delete_original_recycles_and_keeps_marked_name() {
    let input = "/tmp/meowverter_delorig_test/orig.mkv";
    let output = "/tmp/meowverter_delorig_test/orig_Meowverter.mp4";
    // a 9-byte output ("converted") and the delete-original option
    let (recycle, final_out) = finish_plan(input, output, true, 9).unwrap();
    assert!(recycle, "original should be recycled");
    assert_eq!(final_out, output, "output keeps its _Meowverter name");
}
