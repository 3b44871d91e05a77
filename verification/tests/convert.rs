use meowverter::convert::{
    build_passes, codec_for, crf_for, gif_height, gif_vf, input_args, scale_filter, scale_filter_named,
    ConvertOpts,
};
use meowverter::encoder::{cpu_encoder, Family, Vendor, VideoEnc};

// What the UI sends, in the library's units (milliseconds, KiB).
fn opts(resolution: &str, format: &str, quality: &str, total_ms: i64) -> ConvertOpts {
    ConvertOpts {
        input: "a.mp4".to_string(),
        output: "b.mp4".to_string(),
        mode: "video".to_string(),
        resolution: resolution.to_string(),
        format: format.to_string(),
        quality: quality.to_string(),
        target_size_kib: None,
        trim_start_ms: None,
        trim_end_ms: None,
        fps_milli: None,
        audio_format: String::new(),
        gif_quality: 0,
        total_duration_ms: total_ms,
        silent: false,
        delete_original: false,
    }
}

const LOG: &str = "meowverter_pass_test";

#[test]
fn target_size_builds_two_passes() {
    let mut o = opts("source", "mp4_h264", "balanced", 60000);
    o.target_size_kib = Some(10 * 1024);
    assert_eq!(
        build_passes(&o, cpu_encoder("mp4_h264"), false, LOG).unwrap().len(),
        2,
        "compress-to-size = two passes"
    );
}

#[test]
fn quality_builds_single_pass() {
    let o = opts("1080", "mp4_h264", "high", 60000);
    assert_eq!(build_passes(&o, cpu_encoder("mp4_h264"), false, LOG).unwrap().len(), 1);
}

#[test]
fn trim_emits_ss_and_t() {
    let mut o = opts("source", "mp4_h264", "balanced", 3000);
    o.trim_start_ms = Some(2000);
    o.trim_end_ms = Some(5000);
    let a = input_args(&o, false);
    assert!(a.iter().any(|x| x == "-ss"), "trim start -> -ss");
    let t_idx = a.iter().position(|x| x == "-t").expect("trim -> -t");
    assert_eq!(a[t_idx + 1], "3.000", "duration = end - start");
}

#[test]
fn nvenc_gpu_vs_cpu_decode_args() {
    let o = opts("1080", "mp4_h265", "balanced", 60000);
    let nv = VideoEnc { vendor: Vendor::Nvenc, name: "hevc_nvenc", family: Family::Hevc };
    // full-GPU pipeline: hwaccel + scale_cuda + nvenc, frames stay on GPU (no pix_fmt)
    let g = &build_passes(&o, nv, true, LOG).unwrap()[0];
    assert!(g.iter().any(|x| x == "-hwaccel"));
    assert!(g.iter().any(|x| x.contains("scale_cuda")));
    assert!(g.iter().any(|x| x == "hevc_nvenc"));
    assert!(!g.iter().any(|x| x == "yuv420p"), "gpu path must not force pix_fmt");
    // CPU-decode fallback: no hwaccel, CPU scale, pix_fmt yuv420p
    let c = &build_passes(&o, nv, false, LOG).unwrap()[0];
    assert!(!c.iter().any(|x| x == "-hwaccel"));
    assert!(c.iter().any(|x| x.as_str() == "scale=-2:1080"));
    assert!(c.iter().any(|x| x == "hevc_nvenc"));
    assert!(c.iter().any(|x| x == "yuv420p"));
}

#[test]
fn hardware_encoder_args_per_vendor() {
    let o = opts("source", "mp4_h265", "balanced", 60000);
    // Intel QSV -> global_quality, keeps the hevc tag
    let qsv = &build_passes(
        &o,
        VideoEnc { vendor: Vendor::Qsv, name: "hevc_qsv", family: Family::Hevc },
        false,
        LOG,
    )
    .unwrap()[0];
    assert!(qsv.iter().any(|x| x == "hevc_qsv"));
    assert!(qsv.iter().any(|x| x == "-global_quality"));
    assert!(qsv.iter().any(|x| x == "hvc1"));
    // AMD AMF -> constant QP
    let amf = &build_passes(
        &o,
        VideoEnc { vendor: Vendor::Amf, name: "hevc_amf", family: Family::Hevc },
        false,
        LOG,
    )
    .unwrap()[0];
    assert!(amf.iter().any(|x| x == "hevc_amf"));
    assert!(amf.iter().any(|x| x == "-qp_p"));
    // AV1 in mp4: nvenc -> av1_nvenc + cq, no hevc tag
    let oav = opts("source", "mp4_av1", "balanced", 60000);
    let nav = &build_passes(
        &oav,
        VideoEnc { vendor: Vendor::Nvenc, name: "av1_nvenc", family: Family::Av1 },
        false,
        LOG,
    )
    .unwrap()[0];
    assert!(nav.iter().any(|x| x == "av1_nvenc"));
    assert!(nav.iter().any(|x| x == "-cq"));
    assert!(!nav.iter().any(|x| x == "hvc1"), "av1 has no hevc tag");
    // AV1 CPU fallback -> libsvtav1 + crf
    let cav = &build_passes(&oav, cpu_encoder("mp4_av1"), false, LOG).unwrap()[0];
    assert!(cav.iter().any(|x| x == "libsvtav1"));
    assert!(cav.iter().any(|x| x == "-crf"));
}

fn s(v: &[&str]) -> Vec<String> {
    v.iter().map(|x| x.to_string()).collect()
}

#[test]
fn two_pass_command_lines_exact() {
    let mut o = opts("720", "mp4_h264", "balanced", 60000);
    o.target_size_kib = Some(10 * 1024);
    let p = build_passes(&o, cpu_encoder("mp4_h264"), false, "LOGF").unwrap();
    // 10 MB over 60 s = 1365.33 kb/s, minus 128 kb/s of audio = 1237 kb/s of video
    assert_eq!(
        p[0],
        s(&[
            "-y", "-hide_banner", "-nostdin", "-i", "a.mp4", "-vf", "scale=-2:720", "-c:v", "libx264", "-b:v",
            "1237k", "-pass", "1", "-passlogfile", "LOGF", "-an", "-f", "mp4", "-progress", "pipe:1", "-nostats",
            "NUL"
        ])
    );
    assert_eq!(
        p[1],
        s(&[
            "-y", "-hide_banner", "-nostdin", "-i", "a.mp4", "-vf", "scale=-2:720", "-c:v", "libx264", "-b:v",
            "1237k", "-pix_fmt", "yuv420p", "-pass", "2", "-passlogfile", "LOGF", "-c:a", "aac", "-b:a", "128k",
            "-movflags", "+faststart", "-progress", "pipe:1", "-nostats", "b.mp4"
        ])
    );
}

#[test]
fn target_bitrate_has_a_floor_of_80k() {
    let mut o = opts("source", "webm", "balanced", 600000);
    o.target_size_kib = Some(1024);
    let p = build_passes(&o, cpu_encoder("webm"), false, "L").unwrap();
    assert!(p[1].iter().any(|x| x == "80k"));
    // opus reserves 96 kb/s
    assert!(p[1].iter().any(|x| x == "96k"));
}

#[test]
fn hardware_target_size_uses_single_vbr_pass() {
    let mut o = opts("source", "mp4_h265", "balanced", 60000);
    o.target_size_kib = Some(10 * 1024);
    let nv = VideoEnc { vendor: Vendor::Nvenc, name: "hevc_nvenc", family: Family::Hevc };
    let p = build_passes(&o, nv, true, "L").unwrap();
    assert_eq!(p.len(), 1);
    // 1237 kb/s, peak 1.2x = 1484, buffer 2x = 2474
    for want in ["1237k", "1484k", "2474k", "-multipass", "-hwaccel", "hvc1"] {
        assert!(p[0].iter().any(|x| x == want), "missing {want}");
    }
    assert!(!p[0].iter().any(|x| x == "yuv420p"));
}

#[test]
fn cpu_quality_pass_exact() {
    let o = opts("source", "webm", "high", 60000);
    let p = build_passes(&o, cpu_encoder("webm"), false, "L").unwrap();
    assert_eq!(
        p[0],
        s(&[
            "-y", "-hide_banner", "-nostdin", "-i", "a.mp4", "-c:v", "libvpx-vp9", "-b:v", "0", "-crf", "24",
            "-row-mt", "1", "-deadline", "good", "-cpu-used", "4", "-c:a", "libopus", "-b:a", "128k", "-progress",
            "pipe:1", "-nostats", "b.mp4"
        ])
    );
}

#[test]
fn audio_and_gif_modes() {
    let mut o = opts("source", "mp4_h264", "balanced", 1000);
    o.mode = "audio".to_string();
    o.audio_format = "wav".to_string();
    let p = build_passes(&o, cpu_encoder(""), false, "L").unwrap();
    assert_eq!(
        p[0],
        s(&["-y", "-hide_banner", "-nostdin", "-i", "a.mp4", "-vn", "-c:a", "pcm_s16le", "-progress", "pipe:1", "-nostats", "b.mp4"])
    );
    o.mode = "gif".to_string();
    o.fps_milli = Some(100_000);
    o.gif_quality = 1;
    o.resolution = "720".to_string();
    let g = build_passes(&o, cpu_encoder(""), false, "L").unwrap();
    assert_eq!(g[0][5], "-vf");
    assert_eq!(
        g[0][6],
        "fps=50,scale=-2:480:flags=lanczos,split[a][b];[a]palettegen=max_colors=64:stats_mode=diff[p];[b][p]paletteuse=dither=none"
    );
}

#[test]
fn trim_edge_cases() {
    let mut o = opts("source", "mp4_h264", "balanced", 3000);
    o.trim_start_ms = Some(0);
    o.trim_end_ms = Some(1500);
    let a = input_args(&o, true);
    assert_eq!(
        a,
        s(&["-y", "-hide_banner", "-nostdin", "-hwaccel", "cuda", "-hwaccel_output_format", "cuda", "-i", "a.mp4", "-t", "1.500"])
    );
    o.trim_start_ms = None;
    o.trim_end_ms = Some(0);
    assert!(!input_args(&o, false).iter().any(|x| x == "-t"));
    o.trim_start_ms = Some(4000);
    o.trim_end_ms = Some(3000);
    let b = input_args(&o, false);
    assert!(b.iter().any(|x| x == "4.000"));
    assert!(!b.iter().any(|x| x == "-t"));
}

#[test]
fn codec_and_crf_tables() {
    let c = codec_for("mkv");
    assert_eq!((c.venc, c.aenc, c.pix, c.faststart, c.pass_fmt), ("libx265", "aac", true, false, "matroska"));
    assert_eq!(codec_for("mp4_h265").extra, vec!["-tag:v", "hvc1"]);
    assert_eq!(crf_for("mp4_av1", "small"), "45");
    assert_eq!(crf_for("mp4_h264", "balanced"), "22");
    assert_eq!(crf_for("webm", "high"), "24");
}

#[test]
fn scale_filters() {
    assert_eq!(scale_filter("source"), None);
    assert_eq!(scale_filter(""), None);
    assert_eq!(scale_filter("480").as_deref(), Some("scale=-2:480"));
    assert_eq!(scale_filter_named("1080", "scale_cuda").as_deref(), Some("scale_cuda=-2:1080"));
}

#[test]
fn gif_heights_and_palettes() {
    assert_eq!(gif_height("source"), 360);
    assert_eq!(gif_height(""), 360);
    assert_eq!(gif_height("abc"), 360);
    assert_eq!(gif_height("240"), 240);
    assert_eq!(gif_height("1080"), 480);
    assert_eq!(
        gif_vf(12_500, 360, 0),
        "fps=12.5,scale=-2:360:flags=lanczos,split[a][b];[a]palettegen=max_colors=192:stats_mode=diff[p];[b][p]paletteuse=dither=bayer:bayer_scale=3"
    );
    assert!(gif_vf(15_000, 360, 9).ends_with("max_colors=256:stats_mode=diff[p];[b][p]paletteuse=dither=sierra2_4a"));
    assert!(gif_vf(15_000, 360, -3).contains("max_colors=64"));
}

#[test]
fn every_pass_is_framed() {
    let nv = VideoEnc { vendor: Vendor::Nvenc, name: "hevc_nvenc", family: Family::Hevc };
    let mut cases: Vec<(ConvertOpts, VideoEnc, bool)> = Vec::new();
    for (venc, gpu) in [(cpu_encoder("mp4_h264"), false), (nv, true)] {
        let mut sized = opts("720", "mp4_h264", "balanced", 60000);
        sized.target_size_kib = Some(8 * 1024);
        cases.push((sized, venc, gpu));
    }
    cases.push((opts("1080", "mp4_h265", "high", 60000), nv, true));
    cases.push((opts("1080", "mp4_h265", "high", 60000), nv, false));
    let mut audio = opts("source", "mp4_h264", "balanced", 60000);
    audio.mode = "audio".to_string();
    audio.audio_format = "mp3".to_string();
    cases.push((audio, nv, true));
    for (o, venc, gpu) in cases {
        let passes = build_passes(&o, venc, gpu, LOG).unwrap();
        let cuda = o.mode != "audio" && o.mode != "gif" && venc.vendor == Vendor::Nvenc && gpu;
        for (i, q) in passes.iter().enumerate() {
            assert_eq!(&q[..3], &["-y", "-hide_banner", "-nostdin"]);
            assert_eq!(q[3] == "-hwaccel", cuda);
            assert_eq!(&q[q.len() - 4..q.len() - 1], &["-progress", "pipe:1", "-nostats"]);
            let dest = if passes.len() == 2 && i == 0 { "NUL" } else { "b.mp4" };
            assert_eq!(q[q.len() - 1], dest);
        }
    }
}

#[test]
fn input_args_by_position() {
    // an input path that looks like a flag stays in its place after -i
    let mut o = opts("source", "mp4_h264", "balanced", 9000);
    o.input = "-hwaccel".to_string();
    o.trim_start_ms = Some(1500);
    o.trim_end_ms = Some(4000);
    assert_eq!(input_args(&o, false), vec!["-y", "-hide_banner", "-nostdin", "-ss", "1.500", "-i", "-hwaccel", "-t", "2.500"]);
    o.trim_start_ms = Some(0);
    o.trim_end_ms = Some(0);
    assert_eq!(input_args(&o, true), vec!["-y", "-hide_banner", "-nostdin", "-hwaccel", "cuda", "-hwaccel_output_format", "cuda", "-i", "-hwaccel"]);
    o.trim_start_ms = None;
    o.trim_end_ms = Some(1200);
    assert_eq!(input_args(&o, false), vec!["-y", "-hide_banner", "-nostdin", "-i", "-hwaccel", "-t", "1.200"]);
}
