use meowverter::encoder::{
    cpu_encoder, encoder_attempts, hw_bitrate_args, hw_probe_args, hw_quality_args, pick_encoder, quality_number,
    Family, HwCache, Vendor, VideoEnc,
};
use std::cell::RefCell;

#[test]
fn cpu_encoders_per_format() {
    assert_eq!(cpu_encoder("mp4_h265").name, "libx265");
    assert_eq!(cpu_encoder("mp4_av1").name, "libsvtav1");
    assert_eq!(cpu_encoder("webm").family, Family::Vp9);
    let e = cpu_encoder("mkv");
    assert_eq!((e.vendor, e.name, e.family), (Vendor::Cpu, "libx264", Family::H264));
}

#[test]
fn quality_numbers() {
    assert_eq!(quality_number(Family::Av1, "high"), "27");
    assert_eq!(quality_number(Family::Av1, "small"), "42");
    assert_eq!(quality_number(Family::Av1, "x"), "33");
    assert_eq!(quality_number(Family::Hevc, "high"), "23");
    assert_eq!(quality_number(Family::H264, "balanced"), "28");
}

#[test]
fn vendor_quality_and_bitrate_args() {
    let amf = VideoEnc { vendor: Vendor::Amf, name: "hevc_amf", family: Family::Hevc };
    assert_eq!(
        hw_quality_args(&amf, "small"),
        vec!["-c:v", "hevc_amf", "-quality", "quality", "-rc", "cqp", "-qp_i", "33", "-qp_p", "33", "-qp_b", "33"]
    );
    let qsv = VideoEnc { vendor: Vendor::Qsv, name: "hevc_qsv", family: Family::Hevc };
    assert_eq!(hw_bitrate_args(&qsv, 1000), vec!["-c:v", "hevc_qsv", "-b:v", "1000k", "-maxrate", "1200k"]);
    // 1.2 x 1003 = 1203.6 rounds to 1204
    assert_eq!(hw_bitrate_args(&qsv, 1003)[5], "1204k");
    // the peak is `(vk as f64 * 1.2).round() as i64`, double arithmetic included
    for vk in [0i64, 1, 2, 5, 80, 1003, 123_456_789, 2_251_799_813_685_249, 4_611_686_018_427_387_903, -7, -1003,
        -4_611_686_018_427_387_904] {
        assert_eq!(hw_bitrate_args(&qsv, vk)[5], format!("{}k", (vk as f64 * 1.2).round() as i64), "{vk}");
    }
    assert!(hw_bitrate_args(&cpu_encoder("webm"), 500).is_empty());
    assert!(hw_quality_args(&cpu_encoder("webm"), "high").is_empty());
}

#[test]
fn cache_remembers_recorded_verdicts() {
    let mut c = HwCache::new();
    assert_eq!(c.lookup("hevc_nvenc"), None);
    c.record("hevc_nvenc", false);
    c.record("hevc_amf", true);
    assert_eq!(c.lookup("hevc_nvenc"), Some(false));
    c.record("hevc_nvenc", true);
    assert_eq!(c.lookup("hevc_nvenc"), Some(true));
    assert_eq!(c.lookup("hevc_amf"), Some(true));
}

#[test]
fn probe_runs_once_per_encoder() {
    let calls: RefCell<Vec<Vec<String>>> = RefCell::new(Vec::new());
    let probe = |a: &Vec<String>| {
        calls.borrow_mut().push(a.clone());
        a[8] == "hevc_qsv"
    };
    let mut c = HwCache::new();
    let e = pick_encoder(&mut c, "mp4_h265", &probe);
    assert_eq!((e.vendor, e.name, e.family), (Vendor::Qsv, "hevc_qsv", Family::Hevc));
    assert_eq!(calls.borrow().len(), 3);
    assert_eq!(calls.borrow()[0], hw_probe_args("hevc_nvenc"));
    assert_eq!(calls.borrow()[0][6], "color=c=black:s=256x256:d=0.1");
    // cached: no new probes
    let e2 = pick_encoder(&mut c, "mp4_h265", &probe);
    assert_eq!(e2.name, "hevc_qsv");
    assert_eq!(calls.borrow().len(), 3);
    // AV1: AMD is never probed, Intel is; nothing works -> CPU
    let none = |_a: &Vec<String>| false;
    let a = pick_encoder(&mut c, "mp4_av1", &none);
    assert_eq!((a.vendor, a.name), (Vendor::Cpu, "libsvtav1"));
    assert_eq!(c.lookup("av1_qsv"), Some(false));
    assert_eq!(c.lookup("av1_amf"), None);
    // other formats never probe
    let w = pick_encoder(&mut c, "webm", &probe);
    assert_eq!(w.name, "libvpx-vp9");
    assert_eq!(calls.borrow().len(), 3);
}

#[test]
fn fallback_chains() {
    let nv = VideoEnc { vendor: Vendor::Nvenc, name: "hevc_nvenc", family: Family::Hevc };
    let amf = VideoEnc { vendor: Vendor::Amf, name: "hevc_amf", family: Family::Hevc };
    let cpu = cpu_encoder("mp4_h265");
    let a = encoder_attempts("video", nv, cpu);
    let v: Vec<(&str, bool)> = a.iter().map(|(e, g)| (e.name, *g)).collect();
    assert_eq!(v, vec![("hevc_nvenc", true), ("hevc_nvenc", false), ("libx265", false)]);
    let b = encoder_attempts("video", amf, cpu);
    assert_eq!(b.len(), 2);
    assert_eq!(b[1].0.name, "libx265");
    let g = encoder_attempts("gif", nv, cpu);
    assert_eq!(g.len(), 1);
    assert_eq!((g[0].0.name, g[0].1), ("libx265", false));
    assert_eq!(encoder_attempts("video", cpu, cpu).len(), 1);
}
