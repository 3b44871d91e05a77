use meowverter::tools::{
    ffmpeg_entry, ffmpeg_update_status, install_plan, is_deno_entry, release_marker, ytdlp_update_due, ReleaseAsset,
};

#[test]
fn update_verdicts() {
    let (i, adopt) = ffmpeg_update_status("2024-05-01T00:00:00Z", "  \n");
    assert!(adopt && !i.available);
    assert_eq!((i.current.as_str(), i.latest.as_str()), ("2024-05-01T00:00:00Z", "2024-05-01T00:00:00Z"));
    let (j, adopt) = ffmpeg_update_status("B", " A\n");
    assert!(!adopt && j.available);
    assert_eq!(j.current, "A");
    let (k, _) = ffmpeg_update_status("A", "A\r\n");
    assert!(!k.available);
    let (l, _) = ffmpeg_update_status("", "A");
    assert!(!l.available);
}

fn asset(n: Option<&str>, u: Option<&str>) -> ReleaseAsset {
    ReleaseAsset { name: n.map(|s| s.to_string()), updated_at: u.map(|s| s.to_string()) }
}

#[test]
fn release_markers() {
    let assets = vec![
        asset(Some("other.zip"), Some("X")),
        asset(Some("ffmpeg-master-latest-win64-gpl.zip"), None),
        asset(Some("ffmpeg-master-latest-win64-gpl.zip"), Some("T2")),
    ];
    assert_eq!(release_marker(&assets, &Some("P".to_string())), "T2");
    assert_eq!(release_marker(&assets[..2].to_vec_like(), &Some("P".to_string())), "P");
    assert_eq!(release_marker(&vec![], &None), "");
}

trait ToVecLike {
    fn to_vec_like(&self) -> Vec<ReleaseAsset>;
}

impl ToVecLike for [ReleaseAsset] {
    fn to_vec_like(&self) -> Vec<ReleaseAsset> {
        self.iter().map(|a| ReleaseAsset { name: a.name.clone(), updated_at: a.updated_at.clone() }).collect()
    }
}

#[test]
fn ytdlp_refresh_every_three_days() {
    let day = 24 * 3600;
    assert!(ytdlp_update_due("", 3 * day));
    assert!(!ytdlp_update_due(&format!(" {} \n", 10 * day), 12 * day));
    assert!(ytdlp_update_due(&format!("{}", 10 * day), 13 * day));
    assert!(!ytdlp_update_due(&format!("{}", 10 * day), 5 * day));
    assert!(ytdlp_update_due("garbage", 3 * day));
}

#[test]
fn archive_entries() {
    assert_eq!(ffmpeg_entry("ffmpeg-master/bin/ffmpeg.exe").as_deref(), Some("ffmpeg.exe"));
    assert_eq!(ffmpeg_entry("ffmpeg-master\\bin\\ffprobe.exe").as_deref(), Some("ffprobe.exe"));
    assert_eq!(ffmpeg_entry("ffmpeg-master/bin/ffplay.exe"), None);
    assert_eq!(ffmpeg_entry("bin/ffmpeg.exe"), None);
    assert!(is_deno_entry("deno.exe"));
    assert!(is_deno_entry("x\\deno.exe"));
    assert!(!is_deno_entry("deno.exe.sig"));
}

#[test]
fn install_plans() {
    let names: Vec<String> = ["ffmpeg-x/", "ffmpeg-x/bin/ffmpeg.exe", "ffmpeg-x/doc/a.html", "ffmpeg-x\\bin\\ffprobe.exe"]
        .iter()
        .map(|s| s.to_string())
        .collect();
    let (plan, outcome) = install_plan(&names);
    assert_eq!(plan, vec![(1, "ffmpeg.exe".to_string()), (3, "ffprobe.exe".to_string())]);
    assert!(outcome.is_ok());
    let (plan, outcome) = install_plan(&names[..2].to_vec());
    assert_eq!(plan, vec![(1, "ffmpeg.exe".to_string())]);
    assert_eq!(outcome.unwrap_err(), "couldn't find ffmpeg/ffprobe inside the download");
}
