//! Keeping the bundled tools current: the FFmpeg release marker, the update verdict, the
//! yt-dlp refresh interval, and which archive entries are installed.
use vstd::prelude::*;
use crate::num::{all_digits, dec, lemma_dec_all_digits, law_decimal_round_trip, parse_u64, parse_u64_spec};
use crate::paths::{leaf, leaf_spec, opt_chars};
use crate::text::{ends_with, owned, replace_all, replace_str, str_ends_with, str_eq, strs, trim, trimmed};

verus! {

/// What the UI is told about an FFmpeg update.
pub struct UpdateInfo {
    pub available: bool,
    pub current: String,
    pub latest: String,
}

/// The update verdict from the latest release marker and the stored one (as read, before
/// trimming). With nothing stored the latest build is adopted as the baseline and no
/// update is reported; otherwise an update is available when the latest marker is known
/// and differs from the stored one.
pub open spec fn update_status_spec(latest: Seq<char>, stored_raw: Seq<char>) -> (bool, Seq<char>, Seq<char>, bool) {
    let stored = trim(stored_raw);
    if stored.len() == 0 {
        (false, latest, latest, true)
    } else {
        (latest.len() != 0 && latest != stored, stored, latest, false)
    }
}

/// The update verdict, and whether the latest marker should be stored as the baseline.
pub fn ffmpeg_update_status(latest: &str, stored_raw: &str) -> (r: (UpdateInfo, bool))
    ensures
        (r.0.available, r.0.current@, r.0.latest@, r.1) == update_status_spec(latest@, stored_raw@),
{
    let stored = trimmed(stored_raw);
    if stored.as_str().is_empty() {
        return (UpdateInfo { available: false, current: owned(latest), latest: owned(latest) }, true);
    }
    let available = !latest.is_empty() && !str_eq(latest, stored.as_str());
    (UpdateInfo { available, current: stored, latest: owned(latest) }, false)
}

/// Never nags on first run, and never reports the installed build as an update.
pub proof fn law_no_false_update(latest: Seq<char>, stored_raw: Seq<char>)
    ensures
        update_status_spec(latest, stored_raw).3 ==> !update_status_spec(latest, stored_raw).0,
        update_status_spec(latest, stored_raw).0 ==> latest != trim(stored_raw) && latest.len() != 0,
{
}

/// One asset of a release, as far as the marker reads it.
pub struct ReleaseAsset {
    pub name: Option<String>,
    pub updated_at: Option<String>,
}

/// The asset Meowverter installs.
pub open spec fn ffmpeg_asset_name() -> Seq<char> {
    "ffmpeg-master-latest-win64-gpl.zip"@
}

/// The marker of the latest build: the upload time of the first asset named like the
/// installed archive that has one, else the release's publish time, else "".
pub open spec fn release_marker_spec(assets: Seq<ReleaseAsset>, published_at: Option<Seq<char>>) -> Seq<char>
    decreases assets.len(),
{
    if assets.len() == 0 {
        match published_at {
            Some(p) => p,
            None => Seq::empty(),
        }
    } else {
        let a = assets[0];
        if a.name is Some && a.name->0@ == ffmpeg_asset_name() && a.updated_at is Some {
            a.updated_at->0@
        } else {
            release_marker_spec(assets.skip(1), published_at)
        }
    }
}

/// The marker of the latest release.
pub fn release_marker(assets: &Vec<ReleaseAsset>, published_at: &Option<String>) -> (r: String)
    ensures
        r@ == release_marker_spec(assets@, opt_chars(*published_at)),
{
    let ghost pv = opt_chars(*published_at);
    let mut i: usize = 0;
    assert(assets@.skip(0) =~= assets@);
    while i < assets.len()
        invariant
            i <= assets@.len(),
            pv == opt_chars(*published_at),
            release_marker_spec(assets@, pv) == release_marker_spec(assets@.skip(i as int), pv),
        decreases assets@.len() - i,
    {
        let a = &assets[i];
        assert(assets@.skip(i as int)[0] == assets@[i as int]);
        assert(assets@.skip(i as int).skip(1) =~= assets@.skip(i + 1));
        match (&a.name, &a.updated_at) {
            (Some(n), Some(u)) => {
                if str_eq(n.as_str(), "ffmpeg-master-latest-win64-gpl.zip") {
                    return u.clone();
                }
            },
            _ => {},
        }
        i = i + 1;
    }
    assert(assets@.skip(i as int) =~= Seq::<ReleaseAsset>::empty());
    match published_at {
        Some(p) => p.clone(),
        None => String::new(),
    }
}

/// yt-dlp is refreshed at most every three days: due when three days have passed since
/// the time stored in the check file (0 when it does not read as a number).
pub open spec fn ytdlp_update_due_spec(marker_text: Seq<char>, now: u64) -> bool {
    let last: u64 = match parse_u64_spec(trim(marker_text)) { Some(v) => v, None => 0 };
    (if now >= last { now - last } else { 0 }) >= 3 * 24 * 3600
}

/// Whether yt-dlp is due for its self-update.
pub fn ytdlp_update_due(marker_text: &str, now: u64) -> (r: bool)
    ensures
        r == ytdlp_update_due_spec(marker_text@, now),
{
    let t = trimmed(marker_text);
    let last: u64 = match parse_u64(t.as_str()) { Some(v) => v, None => 0 };
    now.saturating_sub(last) >= 3 * 24 * 3600
}

/// The file an FFmpeg archive entry installs: the name after its last separator, for the
/// entries ending in `/bin/ffmpeg.exe` or `/bin/ffprobe.exe` (backslashes read as '/').
pub open spec fn ffmpeg_entry_spec(name: Seq<char>) -> Option<Seq<char>> {
    let n = replace_all(name, "\\"@, "/"@);
    if ends_with(n, "/bin/ffmpeg.exe"@) || ends_with(n, "/bin/ffprobe.exe"@) {
        Some(leaf_spec(n))
    } else {
        None
    }
}

/// Which file, if any, an entry of the FFmpeg archive installs.
pub fn ffmpeg_entry(name: &str) -> (r: Option<String>)
    ensures
        match r {
            Some(x) => ffmpeg_entry_spec(name@) == Some(x@),
            None => ffmpeg_entry_spec(name@) is None,
        },
{
    proof {
        reveal_strlit("\\");
    }
    let n = replace_str(name, "\\", "/");
    if str_ends_with(n.as_str(), "/bin/ffmpeg.exe") || str_ends_with(n.as_str(), "/bin/ffprobe.exe") {
        Some(leaf(n.as_str()))
    } else {
        None
    }
}

/// The entries of an FFmpeg archive to install, in archive order: the index of each entry
/// that installs a file, with that file's name.
pub open spec fn install_plan_spec(names: Seq<Seq<char>>) -> Seq<(int, Seq<char>)>
    decreases names.len(),
{
    if names.len() == 0 {
        Seq::empty()
    } else {
        let p = install_plan_spec(names.drop_last());
        match ffmpeg_entry_spec(names.last()) {
            Some(f) => p.push((names.len() - 1, f)),
            None => p,
        }
    }
}

/// The views of an install plan.
pub open spec fn plan_view(v: Seq<(usize, String)>) -> Seq<(int, Seq<char>)> {
    v.map_values(|e: (usize, String)| (e.0 as int, e.1@))
}

/// The message when an archive lacks ffmpeg or ffprobe.
pub open spec fn missing_tools_message() -> Seq<char> {
    "couldn't find ffmpeg/ffprobe inside the download"@
}

/// What to unpack from the FFmpeg archive whose entries are named `names`: the entries
/// that install a file (with that file's name), and whether the install succeeds: it does
/// when at least two entries install a file, else it fails with the missing-tools message
/// (after the entries found are unpacked all the same).
pub fn install_plan(names: &Vec<String>) -> (r: (Vec<(usize, String)>, Result<(), String>))
    ensures
        plan_view(r.0@) == install_plan_spec(strs(names@)),
        r.1 is Ok <==> install_plan_spec(strs(names@)).len() >= 2,
        r.1 matches Err(e) ==> e@ == missing_tools_message(),
{
    let ghost ns = strs(names@);
    let mut plan: Vec<(usize, String)> = Vec::new();
    let mut i: usize = 0;
    while i < names.len()
        invariant
            ns == strs(names@),
            i <= names@.len(),
            plan_view(plan@) == install_plan_spec(ns.take(i as int)),
        decreases names@.len() - i,
    {
        assert(ns.take(i + 1).drop_last() =~= ns.take(i as int));
        assert(ns.take(i + 1).last() == names@[i as int]@);
        match ffmpeg_entry(names[i].as_str()) {
            Some(f) => {
                let ghost before = plan@;
                plan.push((i, f));
                assert(plan_view(plan@) =~= plan_view(before).push((i as int, plan@[before.len() as int].1@)));
            },
            None => {},
        }
        i = i + 1;
    }
    assert(ns.take(i as int) =~= ns);
    let outcome = if plan.len() >= 2 {
        Ok(())
    } else {
        Err(owned("couldn't find ffmpeg/ffprobe inside the download"))
    };
    (plan, outcome)
}

/// An entry of the Deno archive is the runtime when it is `deno.exe` or ends in `/deno.exe`.
pub open spec fn is_deno_entry_spec(name: Seq<char>) -> bool {
    let n = replace_all(name, "\\"@, "/"@);
    n == "deno.exe"@ || ends_with(n, "/deno.exe"@)
}

/// Whether an entry of the Deno archive is the runtime.
pub fn is_deno_entry(name: &str) -> (r: bool)
    ensures
        r == is_deno_entry_spec(name@),
{
    proof {
        reveal_strlit("\\");
    }
    let n = replace_str(name, "\\", "/");
    str_eq(n.as_str(), "deno.exe") || str_ends_with(n.as_str(), "/deno.exe")
}


proof fn lemma_digits_not_ws(s: Seq<char>)
    requires
        all_digits(s),
    ensures
        trim(s) == s,
{
    if s.len() > 0 {
        assert('0' <= s[0] <= '9');
        assert('0' <= s.last() <= '9');
    }
}

/// The refresh time written after a yt-dlp update reads back: with `last` in the check
/// file, yt-dlp is due again exactly when three days have passed since `last`.
pub proof fn law_refresh_interval(last: u64, now: u64)
    ensures
        ytdlp_update_due_spec(dec(last as nat), now) == (now >= last && now - last >= 3 * 24 * 3600),
{
    law_decimal_round_trip(last);
    lemma_dec_all_digits(last);
    lemma_digits_not_ws(dec(last as nat));
}

} // verus!
