//! yt-dlp: format selectors, the argument lists of its lookups and downloads, and the
//! per-quality download sizes read from a video's format list.
use vstd::prelude::*;
use crate::num::{fixed2_of_milli, fixed2_text, parse_u64, parse_u64_spec};
use crate::media::{failure_message, failure_message_spec};
use crate::paths::opt_chars;
use crate::text::{
    chars_of, contains, ends_with, lines, lines_of, lowercase, owned, push_lit, push_str, push_string, str_contains,
    str_ends_with, str_eq, string_of, strs, to_lower, trim, trimmed, words, words_of,
};

verus! {

/// The height limit of a quality choice: none for "", "best" or "source", else `[height<=Q]`.
pub open spec fn height_filter_spec(quality: Seq<char>) -> Seq<char> {
    if quality.len() == 0 || quality == "best"@ || quality == "source"@ {
        Seq::empty()
    } else {
        "[height<="@ + quality + "]"@
    }
}

/// The format selector: best video within the limit plus best audio, else the best
/// combined file within the limit.
pub open spec fn format_selector_spec(quality: Seq<char>) -> Seq<char> {
    let h = height_filter_spec(quality);
    "bv*"@ + h + "+ba/b"@ + h
}

/// The format selector for a quality choice.
pub fn format_selector(quality: &str) -> (r: String)
    ensures
        r@ == format_selector_spec(quality@),
{
    let h = if quality.is_empty() || str_eq(quality, "best") || str_eq(quality, "source") {
        String::new()
    } else {
        let mut h = owned("[height<=");
        push_str(&mut h, quality);
        push_str(&mut h, "]");
        h
    };
    let mut s = owned("bv*");
    push_str(&mut s, h.as_str());
    push_str(&mut s, "+ba/b");
    push_str(&mut s, h.as_str());
    assert(s@ =~= format_selector_spec(quality@));
    s
}

/// A no-download simulation that prints the approximate size of the chosen formats.
pub open spec fn size_args_spec(url: Seq<char>, quality: Seq<char>) -> Seq<Seq<char>> {
    seq!["--simulate"@, "--no-playlist"@, "--no-warnings"@, "-f"@, format_selector_spec(quality), "--print"@,
        "%(filesize_approx)s"@, url]
}

/// The yt-dlp arguments of a size lookup.
pub fn size_args(url: &str, quality: &str) -> (r: Vec<String>)
    ensures
        strs(r@) == size_args_spec(url@, quality@),
{
    let mut a: Vec<String> = Vec::new();
    push_lit(&mut a, "--simulate");
    push_lit(&mut a, "--no-playlist");
    push_lit(&mut a, "--no-warnings");
    push_lit(&mut a, "-f");
    push_string(&mut a, format_selector(quality));
    push_lit(&mut a, "--print");
    push_lit(&mut a, "%(filesize_approx)s");
    push_lit(&mut a, url);
    assert(strs(a@) =~= size_args_spec(url@, quality@));
    a
}

/// The yt-dlp arguments that dump a video's metadata as one JSON document.
pub open spec fn info_args_spec(url: Seq<char>) -> Seq<Seq<char>> {
    seq!["--dump-single-json"@, "--no-playlist"@, "--no-warnings"@, url]
}

/// The yt-dlp arguments of a metadata lookup.
pub fn info_args(url: &str) -> (r: Vec<String>)
    ensures
        strs(r@) == info_args_spec(url@),
{
    let mut a: Vec<String> = Vec::new();
    push_lit(&mut a, "--dump-single-json");
    push_lit(&mut a, "--no-playlist");
    push_lit(&mut a, "--no-warnings");
    push_lit(&mut a, url);
    assert(strs(a@) =~= info_args_spec(url@));
    a
}

/// The first line of `ls` from index `i` on whose trimmed text is a `u64`.
pub open spec fn first_u64_line(ls: Seq<Seq<char>>) -> Option<u64>
    decreases ls.len(),
{
    if ls.len() == 0 {
        None
    } else {
        match parse_u64_spec(trim(ls[0])) {
            Some(v) => Some(v),
            None => first_u64_line(ls.skip(1)),
        }
    }
}

/// The size a size lookup printed: the first line that reads as a number, else 0
/// (the site does not report one).
pub open spec fn size_from_output_spec(out: Seq<char>) -> u64 {
    match first_u64_line(lines(out)) {
        Some(v) => v,
        None => 0,
    }
}

/// The size printed by a size lookup.
pub fn size_from_output(out: &str) -> (r: u64)
    ensures
        r == size_from_output_spec(out@),
{
    let ls = lines_of(out);
    let ghost l = strs(ls@);
    assert(l.skip(0) =~= l);
    let mut i: usize = 0;
    while i < ls.len()
        invariant
            l == strs(ls@),
            l == lines(out@),
            i <= ls@.len(),
            first_u64_line(l) == first_u64_line(l.skip(i as int)),
        decreases ls@.len() - i,
    {
        let t = trimmed(ls[i].as_str());
        let ghost rest = l.skip(i as int);
        assert(rest[0] == ls@[i as int]@);
        assert(rest.skip(1) =~= l.skip(i + 1));
        match parse_u64(t.as_str()) {
            Some(v) => {
                return v;
            },
            None => {},
        }
        i = i + 1;
    }
    assert(l.skip(i as int) =~= Seq::<Seq<char>>::empty());
    0
}

/// `m` thousandths of a second with two decimals and a sign (`{:.2}`).
pub open spec fn signed_fixed2(m: int) -> Seq<char> {
    if m < 0 { "-"@ + fixed2_of_milli((-m) as nat) } else { fixed2_of_milli(m as nat) }
}

fn signed_fixed2_text(m: i64) -> (r: String)
    ensures
        r@ == signed_fixed2(m as int),
{
    if m < 0 {
        let mag: u64 = if m == i64::MIN { 9223372036854775808u64 } else { (-m) as u64 };
        let mut s = owned("-");
        let t = fixed2_text(mag);
        push_str(&mut s, t.as_str());
        s
    } else {
        fixed2_text(m as u64)
    }
}

/// What a download was asked for; trim times in milliseconds.
pub struct YtDownloadOpts {
    pub url: String,
    pub quality: String,
    pub format: String,
    /// "audio" for an MP3, else video
    pub mode: String,
    pub trim_start_ms: Option<i64>,
    pub trim_end_ms: Option<i64>,
}

/// The arguments of a download: single video, line-wise progress, retries and four
/// parallel fragments, ffmpeg from the tools folder, the final path printed to
/// `path_file`, titles capped at 120 bytes in `out_dir`; then MP3 extraction, or the
/// format selector and the container (WebM or MP4); then the trimmed section when both
/// ends are set and the end is later.
pub open spec fn download_args_spec(o: YtDownloadOpts, bin_dir: Seq<char>, path_file: Seq<char>, out_dir: Seq<char>) -> Seq<Seq<char>> {
    seq![o.url@, "--no-playlist"@, "--newline"@, "--no-warnings"@, "--no-simulate"@, "--retries"@, "3"@,
        "--fragment-retries"@, "3"@, "--concurrent-fragments"@, "4"@, "--ffmpeg-location"@, bin_dir,
        "--print-to-file"@, "after_move:filepath"@, path_file, "-o"@,
        out_dir + "\\%(title).120B [%(id)s].%(ext)s"@, "--trim-filenames"@, "200"@]
    + (if o.mode@ == "audio"@ {
        seq!["-x"@, "--audio-format"@, "mp3"@, "--audio-quality"@, "0"@]
    } else {
        seq!["-f"@, format_selector_spec(o.quality@), "--merge-output-format"@,
            if o.format@ == "webm"@ { "webm"@ } else { "mp4"@ }]
    })
    + (match (o.trim_start_ms, o.trim_end_ms) {
        (Some(s), Some(e)) => if e > s {
            seq!["--download-sections"@, "*"@ + signed_fixed2(s as int) + "-"@ + signed_fixed2(e as int),
                "--force-keyframes-at-cuts"@]
        } else {
            Seq::empty()
        },
        _ => Seq::empty(),
    })
}

/// The container of a download: a video is merged into WebM when WebM was asked for and
/// into MP4 otherwise, and that is the one container named after the fixed options; an
/// audio download is extracted to MP3 and names no container.
pub proof fn law_download_container(o: YtDownloadOpts, bin_dir: Seq<char>, path_file: Seq<char>, out_dir: Seq<char>)
    ensures
        ({
            let a = download_args_spec(o, bin_dir, path_file, out_dir);
            let container = if o.format@ == "webm"@ { "webm"@ } else { "mp4"@ };
            &&& o.mode@ != "audio"@ ==> a[22] == "--merge-output-format"@ && a[23] == container
            &&& o.mode@ != "audio"@ ==> forall|j: int| 20 <= j < a.len() && a[j] == "--merge-output-format"@ ==> j == 22
            &&& o.mode@ == "audio"@ ==> a.subrange(20, 25) == seq!["-x"@, "--audio-format"@, "mp3"@, "--audio-quality"@, "0"@]
            &&& o.mode@ == "audio"@ ==> forall|j: int| 20 <= j < a.len() ==> a[j] != "--merge-output-format"@
        }),
{
    reveal_strlit("--merge-output-format");
    reveal_strlit("-f");
    reveal_strlit("-x");
    reveal_strlit("--audio-format");
    reveal_strlit("mp3");
    reveal_strlit("--audio-quality");
    reveal_strlit("0");
    reveal_strlit("--download-sections");
    reveal_strlit("--force-keyframes-at-cuts");
    reveal_strlit("*");
    reveal_strlit("bv*");
    let a = download_args_spec(o, bin_dir, path_file, out_dir);
    let fixed = seq![o.url@, "--no-playlist"@, "--newline"@, "--no-warnings"@, "--no-simulate"@, "--retries"@, "3"@,
        "--fragment-retries"@, "3"@, "--concurrent-fragments"@, "4"@, "--ffmpeg-location"@, bin_dir,
        "--print-to-file"@, "after_move:filepath"@, path_file, "-o"@,
        out_dir + "\\%(title).120B [%(id)s].%(ext)s"@, "--trim-filenames"@, "200"@];
    let mid = if o.mode@ == "audio"@ {
        seq!["-x"@, "--audio-format"@, "mp3"@, "--audio-quality"@, "0"@]
    } else {
        seq!["-f"@, format_selector_spec(o.quality@), "--merge-output-format"@,
            if o.format@ == "webm"@ { "webm"@ } else { "mp4"@ }]
    };
    let tail = match (o.trim_start_ms, o.trim_end_ms) {
        (Some(s), Some(e)) => if e > s {
            seq!["--download-sections"@, "*"@ + signed_fixed2(s as int) + "-"@ + signed_fixed2(e as int),
                "--force-keyframes-at-cuts"@]
        } else {
            Seq::empty()
        },
        _ => Seq::empty(),
    };
    assert(a =~= fixed + mid + tail);
    assert(fixed.len() == 20);
    let mf = "--merge-output-format"@;
    assert(mf.len() == 21 && mf[0] == '-');
    let sel = format_selector_spec(o.quality@);
    assert(sel[0] == 'b');
    assert forall|j: int| 0 <= j < tail.len() implies tail[j] != mf by {
        if j == 1 {
            assert(tail[1][0] == '*');
        }
    }
    assert forall|j: int| 0 <= j < mid.len() && mid[j] == mf implies o.mode@ != "audio"@ && j == 2 by {
        reveal_strlit("webm");
        reveal_strlit("mp4");
        if o.mode@ == "audio"@ {
            assert(mid[j].len() != 21);
        } else if j == 1 {
            assert(mid[1][0] == 'b');
        } else if j != 2 {
            assert(mid[j].len() != 21);
        }
    }
    assert forall|j: int| 20 <= j < a.len() implies (a[j] == mf ==> o.mode@ != "audio"@ && j == 22) by {
        if j < 20 + mid.len() {
            assert(a[j] == mid[j - 20]);
        } else {
            assert(a[j] == tail[j - 20 - mid.len()]);
        }
    }
    if o.mode@ == "audio"@ {
        assert(a.subrange(20, 25) =~= mid);
    }
}

/// The yt-dlp arguments of a download.
pub fn download_args(o: &YtDownloadOpts, bin_dir: &str, path_file: &str, out_dir: &str) -> (r: Vec<String>)
    ensures
        strs(r@) == download_args_spec(*o, bin_dir@, path_file@, out_dir@),
{
    let mut a: Vec<String> = Vec::new();
    push_string(&mut a, o.url.clone());
    push_lit(&mut a, "--no-playlist");
    push_lit(&mut a, "--newline");
    push_lit(&mut a, "--no-warnings");
    push_lit(&mut a, "--no-simulate");
    push_lit(&mut a, "--retries");
    push_lit(&mut a, "3");
    push_lit(&mut a, "--fragment-retries");
    push_lit(&mut a, "3");
    push_lit(&mut a, "--concurrent-fragments");
    push_lit(&mut a, "4");
    push_lit(&mut a, "--ffmpeg-location");
    push_lit(&mut a, bin_dir);
    push_lit(&mut a, "--print-to-file");
    push_lit(&mut a, "after_move:filepath");
    push_lit(&mut a, path_file);
    push_lit(&mut a, "-o");
    let mut tpl = owned(out_dir);
    push_str(&mut tpl, "\\%(title).120B [%(id)s].%(ext)s");
    push_string(&mut a, tpl);
    push_lit(&mut a, "--trim-filenames");
    push_lit(&mut a, "200");
    let ghost s0 = strs(a@);
    if str_eq(o.mode.as_str(), "audio") {
        push_lit(&mut a, "-x");
        push_lit(&mut a, "--audio-format");
        push_lit(&mut a, "mp3");
        push_lit(&mut a, "--audio-quality");
        push_lit(&mut a, "0");
    } else {
        push_lit(&mut a, "-f");
        push_string(&mut a, format_selector(o.quality.as_str()));
        push_lit(&mut a, "--merge-output-format");
        if str_eq(o.format.as_str(), "webm") {
            push_lit(&mut a, "webm");
        } else {
            push_lit(&mut a, "mp4");
        }
    }
    let ghost s1 = strs(a@);
    assert(s1 =~= s0 + (if o.mode@ == "audio"@ {
        seq!["-x"@, "--audio-format"@, "mp3"@, "--audio-quality"@, "0"@]
    } else {
        seq!["-f"@, format_selector_spec(o.quality@), "--merge-output-format"@,
            if o.format@ == "webm"@ { "webm"@ } else { "mp4"@ }]
    }));
    match (o.trim_start_ms, o.trim_end_ms) {
        (Some(s), Some(e)) => {
            if e > s {
                push_lit(&mut a, "--download-sections");
                let mut sec = owned("*");
                let st = signed_fixed2_text(s);
                push_str(&mut sec, st.as_str());
                push_str(&mut sec, "-");
                let et = signed_fixed2_text(e);
                push_str(&mut sec, et.as_str());
                push_string(&mut a, sec);
                push_lit(&mut a, "--force-keyframes-at-cuts");
            }
        },
        _ => {},
    }
    assert(strs(a@) =~= download_args_spec(*o, bin_dir@, path_file@, out_dir@));
    a
}

/// `PATH` with the tools folder in front, so yt-dlp finds ffmpeg and its JavaScript runtime.
pub open spec fn path_env_spec(bin_dir: Seq<char>, path: Seq<char>) -> Seq<char> {
    bin_dir + ";"@ + path
}

/// The `PATH` handed to yt-dlp.
pub fn path_env(bin_dir: &str, path: &str) -> (r: String)
    ensures
        r@ == path_env_spec(bin_dir@, path@),
{
    let mut s = owned(bin_dir);
    push_str(&mut s, ";");
    push_str(&mut s, path);
    s
}


/// One entry of a video's format list, as far as sizing reads it. `tbr` is the total
/// bitrate as an order key: a larger key is a larger bitrate, and 0 is a bitrate of 0.
pub struct FormatInfo {
    /// "none" for an audio-only format
    pub vcodec: String,
    /// "none" for a video-only format
    pub acodec: String,
    /// 0 when unknown
    pub height: u64,
    pub tbr: i64,
    pub filesize: Option<u64>,
    pub filesize_approx: Option<u64>,
}

/// The size of a format: the exact one, else the approximate one, else 0.
pub open spec fn fsize(f: FormatInfo) -> u64 {
    match f.filesize {
        Some(x) => x,
        None => match f.filesize_approx {
            Some(y) => y,
            None => 0,
        },
    }
}

/// Best audio-only track seen in `fs` (bitrate key, size): an audio-only format with a
/// known size replaces the current one when its bitrate is at least as high.
pub open spec fn best_audio(fs: Seq<FormatInfo>) -> (i64, u64)
    decreases fs.len(),
{
    if fs.len() == 0 {
        (0, 0)
    } else {
        let acc = best_audio(fs.drop_last());
        let f = fs.last();
        if f.vcodec@ == "none"@ && f.acodec@ != "none"@ && fsize(f) > 0 && f.tbr >= acc.0 {
            (f.tbr, fsize(f))
        } else {
            acc
        }
    }
}

/// Best video format no taller than `cap` (height, bitrate key, size): a format with video,
/// a known height and size replaces the current one when taller, or as tall with a higher
/// bitrate.
pub open spec fn best_video(fs: Seq<FormatInfo>, cap: u64) -> (u64, i64, u64)
    decreases fs.len(),
{
    if fs.len() == 0 {
        (0, 0, 0)
    } else {
        let acc = best_video(fs.drop_last(), cap);
        let f = fs.last();
        if f.vcodec@ != "none"@ && f.height != 0 && f.height <= cap && fsize(f) != 0
            && (f.height > acc.0 || (f.height == acc.0 && f.tbr > acc.1)) {
            (f.height, f.tbr, fsize(f))
        } else {
            acc
        }
    }
}

/// The quality choices sized, with their height caps.
pub open spec fn size_caps() -> Seq<(Seq<char>, u64)> {
    seq![("best"@, u64::MAX), ("2160"@, 2160u64), ("1440"@, 1440u64), ("1080"@, 1080u64), ("720"@, 720u64),
        ("480"@, 480u64), ("360"@, 360u64)]
}

/// Download size per quality choice among `caps`: best video within the cap plus the best
/// audio track, for each choice that has a video format.
pub open spec fn size_entries(fs: Seq<FormatInfo>, caps: Seq<(Seq<char>, u64)>) -> Seq<(Seq<char>, int)>
    decreases caps.len(),
{
    if caps.len() == 0 {
        Seq::empty()
    } else {
        let prev = size_entries(fs, caps.drop_last());
        let b = best_video(fs, caps.last().1);
        if b.2 > 0 {
            prev.push((caps.last().0, b.2 + best_audio(fs).1))
        } else {
            prev
        }
    }
}

/// Every size sum fits in a `u64`.
pub open spec fn sizes_fit(fs: Seq<FormatInfo>) -> bool {
    forall|i: int| 0 <= i < size_caps().len() ==>
        best_video(fs, (#[trigger] size_caps()[i]).1).2 + best_audio(fs).1 <= u64::MAX
}

/// The views of size entries.
pub open spec fn entries_view(v: Seq<(String, u64)>) -> Seq<(Seq<char>, int)> {
    v.map_values(|e: (String, u64)| (e.0@, e.1 as int))
}

fn fsize_of(f: &FormatInfo) -> (r: u64)
    ensures
        r == fsize(*f),
{
    match f.filesize {
        Some(x) => x,
        None => match f.filesize_approx {
            Some(y) => y,
            None => 0,
        },
    }
}

fn best_audio_of(fs: &Vec<FormatInfo>) -> (r: (i64, u64))
    ensures
        r == best_audio(fs@),
{
    let mut acc: (i64, u64) = (0, 0);
    let mut i: usize = 0;
    while i < fs.len()
        invariant
            i <= fs@.len(),
            acc == best_audio(fs@.take(i as int)),
        decreases fs@.len() - i,
    {
        let f = &fs[i];
        assert(fs@.take(i + 1).drop_last() =~= fs@.take(i as int));
        assert(fs@.take(i + 1).last() == fs@[i as int]);
        let s = fsize_of(f);
        if str_eq(f.vcodec.as_str(), "none") && !str_eq(f.acodec.as_str(), "none") && s > 0 && f.tbr >= acc.0 {
            acc = (f.tbr, s);
        }
        i = i + 1;
    }
    assert(fs@.take(i as int) =~= fs@);
    acc
}

fn best_video_of(fs: &Vec<FormatInfo>, cap: u64) -> (r: (u64, i64, u64))
    ensures
        r == best_video(fs@, cap),
{
    let mut acc: (u64, i64, u64) = (0, 0, 0);
    let mut i: usize = 0;
    while i < fs.len()
        invariant
            i <= fs@.len(),
            acc == best_video(fs@.take(i as int), cap),
        decreases fs@.len() - i,
    {
        let f = &fs[i];
        assert(fs@.take(i + 1).drop_last() =~= fs@.take(i as int));
        assert(fs@.take(i + 1).last() == fs@[i as int]);
        let s = fsize_of(f);
        if !str_eq(f.vcodec.as_str(), "none") && f.height != 0 && f.height <= cap && s != 0
            && (f.height > acc.0 || (f.height == acc.0 && f.tbr > acc.1)) {
            acc = (f.height, f.tbr, s);
        }
        i = i + 1;
    }
    assert(fs@.take(i as int) =~= fs@);
    acc
}

/// Approximate download size per quality (best video within the height cap plus the best
/// audio track), read from the format list alone, for "best", "2160", "1440", "1080",
/// "720", "480" and "360", in that order, leaving out choices without a sized video format.
pub fn sizes_from_formats(fs: &Vec<FormatInfo>) -> (r: Vec<(String, u64)>)
    requires
        sizes_fit(fs@),
    ensures
        entries_view(r@) == size_entries(fs@, size_caps()),
{
    let audio = best_audio_of(fs);
    let mut keys: Vec<(&str, u64)> = Vec::new();
    keys.push(("best", u64::MAX));
    keys.push(("2160", 2160));
    keys.push(("1440", 1440));
    keys.push(("1080", 1080));
    keys.push(("720", 720));
    keys.push(("480", 480));
    keys.push(("360", 360));
    let ghost caps = size_caps();
    assert(keys@.len() == caps.len());
    assert(forall|j: int| 0 <= j < caps.len() ==> (#[trigger] keys@[j]).0@ == caps[j].0 && keys@[j].1 == caps[j].1);
    let mut out: Vec<(String, u64)> = Vec::new();
    let mut i: usize = 0;
    while i < keys.len()
        invariant
            caps == size_caps(),
            keys@.len() == caps.len(),
            forall|j: int| 0 <= j < caps.len() ==> (#[trigger] keys@[j]).0@ == caps[j].0 && keys@[j].1 == caps[j].1,
            audio == best_audio(fs@),
            sizes_fit(fs@),
            i <= keys@.len(),
            entries_view(out@) == size_entries(fs@, caps.take(i as int)),
        decreases keys@.len() - i,
    {
        let (key, cap) = keys[i];
        let b = best_video_of(fs, cap);
        assert(caps.take(i + 1).drop_last() =~= caps.take(i as int));
        assert(caps.take(i + 1).last() == caps[i as int]);
        assert(best_video(fs@, (size_caps()[i as int]).1).2 + best_audio(fs@).1 <= u64::MAX);
        if b.2 > 0 {
            let ghost before = out@;
            out.push((owned(key), b.2 + audio.1));
            assert(entries_view(out@) =~= entries_view(before).push((key@, (b.2 + audio.1) as int)));
        }
        i = i + 1;
    }
    assert(caps.take(i as int) =~= caps);
    out
}

/// `f` is a video format that counts for the cap `cap`: video, a known height within the
/// cap, a known size.
pub open spec fn counts_for(f: FormatInfo, cap: u64) -> bool {
    f.vcodec@ != "none"@ && f.height != 0 && f.height <= cap && fsize(f) != 0
}

proof fn lemma_best_video_found(fs: Seq<FormatInfo>, cap: u64)
    ensures
        (best_video(fs, cap).0 > 0) == (best_video(fs, cap).2 > 0),
        (best_video(fs, cap).2 > 0) == exists|j: int| 0 <= j < fs.len() && counts_for(#[trigger] fs[j], cap),
    decreases fs.len(),
{
    if fs.len() > 0 {
        let init = fs.drop_last();
        lemma_best_video_found(init, cap);
        if exists|j: int| 0 <= j < init.len() && counts_for(#[trigger] init[j], cap) {
            let j = choose|j: int| 0 <= j < init.len() && counts_for(#[trigger] init[j], cap);
            assert(fs[j] == init[j]);
        }
        if exists|j: int| 0 <= j < fs.len() && counts_for(#[trigger] fs[j], cap) {
            let j = choose|j: int| 0 <= j < fs.len() && counts_for(#[trigger] fs[j], cap);
            if j < init.len() {
                assert(init[j] == fs[j]);
            }
        }
    }
}

/// A quality that has a size also has one under every larger height cap: a video format
/// that fits a cap fits every larger one. So the size list, read from "best" down to
/// "360", holds a prefix of the choices.
pub proof fn law_sizes_for_larger_caps(fs: Seq<FormatInfo>, lo: u64, hi: u64)
    requires
        lo <= hi,
    ensures
        best_video(fs, lo).2 > 0 ==> best_video(fs, hi).2 > 0,
        forall|i: int, j: int| 0 <= i <= j < size_caps().len() ==>
            (best_video(fs, (#[trigger] size_caps()[j]).1).2 > 0 ==> best_video(fs, (#[trigger] size_caps()[i]).1).2 > 0),
{
    lemma_best_video_found(fs, lo);
    lemma_best_video_found(fs, hi);
    if best_video(fs, lo).2 > 0 {
        let j = choose|j: int| 0 <= j < fs.len() && counts_for(#[trigger] fs[j], lo);
        assert(counts_for(fs[j], hi));
    }
    assert forall|i: int, j: int| 0 <= i <= j < size_caps().len() && best_video(fs, (#[trigger] size_caps()[j]).1).2 > 0 implies
        best_video(fs, (#[trigger] size_caps()[i]).1).2 > 0 by {
        let a = size_caps()[j].1;
        let b = size_caps()[i].1;
        assert(a <= b);
        lemma_best_video_found(fs, a);
        lemma_best_video_found(fs, b);
        if best_video(fs, a).2 > 0 {
            let k = choose|k: int| 0 <= k < fs.len() && counts_for(#[trigger] fs[k], a);
            assert(counts_for(fs[k], b));
        }
    }
}


/// The words ending in '%', without it, in order: where a download line's percentage may be.
pub open spec fn percent_texts(ws: Seq<Seq<char>>) -> Seq<Seq<char>>
    decreases ws.len(),
{
    if ws.len() == 0 {
        Seq::empty()
    } else {
        let p = percent_texts(ws.drop_last());
        if ends_with(ws.last(), "%"@) { p.push(ws.last().drop_last()) } else { p }
    }
}

/// The first word ending in "/s" (the download speed), or "".
pub open spec fn speed_word(ws: Seq<Seq<char>>) -> Seq<char>
    decreases ws.len(),
{
    if ws.len() == 0 {
        Seq::empty()
    } else if ends_with(ws[0], "/s"@) {
        ws[0]
    } else {
        speed_word(ws.skip(1))
    }
}

/// What a line of yt-dlp's output reports.
pub enum YtLine {
    /// A `[download]` line with a '%': the texts that may be the percentage, and the speed.
    Download { percents: Vec<String>, speed: String },
    /// Merging or converting after the download.
    Finishing,
    Other,
}

/// The kind of a yt-dlp line: 0 download progress, 1 finishing, 2 other.
pub open spec fn yt_line_kind(line: Seq<char>) -> int {
    if contains(line, "[download]"@) && contains(line, "%"@) {
        0
    } else if contains(line, "[Merger]"@) || contains(line, "Merging"@) || contains(line, "[ExtractAudio]"@)
        || contains(line, "[VideoConvertor]"@) {
        1
    } else {
        2
    }
}

/// Reads one line of yt-dlp's output.
pub fn yt_line(line: &str) -> (r: YtLine)
    ensures
        match r {
            YtLine::Download { percents, speed } => yt_line_kind(line@) == 0
                && strs(percents@) == percent_texts(words(line@)) && speed@ == speed_word(words(line@)),
            YtLine::Finishing => yt_line_kind(line@) == 1,
            YtLine::Other => yt_line_kind(line@) == 2,
        },
{
    if str_contains(line, "[download]") && str_contains(line, "%") {
        let ws = words_of(line);
        let ghost w = strs(ws@);
        let mut percents: Vec<String> = Vec::new();
        let mut i: usize = 0;
        while i < ws.len()
            invariant
                w == strs(ws@),
                i <= ws@.len(),
                strs(percents@) == percent_texts(w.take(i as int)),
            decreases ws@.len() - i,
        {
            assert(w.take(i + 1).drop_last() =~= w.take(i as int));
            assert(w.take(i + 1).last() == ws@[i as int]@);
            proof {
                reveal_strlit("%");
            }
            if str_ends_with(ws[i].as_str(), "%") {
                let cv = chars_of(ws[i].as_str());
                let t = string_of(&cv, 0, cv.len() - 1);
                assert(t@ =~= ws@[i as int]@.drop_last());
                push_string(&mut percents, t);
            }
            i = i + 1;
        }
        assert(w.take(i as int) =~= w);
        let mut speed = String::new();
        let mut found = false;
        let mut k: usize = 0;
        assert(w.skip(0) =~= w);
        while k < ws.len() && !found
            invariant
                w == strs(ws@),
                k <= ws@.len(),
                !found ==> speed_word(w) == speed_word(w.skip(k as int)),
                !found ==> speed@ == Seq::<char>::empty(),
                found ==> speed@ == speed_word(w),
            decreases ws@.len() - k + (if found { 0int } else { 1int }),
        {
            assert(w.skip(k as int)[0] == ws@[k as int]@);
            assert(w.skip(k as int).skip(1) =~= w.skip(k + 1));
            if str_ends_with(ws[k].as_str(), "/s") {
                speed = ws[k].clone();
                found = true;
            } else {
                k = k + 1;
            }
        }
        proof {
            if !found {
                assert(w.skip(k as int) =~= Seq::<Seq<char>>::empty());
            }
        }
        YtLine::Download { percents, speed }
    } else if str_contains(line, "[Merger]") || str_contains(line, "Merging") || str_contains(line, "[ExtractAudio]")
        || str_contains(line, "[VideoConvertor]") {
        YtLine::Finishing
    } else {
        YtLine::Other
    }
}

/// The status shown while downloading.
pub open spec fn download_status_spec(speed: Seq<char>) -> Seq<char> {
    if speed.len() == 0 { "Downloading…"@ } else { "Downloading… "@ + speed }
}

/// The status text for a speed reading.
pub fn download_status(speed: &str) -> (r: String)
    ensures
        r@ == download_status_spec(speed@),
{
    if speed.is_empty() {
        owned("Downloading…")
    } else {
        let mut s = owned("Downloading… ");
        push_str(&mut s, speed);
        s
    }
}

/// Of lines `ls` with their lowercase forms `lows`, the last line whose lowercase form
/// mentions "error".
pub open spec fn last_error_line(ls: Seq<Seq<char>>, lows: Seq<Seq<char>>) -> Option<Seq<char>>
    decreases ls.len(),
{
    if ls.len() == 0 || lows.len() < ls.len() {
        None
    } else if contains(lows[ls.len() - 1], "error"@) {
        Some(ls.last())
    } else {
        last_error_line(ls.drop_last(), lows)
    }
}

/// The lowercase forms of lines.
pub open spec fn lowered(ls: Seq<Seq<char>>) -> Seq<Seq<char>> {
    ls.map_values(|l: Seq<char>| lowercase(l))
}

/// The message of a failed download, given the lowercase forms `lows` of its log's
/// lines: the last line mentioning an error, else the last non-blank line, else
/// "yt-dlp failed"; trimmed.
pub open spec fn failure_given_spec(log: Seq<char>, lows: Seq<Seq<char>>) -> Seq<char> {
    match last_error_line(lines(log), lows) {
        Some(l) => trim(l),
        None => trim(failure_message_spec(log, "yt-dlp failed"@)),
    }
}

/// The message of a failed download.
pub open spec fn ytdlp_failure_spec(log: Seq<char>) -> Seq<char> {
    failure_given_spec(log, lowered(lines(log)))
}

/// The message of a failed download, given the lowercase forms of its log's lines.
pub fn failure_given(log: &str, lows: &Vec<String>) -> (r: String)
    requires
        strs(lows@).len() == lines(log@).len(),
    ensures
        r@ == failure_given_spec(log@, strs(lows@)),
{
    let ls = lines_of(log);
    let ghost l = strs(ls@);
    let ghost lw = strs(lows@);
    let mut i: usize = ls.len();
    assert(l.take(i as int) =~= l);
    while i > 0
        invariant
            l == strs(ls@),
            l == lines(log@),
            lw == strs(lows@),
            lw.len() == l.len(),
            i <= ls@.len(),
            last_error_line(l, lw) == last_error_line(l.take(i as int), lw),
        decreases i,
    {
        assert(l.take(i as int).last() == ls@[i - 1]@);
        assert(l.take(i as int).drop_last() =~= l.take(i - 1));
        assert(lw[i - 1] == lows@[i - 1]@);
        if str_contains(lows[i - 1].as_str(), "error") {
            return trimmed(ls[i - 1].as_str());
        }
        i = i - 1;
    }
    let m = failure_message(log, "yt-dlp failed");
    trimmed(m.as_str())
}

/// The message of a failed download.
pub fn ytdlp_failure(log: &str) -> (r: String)
    ensures
        r@ == ytdlp_failure_spec(log@),
{
    let ls = lines_of(log);
    let mut lows: Vec<String> = Vec::new();
    let mut i: usize = 0;
    while i < ls.len()
        invariant
            strs(ls@) == lines(log@),
            i <= ls@.len(),
            strs(lows@) == lowered(strs(ls@)).take(i as int),
        decreases ls@.len() - i,
    {
        let low = to_lower(ls[i].as_str());
        let ghost before = strs(lows@);
        lows.push(low);
        assert(strs(lows@) =~= before.push(lowered(strs(ls@))[i as int]));
        assert(lowered(strs(ls@)).take(i + 1) =~= lowered(strs(ls@)).take(i as int).push(lowered(strs(ls@))[i as int]));
        i = i + 1;
    }
    assert(lowered(strs(ls@)).take(i as int) =~= lowered(strs(ls@)));
    failure_given(log, &lows)
}

/// The non-blank lines of `ls`, in order.
pub open spec fn nonblank(ls: Seq<Seq<char>>) -> Seq<Seq<char>>
    decreases ls.len(),
{
    if ls.len() == 0 {
        Seq::empty()
    } else {
        let p = nonblank(ls.drop_last());
        if trim(ls.last()).len() != 0 { p.push(ls.last()) } else { p }
    }
}

/// What a song search printed: the first non-blank line (trimmed) is the video's address,
/// the second (trimmed, when there is one) its duration; no address means no match.
pub open spec fn search_result_spec(out: Seq<char>) -> Result<(Seq<char>, Option<Seq<char>>), Seq<char>> {
    let nb = nonblank(lines(out));
    let url: Seq<char> = if nb.len() > 0 { trim(nb[0]) } else { Seq::empty() };
    if url.len() == 0 {
        Err("Couldn't find that song to download."@)
    } else {
        Ok((url, if nb.len() > 1 { Some(trim(nb[1])) } else { None }))
    }
}

/// Reads the address and duration text a song search printed.
pub fn search_result(out: &str) -> (r: Result<(String, Option<String>), String>)
    ensures
        match r {
            Ok((u, d)) => search_result_spec(out@) == Ok::<(Seq<char>, Option<Seq<char>>), Seq<char>>((u@, opt_chars(d))),
            Err(e) => search_result_spec(out@) == Err::<(Seq<char>, Option<Seq<char>>), Seq<char>>(e@),
        },
{
    let ls = lines_of(out);
    let ghost l = strs(ls@);
    let mut nb: Vec<String> = Vec::new();
    let mut i: usize = 0;
    while i < ls.len()
        invariant
            l == strs(ls@),
            i <= ls@.len(),
            strs(nb@) == nonblank(l.take(i as int)),
        decreases ls@.len() - i,
    {
        assert(l.take(i + 1).drop_last() =~= l.take(i as int));
        assert(l.take(i + 1).last() == ls@[i as int]@);
        let t = trimmed(ls[i].as_str());
        if !t.as_str().is_empty() {
            push_string(&mut nb, ls[i].clone());
        }
        i = i + 1;
    }
    assert(l.take(i as int) =~= l);
    let url = if nb.len() > 0 { trimmed(nb[0].as_str()) } else { String::new() };
    if url.as_str().is_empty() {
        return Err(owned("Couldn't find that song to download."));
    }
    let d = if nb.len() > 1 { Some(trimmed(nb[1].as_str())) } else { None };
    Ok((url, d))
}


/// Whether every per-quality size sum fits in a `u64` (what `sizes_from_formats` needs).
pub fn sizes_fit_check(fs: &Vec<FormatInfo>) -> (r: bool)
    ensures
        r == sizes_fit(fs@),
{
    let audio = best_audio_of(fs);
    let mut caps: Vec<u64> = Vec::new();
    caps.push(u64::MAX);
    caps.push(2160);
    caps.push(1440);
    caps.push(1080);
    caps.push(720);
    caps.push(480);
    caps.push(360);
    let ghost sc = size_caps();
    assert(caps@.len() == sc.len());
    assert(forall|j: int| 0 <= j < sc.len() ==> #[trigger] caps@[j] == sc[j].1);
    let mut i: usize = 0;
    while i < caps.len()
        invariant
            sc == size_caps(),
            caps@.len() == sc.len(),
            forall|j: int| 0 <= j < sc.len() ==> #[trigger] caps@[j] == sc[j].1,
            audio == best_audio(fs@),
            i <= caps@.len(),
            forall|j: int| 0 <= j < i ==> best_video(fs@, (#[trigger] size_caps()[j]).1).2 + best_audio(fs@).1 <= u64::MAX,
        decreases caps@.len() - i,
    {
        let b = best_video_of(fs, caps[i]);
        if b.2 > u64::MAX - audio.1 {
            assert(best_video(fs@, (size_caps()[i as int]).1).2 + best_audio(fs@).1 > u64::MAX);
            return false;
        }
        i = i + 1;
    }
    true
}

} // verus!
