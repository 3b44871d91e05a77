//! Media-side commands: trim-preview thumbnails, GIF size estimates, VMAF scoring, and
//! reading what ffmpeg prints while it works.
use vstd::prelude::*;
use crate::num::{
    div_round_even, f64_parts, f64_shift, fixed3, fixed3_text, int_dec, int_double, int_double_of, i64_text, parse_i64,
    parse_i64_spec, ratio_double, ratio_double_of, round_half_away, two_to,
};
use crate::text::{
    chars_of, find, find_chars, lines, lines_of, matches_at, owned, push_lit, push_str, push_string, starts_with,
    str_eq, str_starts_with, string_of, strs, trim, trimmed,
};

verus! {

/// The character of a 6-bit value in the standard Base64 alphabet: `A`-`Z`, `a`-`z`,
/// `0`-`9`, `+`, `/`.
pub open spec fn b64_char(v: int) -> char {
    if v < 26 {
        (65 + v) as char
    } else if v < 52 {
        (97 + v - 26) as char
    } else if v < 62 {
        (48 + v - 52) as char
    } else if v == 62 {
        '+'
    } else {
        '/'
    }
}

/// Standard Base64 with padding (RFC 4648): each group of three bytes becomes four
/// characters of six bits each; a last group of one or two bytes becomes two or three
/// characters (its missing bits zero) and is padded with '=' to four.
pub open spec fn base64_standard(b: Seq<u8>) -> Seq<char>
    decreases b.len(),
{
    if b.len() == 0 {
        Seq::empty()
    } else if b.len() == 1 {
        let x = b[0] as int;
        seq![b64_char(x / 4), b64_char((x % 4) * 16), '=', '=']
    } else if b.len() == 2 {
        let x = b[0] as int;
        let y = b[1] as int;
        seq![b64_char(x / 4), b64_char((x % 4) * 16 + y / 16), b64_char((y % 16) * 4), '=']
    } else {
        let x = b[0] as int;
        let y = b[1] as int;
        let z = b[2] as int;
        seq![b64_char(x / 4), b64_char((x % 4) * 16 + y / 16), b64_char((y % 16) * 4 + z / 64), b64_char(z % 64)]
            + base64_standard(b.skip(3))
    }
}

/// Base64 text has four characters per started group of three bytes.
pub proof fn lemma_base64_len(b: Seq<u8>)
    ensures
        base64_standard(b).len() == (b.len() + 2) / 3 * 4,
    decreases b.len(),
{
    if b.len() > 2 {
        lemma_base64_len(b.skip(3));
    }
}

/// `base64::engine::general_purpose::STANDARD.encode`: the padded standard Base64 text of
/// `bytes` (the crate's STANDARD engine: standard alphabet, with padding).
#[verifier::external_body]
fn base64_encode(bytes: &[u8]) -> (r: String)
    requires
        bytes@.len() / 3 * 4 + 4 <= usize::MAX,
    ensures
        r@ == base64_standard(bytes@),
{
    base64::Engine::encode(&base64::engine::general_purpose::STANDARD, bytes)
}

/// A JPEG as a `data:` address for the UI.
pub open spec fn data_url_spec(b64: Seq<char>) -> Seq<char> {
    "data:image/jpeg;base64,"@ + b64
}

/// The `data:` address of a JPEG, given its Base64 text.
pub fn data_url(b64: &str) -> (r: String)
    ensures
        r@ == data_url_spec(b64@),
{
    let mut s = owned("data:image/jpeg;base64,");
    push_str(&mut s, b64);
    s
}

/// The trim-preview image: the `data:` address of the JPEG ffmpeg wrote on success, else
/// the error with ffmpeg's message. An empty image counts as a failure.
pub fn thumbnail_result(success: bool, jpeg: &Vec<u8>, stderr: &str) -> (r: Result<String, String>)
    requires
        jpeg@.len() / 3 * 4 + 4 <= usize::MAX,
    ensures
        (success && jpeg@.len() > 0) ==> (r matches Ok(u) && u@ == data_url_spec(base64_standard(jpeg@))),
        !(success && jpeg@.len() > 0) ==> (r matches Err(e) && e@ == "thumbnail failed: "@ + stderr@),
{
    if !success || jpeg.len() == 0 {
        let mut e = owned("thumbnail failed: ");
        push_str(&mut e, stderr);
        return Err(e);
    }
    let b64 = base64_encode(jpeg.as_slice());
    Ok(data_url(b64.as_str()))
}

/// ffmpeg arguments for one preview frame at `time_ms` (negative times read as 0):
/// a single MJPEG frame, 480 pixels wide, to stdout.
pub open spec fn thumbnail_args_spec(path: Seq<char>, time_ms: i64) -> Seq<Seq<char>> {
    let t: nat = if time_ms < 0 { 0 } else { time_ms as nat };
    seq!["-hide_banner"@, "-loglevel"@, "error"@, "-ss"@, fixed3(t), "-i"@, path, "-an"@, "-sn"@, "-frames:v"@, "1"@,
        "-vf"@, "scale=480:-2:flags=lanczos"@, "-q:v"@, "5"@, "-f"@, "image2"@, "-c:v"@, "mjpeg"@, "pipe:1"@]
}

/// The ffmpeg arguments of a preview frame.
pub fn thumbnail_args(path: &str, time_ms: i64) -> (r: Vec<String>)
    ensures
        strs(r@) == thumbnail_args_spec(path@, time_ms),
{
    let t: u64 = if time_ms < 0 { 0 } else { time_ms as u64 };
    let mut a: Vec<String> = Vec::new();
    push_lit(&mut a, "-hide_banner");
    push_lit(&mut a, "-loglevel");
    push_lit(&mut a, "error");
    push_lit(&mut a, "-ss");
    push_string(&mut a, fixed3_text(t));
    push_lit(&mut a, "-i");
    push_lit(&mut a, path);
    push_lit(&mut a, "-an");
    push_lit(&mut a, "-sn");
    push_lit(&mut a, "-frames:v");
    push_lit(&mut a, "1");
    push_lit(&mut a, "-vf");
    push_lit(&mut a, "scale=480:-2:flags=lanczos");
    push_lit(&mut a, "-q:v");
    push_lit(&mut a, "5");
    push_lit(&mut a, "-f");
    push_lit(&mut a, "image2");
    push_lit(&mut a, "-c:v");
    push_lit(&mut a, "mjpeg");
    push_lit(&mut a, "pipe:1");
    assert(strs(a@) =~= thumbnail_args_spec(path@, time_ms));
    a
}

/// The full length (at least 0.1 s) and the sample length (at most 2 s) of a GIF estimate.
pub open spec fn gif_lengths(duration_ms: i64) -> (nat, nat) {
    let full: nat = if duration_ms < 100 { 100 } else { duration_ms as nat };
    (full, if full < 2000 { full } else { 2000 })
}

/// The full and sample lengths of a GIF estimate.
pub fn gif_estimate_lengths(duration_ms: i64) -> (r: (u64, u64))
    ensures
        (r.0 as nat, r.1 as nat) == gif_lengths(duration_ms),
{
    let full: u64 = if duration_ms < 100 { 100 } else { duration_ms as u64 };
    (full, if full < 2000 { full } else { 2000 })
}

/// ffmpeg arguments that encode the sample of a GIF estimate to `out`.
pub open spec fn gif_sample_args_spec(input: Seq<char>, start_ms: i64, sample_ms: nat, vf: Seq<char>, out: Seq<char>) -> Seq<Seq<char>> {
    let s: nat = if start_ms < 0 { 0 } else { start_ms as nat };
    seq!["-y"@, "-hide_banner"@, "-loglevel"@, "error"@, "-ss"@, fixed3(s), "-t"@, fixed3(sample_ms), "-i"@, input,
        "-vf"@, vf, "-loop"@, "0"@, "-an"@, out]
}

/// The ffmpeg arguments of a GIF estimate's sample.
pub fn gif_sample_args(input: &str, start_ms: i64, sample_ms: u64, vf: &str, out: &str) -> (r: Vec<String>)
    ensures
        strs(r@) == gif_sample_args_spec(input@, start_ms, sample_ms as nat, vf@, out@),
{
    let s: u64 = if start_ms < 0 { 0 } else { start_ms as u64 };
    let mut a: Vec<String> = Vec::new();
    push_lit(&mut a, "-y");
    push_lit(&mut a, "-hide_banner");
    push_lit(&mut a, "-loglevel");
    push_lit(&mut a, "error");
    push_lit(&mut a, "-ss");
    push_string(&mut a, fixed3_text(s));
    push_lit(&mut a, "-t");
    push_string(&mut a, fixed3_text(sample_ms));
    push_lit(&mut a, "-i");
    push_lit(&mut a, input);
    push_lit(&mut a, "-vf");
    push_lit(&mut a, vf);
    push_lit(&mut a, "-loop");
    push_lit(&mut a, "0");
    push_lit(&mut a, "-an");
    push_lit(&mut a, out);
    assert(strs(a@) =~= gif_sample_args_spec(input@, start_ms, sample_ms as nat, vf@, out@));
    a
}

/// The sample's bytes beyond the fixed 1 KiB of header and palette, scaled from the
/// sample length to the full length, in double arithmetic as `(per as f64 * (full /
/// sample)).round()` computes it: `per` as a double, the full length as the double
/// nearest to its milliseconds / 1000 (`8k / 2^t`), halved when the sample is the 2 s
/// cap, the product rounded to a double, then to a whole number (halves up).
pub open spec fn gif_scaled(per: nat, full_ms: nat, sample_ms: nat) -> nat {
    let pf = int_double(per);
    if per == 0 {
        0
    } else if full_ms == sample_ms {
        pf
    } else {
        let t = f64_shift(full_ms, 0);
        let k = div_round_even(full_ms * two_to(t), 8000);
        round_half_away(ratio_double(pf * (4 * k), two_to(t)))
    }
}

/// The estimated GIF size for a clip of `duration_ms`: the scaled sample bytes (as a
/// `u64`, saturating) plus the 1 KiB of header and palette.
pub open spec fn gif_estimate_spec(sample_bytes: u64, duration_ms: i64) -> int {
    let (full, sample) = gif_lengths(duration_ms);
    let per: nat = if sample_bytes > 1024 { (sample_bytes - 1024) as nat } else { 0 };
    let s = gif_scaled(per, full, sample);
    (if s > u64::MAX { u64::MAX as int } else { s as int }) + 1024
}

/// The scaled sample bytes, before the cast to `u64`.
fn gif_scaled_of(per: u64, full_ms: u64, sample_ms: u64) -> (r: u128)
    requires
        full_ms >= 1,
        sample_ms == full_ms || full_ms > 2000,
    ensures
        r as nat == gif_scaled(per as nat, full_ms as nat, sample_ms as nat),
{
    if per == 0 {
        return 0;
    }
    let pf: u128 = int_double_of(per);
    if full_ms == sample_ms {
        return pf;
    }
    let (k, p) = f64_parts(full_ms);
    assert(1 <= pf <= 0x4_0000_0000_0000_0000);
    assert(pf * (4 * k) <= 0x4_0000_0000_0000_0000 * (4 * 0x20_0000_0000_0000)) by (nonlinear_arith)
        requires pf <= 0x4_0000_0000_0000_0000, k <= 0x20_0000_0000_0000;
    let n: u128 = pf * (4 * k);
    assert(n >= 1) by (nonlinear_arith)
        requires n == pf * (4 * k), pf >= 1, k >= 1;
    let (qn, qd) = ratio_double_of(n, p);
    (2 * qn + qd) / (2 * qd)
}

/// The estimate from the size of the encoded sample of a clip of `duration_ms`; an empty
/// sample is an error.
pub fn gif_estimate(sample_bytes: u64, duration_ms: i64) -> (r: Result<u64, String>)
    requires
        gif_estimate_spec(sample_bytes, duration_ms) <= u64::MAX,
    ensures
        sample_bytes == 0 ==> (r matches Err(e) && e@ == "gif estimate produced no output"@),
        sample_bytes > 0 ==> (r matches Ok(v) && v == gif_estimate_spec(sample_bytes, duration_ms)),
{
    if sample_bytes == 0 {
        return Err(owned("gif estimate produced no output"));
    }
    let (full, sample) = gif_estimate_lengths(duration_ms);
    let per: u64 = if sample_bytes > 1024 { sample_bytes - 1024 } else { 0 };
    let s = gif_scaled_of(per, full, sample);
    let sat: u64 = if s > u64::MAX as u128 { u64::MAX } else { s as u64 };
    Ok(sat + 1024)
}

/// ffprobe arguments that print the first video stream's width and height as `w,h`.
pub open spec fn dims_args_spec(path: Seq<char>) -> Seq<Seq<char>> {
    seq!["-v"@, "error"@, "-select_streams"@, "v:0"@, "-show_entries"@, "stream=width,height"@, "-of"@, "csv=p=0"@, path]
}

/// The ffprobe arguments of a dimension lookup.
pub fn dims_args(path: &str) -> (r: Vec<String>)
    ensures
        strs(r@) == dims_args_spec(path@),
{
    let mut a: Vec<String> = Vec::new();
    push_lit(&mut a, "-v");
    push_lit(&mut a, "error");
    push_lit(&mut a, "-select_streams");
    push_lit(&mut a, "v:0");
    push_lit(&mut a, "-show_entries");
    push_lit(&mut a, "stream=width,height");
    push_lit(&mut a, "-of");
    push_lit(&mut a, "csv=p=0");
    push_lit(&mut a, path);
    assert(strs(a@) =~= dims_args_spec(path@));
    a
}

/// `s` after the first `pat`, up to the next one: `s.split(pat).nth(1)`.
pub open spec fn second_part(s: Seq<char>, pat: Seq<char>) -> Option<Seq<char>> {
    match find(s, pat) {
        None => None,
        Some(i) => {
            let rest = s.skip(i + pat.len());
            match find(rest, pat) {
                Some(j) => Some(rest.take(j)),
                None => Some(rest),
            }
        },
    }
}

/// `s` up to the first `pat`, or all of it.
pub open spec fn first_part(s: Seq<char>, pat: Seq<char>) -> Seq<char> {
    match find(s, pat) {
        Some(i) => s.take(i),
        None => s,
    }
}

fn parts_of(s: &str, pat: &str) -> (r: (String, Option<String>))
    requires
        pat@.len() > 0,
    ensures
        r.0@ == first_part(s@, pat@),
        match r.1 {
            Some(x) => second_part(s@, pat@) == Some(x@),
            None => second_part(s@, pat@) is None,
        },
{
    let v = chars_of(s);
    let p = chars_of(pat);
    let n = v.len();
    let pn = p.len();
    let found = find_chars(&v, &p, 0);
    match found {
        None => {
            let all = string_of(&v, 0, n);
            assert(all@ =~= s@);
            (all, None)
        },
        Some(i) => {
            assert(matches_at(v@, p@, i as int));
            let first = string_of(&v, 0, i);
            let rest_s = string_of(&v, i + pn, n);
            let rest = chars_of(rest_s.as_str());
            assert(rest@ =~= s@.skip(i + pat@.len()));
            let found2 = find_chars(&rest, &p, 0);
            match found2 {
                Some(j) => {
                    assert(matches_at(rest@, p@, j as int));
                    (first, Some(string_of(&rest, 0, j)))
                },
                None => {
                    let all = string_of(&rest, 0, rest.len());
                    assert(all@ =~= rest@);
                    (first, Some(all))
                },
            }
        },
    }
}

/// The width and height ffprobe printed: the trimmed output split at ','; each part
/// trimmed and read as an integer, 0 when missing or unreadable; either 0 is an error.
pub open spec fn dims_spec(out: Seq<char>) -> Result<(i64, i64), Seq<char>> {
    let t = trim(out);
    let w: i64 = match parse_i64_spec(trim(first_part(t, ","@))) { Some(v) => v, None => 0 };
    let h: i64 = match second_part(t, ","@) {
        Some(x) => match parse_i64_spec(trim(x)) { Some(v) => v, None => 0 },
        None => 0,
    };
    if w == 0 || h == 0 { Err("couldn't read output dimensions"@) } else { Ok((w, h)) }
}

/// Reads the output dimensions for VMAF.
pub fn parse_dims(out: &str) -> (r: Result<(i64, i64), String>)
    ensures
        match r {
            Ok(d) => dims_spec(out@) == Ok::<(i64, i64), Seq<char>>(d),
            Err(e) => dims_spec(out@) == Err::<(i64, i64), Seq<char>>(e@),
        },
{
    proof {
        reveal_strlit(",");
    }
    let t = trimmed(out);
    let (first, second) = parts_of(t.as_str(), ",");
    let ft = trimmed(first.as_str());
    let w: i64 = match parse_i64(ft.as_str()) { Some(v) => v, None => 0 };
    let h: i64 = match second {
        Some(x) => {
            let xt = trimmed(x.as_str());
            match parse_i64(xt.as_str()) { Some(v) => v, None => 0 }
        },
        None => 0,
    };
    if w == 0 || h == 0 {
        Err(owned("couldn't read output dimensions"))
    } else {
        Ok((w, h))
    }
}

/// The VMAF filtergraph: both streams from time 0, the reference scaled to the output's
/// size, scored with 16 threads.
pub open spec fn vmaf_filter_spec(w: i64, h: i64) -> Seq<char> {
    "[0:v]setpts=PTS-STARTPTS[d];[1:v]scale="@ + int_dec(w as int) + ":"@ + int_dec(h as int)
        + ":flags=bicubic,setpts=PTS-STARTPTS[r];[d][r]libvmaf=n_threads=16"@
}

/// ffmpeg arguments of a VMAF run: `sample_ms` of the output from its start against the
/// same length of the source from `ref_start_ms` (negative read as 0), discarding frames.
pub open spec fn vmaf_args_spec(distorted: Seq<char>, reference: Seq<char>, ref_start_ms: i64, sample_ms: nat, w: i64, h: i64) -> Seq<Seq<char>> {
    let rs: nat = if ref_start_ms < 0 { 0 } else { ref_start_ms as nat };
    seq!["-hide_banner"@, "-ss"@, "0"@, "-t"@, fixed3(sample_ms), "-i"@, distorted, "-ss"@, fixed3(rs), "-t"@,
        fixed3(sample_ms), "-i"@, reference, "-lavfi"@, vmaf_filter_spec(w, h), "-f"@, "null"@, "-"@]
}

/// The sample length of a VMAF run: the asked length when positive, else 20 s.
pub open spec fn vmaf_sample_spec(seconds_ms: i64) -> nat {
    if seconds_ms > 0 { seconds_ms as nat } else { 20000 }
}

/// The ffmpeg arguments of a VMAF run.
pub fn vmaf_args(distorted: &str, reference: &str, ref_start_ms: i64, seconds_ms: i64, w: i64, h: i64) -> (r: Vec<String>)
    ensures
        strs(r@) == vmaf_args_spec(distorted@, reference@, ref_start_ms, vmaf_sample_spec(seconds_ms), w, h),
{
    let sample: u64 = if seconds_ms > 0 { seconds_ms as u64 } else { 20000 };
    let rs: u64 = if ref_start_ms < 0 { 0 } else { ref_start_ms as u64 };
    let mut f = owned("[0:v]setpts=PTS-STARTPTS[d];[1:v]scale=");
    let ws = i64_text(w);
    push_str(&mut f, ws.as_str());
    push_str(&mut f, ":");
    let hs = i64_text(h);
    push_str(&mut f, hs.as_str());
    push_str(&mut f, ":flags=bicubic,setpts=PTS-STARTPTS[r];[d][r]libvmaf=n_threads=16");
    assert(f@ =~= vmaf_filter_spec(w, h));
    let mut a: Vec<String> = Vec::new();
    push_lit(&mut a, "-hide_banner");
    push_lit(&mut a, "-ss");
    push_lit(&mut a, "0");
    push_lit(&mut a, "-t");
    push_string(&mut a, fixed3_text(sample));
    push_lit(&mut a, "-i");
    push_lit(&mut a, distorted);
    push_lit(&mut a, "-ss");
    push_string(&mut a, fixed3_text(rs));
    push_lit(&mut a, "-t");
    push_string(&mut a, fixed3_text(sample));
    push_lit(&mut a, "-i");
    push_lit(&mut a, reference);
    push_lit(&mut a, "-lavfi");
    push_string(&mut a, f);
    push_lit(&mut a, "-f");
    push_lit(&mut a, "null");
    push_lit(&mut a, "-");
    assert(strs(a@) =~= vmaf_args_spec(distorted@, reference@, ref_start_ms, vmaf_sample_spec(seconds_ms), w, h));
    a
}

/// The texts that may hold the VMAF score, in line order: for each line with a
/// "VMAF score:", what follows it (up to a next one), trimmed.
pub open spec fn score_texts(ls: Seq<Seq<char>>) -> Seq<Seq<char>>
    decreases ls.len(),
{
    if ls.len() == 0 {
        Seq::empty()
    } else {
        let prev = score_texts(ls.drop_last());
        match second_part(ls.last(), "VMAF score:"@) {
            Some(x) => prev.push(trim(x)),
            None => prev,
        }
    }
}

/// The candidate score texts in ffmpeg's log.
pub fn vmaf_score_texts(log: &str) -> (r: Vec<String>)
    ensures
        strs(r@) == score_texts(lines(log@)),
{
    proof {
        reveal_strlit("VMAF score:");
    }
    let ls = lines_of(log);
    let ghost l = strs(ls@);
    let mut out: Vec<String> = Vec::new();
    let mut i: usize = 0;
    while i < ls.len()
        invariant
            l == strs(ls@),
            l == lines(log@),
            i <= ls@.len(),
            strs(out@) == score_texts(l.take(i as int)),
        decreases ls@.len() - i,
    {
        proof {
            reveal_strlit("VMAF score:");
        }
        assert(l.take(i + 1).drop_last() =~= l.take(i as int));
        assert(l.take(i + 1).last() == ls@[i as int]@);
        let (_, second) = parts_of(ls[i].as_str(), "VMAF score:");
        match second {
            Some(x) => {
                push_string(&mut out, trimmed(x.as_str()));
            },
            None => {},
        }
        i = i + 1;
    }
    assert(l.take(i as int) =~= l);
    out
}

/// A line of ffmpeg's `-progress` output.
pub enum ProgressLine {
    /// `out_time_us=`: the microseconds written so far (text, trimmed)
    OutTime(String),
    /// `speed=`: the encoding speed (trimmed)
    Speed(String),
    /// `fps=`: frames per second (trimmed)
    Fps(String),
    Other,
}

/// What a progress line reports.
pub open spec fn progress_line_spec(line: Seq<char>) -> (int, Seq<char>) {
    if starts_with(line, "out_time_us="@) {
        (0, trim(line.skip("out_time_us="@.len() as int)))
    } else if starts_with(line, "speed="@) {
        (1, trim(line.skip("speed="@.len() as int)))
    } else if starts_with(line, "fps="@) {
        (2, trim(line.skip("fps="@.len() as int)))
    } else {
        (3, Seq::empty())
    }
}

/// The kind and value of a progress line.
pub open spec fn progress_view(p: ProgressLine) -> (int, Seq<char>) {
    match p {
        ProgressLine::OutTime(t) => (0, t@),
        ProgressLine::Speed(t) => (1, t@),
        ProgressLine::Fps(t) => (2, t@),
        ProgressLine::Other => (3, Seq::empty()),
    }
}

fn value_after(line: &str, n: usize) -> (r: String)
    requires
        n <= line@.len(),
    ensures
        r@ == trim(line@.skip(n as int)),
{
    let v = chars_of(line);
    let t = string_of(&v, n, v.len());
    assert(t@ =~= line@.skip(n as int));
    trimmed(t.as_str())
}

/// Reads one line of ffmpeg's progress stream.
pub fn progress_line(line: &str) -> (r: ProgressLine)
    ensures
        progress_view(r) == progress_line_spec(line@),
{
    let p1 = chars_of("out_time_us=");
    let p2 = chars_of("speed=");
    let p3 = chars_of("fps=");
    if str_starts_with(line, "out_time_us=") {
        ProgressLine::OutTime(value_after(line, p1.len()))
    } else if str_starts_with(line, "speed=") {
        ProgressLine::Speed(value_after(line, p2.len()))
    } else if str_starts_with(line, "fps=") {
        ProgressLine::Fps(value_after(line, p3.len()))
    } else {
        ProgressLine::Other
    }
}

/// The last line of `ls` with something besides whitespace.
pub open spec fn last_nonblank(ls: Seq<Seq<char>>) -> Option<Seq<char>>
    decreases ls.len(),
{
    if ls.len() == 0 {
        None
    } else if trim(ls.last()).len() != 0 {
        Some(ls.last())
    } else {
        last_nonblank(ls.drop_last())
    }
}

/// The message of a failed run: the last non-blank line of its error output, else `fallback`.
pub open spec fn failure_message_spec(log: Seq<char>, fallback: Seq<char>) -> Seq<char> {
    match last_nonblank(lines(log)) {
        Some(l) => l,
        None => fallback,
    }
}

/// The message of a failed ffmpeg, ffprobe or yt-dlp run.
pub fn failure_message(log: &str, fallback: &str) -> (r: String)
    ensures
        r@ == failure_message_spec(log@, fallback@),
{
    let ls = lines_of(log);
    let ghost l = strs(ls@);
    let mut i: usize = ls.len();
    assert(l.take(i as int) =~= l);
    while i > 0
        invariant
            l == strs(ls@),
            l == lines(log@),
            i <= ls@.len(),
            last_nonblank(l) == last_nonblank(l.take(i as int)),
        decreases i,
    {
        let t = trimmed(ls[i - 1].as_str());
        assert(l.take(i as int).last() == ls@[i - 1]@);
        assert(l.take(i as int).drop_last() =~= l.take(i - 1));
        if !t.as_str().is_empty() {
            return ls[i - 1].clone();
        }
        i = i - 1;
    }
    owned(fallback)
}


/// ffprobe arguments that describe a file's container and streams as JSON.
pub open spec fn probe_args_spec(path: Seq<char>) -> Seq<Seq<char>> {
    seq!["-v"@, "error"@, "-print_format"@, "json"@, "-show_format"@, "-show_streams"@, path]
}

/// The ffprobe arguments of a media probe.
pub fn probe_args(path: &str) -> (r: Vec<String>)
    ensures
        strs(r@) == probe_args_spec(path@),
{
    let mut a: Vec<String> = Vec::new();
    push_lit(&mut a, "-v");
    push_lit(&mut a, "error");
    push_lit(&mut a, "-print_format");
    push_lit(&mut a, "json");
    push_lit(&mut a, "-show_format");
    push_lit(&mut a, "-show_streams");
    push_lit(&mut a, path);
    assert(strs(a@) =~= probe_args_spec(path@));
    a
}

/// One stream as ffprobe describes it, as far as the probe reads it.
pub struct StreamInfo {
    pub codec_type: Option<String>,
    pub codec_name: Option<String>,
    pub width: Option<u64>,
    pub height: Option<u64>,
    pub avg_frame_rate: Option<String>,
    pub r_frame_rate: Option<String>,
}

/// What the probe keeps of the streams: the first video stream's size, codec and frame
/// rate text, and the first audio stream's codec.
pub struct StreamSummary {
    pub has_video: bool,
    pub width: u32,
    pub height: u32,
    pub vcodec: String,
    /// e.g. "30000/1001"; read as a number by the caller
    pub fps_text: String,
    pub has_audio: bool,
    pub acodec: String,
}

pub struct SummaryView {
    pub has_video: bool,
    pub width: u32,
    pub height: u32,
    pub vcodec: Seq<char>,
    pub fps_text: Seq<char>,
    pub has_audio: bool,
    pub acodec: Seq<char>,
}

impl View for StreamSummary {
    type V = SummaryView;

    open spec fn view(&self) -> SummaryView {
        SummaryView {
            has_video: self.has_video,
            width: self.width,
            height: self.height,
            vcodec: self.vcodec@,
            fps_text: self.fps_text@,
            has_audio: self.has_audio,
            acodec: self.acodec@,
        }
    }
}

/// The text of an optional string, "" when absent.
pub open spec fn text_or_empty(o: Option<String>) -> Seq<char> {
    match o {
        Some(x) => x@,
        None => Seq::empty(),
    }
}

/// The frame rate of a video stream: the average rate unless unknown ("0/0"), else the
/// base rate, else "0/1".
pub open spec fn frame_rate_text(st: StreamInfo) -> Seq<char> {
    match st.avg_frame_rate {
        Some(a) => if a@ != "0/0"@ {
            a@
        } else {
            match st.r_frame_rate { Some(r) => r@, None => "0/1"@ }
        },
        None => match st.r_frame_rate { Some(r) => r@, None => "0/1"@ },
    }
}

/// Nothing found yet.
pub open spec fn empty_summary() -> SummaryView {
    SummaryView { has_video: false, width: 0, height: 0, vcodec: Seq::empty(), fps_text: Seq::empty(), has_audio: false, acodec: Seq::empty() }
}

/// The summary of `ss`: streams are read in order; the first video stream fills the video
/// fields (a missing size reads 0, cut to 32 bits), the first audio stream the audio codec.
pub open spec fn summary_spec(ss: Seq<StreamInfo>) -> SummaryView
    decreases ss.len(),
{
    if ss.len() == 0 {
        empty_summary()
    } else {
        let acc = summary_spec(ss.drop_last());
        let st = ss.last();
        let kind = text_or_empty(st.codec_type);
        if st.codec_type is Some && kind == "video"@ && !acc.has_video {
            SummaryView {
                has_video: true,
                width: (match st.width { Some(w) => w, None => 0 }) as u32,
                height: (match st.height { Some(h) => h, None => 0 }) as u32,
                vcodec: text_or_empty(st.codec_name),
                fps_text: frame_rate_text(st),
                ..acc
            }
        } else if st.codec_type is Some && kind == "audio"@ && !acc.has_audio {
            SummaryView { has_audio: true, acodec: text_or_empty(st.codec_name), ..acc }
        } else {
            acc
        }
    }
}

fn text_of(o: &Option<String>) -> (r: String)
    ensures
        r@ == text_or_empty(*o),
{
    match o {
        Some(x) => x.clone(),
        None => String::new(),
    }
}

fn frame_rate_of(st: &StreamInfo) -> (r: String)
    ensures
        r@ == frame_rate_text(*st),
{
    let fallback = match &st.r_frame_rate {
        Some(r) => r.clone(),
        None => owned("0/1"),
    };
    match &st.avg_frame_rate {
        Some(a) => if !str_eq(a.as_str(), "0/0") { a.clone() } else { fallback },
        None => fallback,
    }
}

/// Picks the first video and the first audio stream out of a probe.
pub fn summarize_streams(ss: &Vec<StreamInfo>) -> (r: StreamSummary)
    ensures
        r@ == summary_spec(ss@),
{
    let mut acc = StreamSummary {
        has_video: false,
        width: 0,
        height: 0,
        vcodec: String::new(),
        fps_text: String::new(),
        has_audio: false,
        acodec: String::new(),
    };
    let mut i: usize = 0;
    while i < ss.len()
        invariant
            i <= ss@.len(),
            acc@ == summary_spec(ss@.take(i as int)),
        decreases ss@.len() - i,
    {
        assert(ss@.take(i + 1).drop_last() =~= ss@.take(i as int));
        assert(ss@.take(i + 1).last() == ss@[i as int]);
        let st = &ss[i];
        let kind = text_of(&st.codec_type);
        let known = st.codec_type.is_some();
        if known && str_eq(kind.as_str(), "video") && !acc.has_video {
            acc.has_video = true;
            let w: u64 = match st.width { Some(w) => w, None => 0 };
            let h: u64 = match st.height { Some(h) => h, None => 0 };
            acc.width = w as u32;
            acc.height = h as u32;
            acc.vcodec = text_of(&st.codec_name);
            acc.fps_text = frame_rate_of(st);
        } else if known && str_eq(kind.as_str(), "audio") && !acc.has_audio {
            acc.has_audio = true;
            acc.acodec = text_of(&st.codec_name);
        }
        i = i + 1;
    }
    assert(ss@.take(i as int) =~= ss@);
    acc
}

/// The last `n` characters of `s` (all of it when shorter): the tail of a long error log.
pub open spec fn tail_spec(s: Seq<char>, n: nat) -> Seq<char> {
    if s.len() <= n { s } else { s.skip(s.len() - n) }
}

/// The last `n` characters of `s`.
pub fn tail_chars(s: &str, n: usize) -> (r: String)
    ensures
        r@ == tail_spec(s@, n as nat),
{
    let v = chars_of(s);
    let len = v.len();
    if len <= n {
        let r = string_of(&v, 0, len);
        assert(r@ =~= s@);
        r
    } else {
        let r = string_of(&v, len - n, len);
        assert(r@ =~= s@.skip(len - n));
        r
    }
}


/// Whether `gif_estimate` may be asked for these values (the estimate fits in a `u64`).
pub fn gif_estimate_fits(sample_bytes: u64, duration_ms: i64) -> (r: bool)
    ensures
        r == (gif_estimate_spec(sample_bytes, duration_ms) <= u64::MAX),
{
    let (full, sample) = gif_estimate_lengths(duration_ms);
    let per: u64 = if sample_bytes > 1024 { sample_bytes - 1024 } else { 0 };
    let s = gif_scaled_of(per, full, sample);
    s < (u64::MAX - 1024) as u128 + 1
}

} // verus!
