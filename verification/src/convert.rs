//! The ffmpeg command lines of a conversion: input and trim arguments, container and
//! codec choices, quality or target-size rate control, and GIF palettes.
use vstd::prelude::*;
use crate::encoder::{
    hw_bitrate_args, hw_bitrate_args_spec, hw_quality_args, hw_quality_args_spec, kbps, kbps_text,
    EncView, Vendor, VideoEnc,
};
use crate::num::{
    all_digits, dec, digits_value, fixed3, fixed3_text, i64_text, int_dec, milli_text, milli_text_of, parse_i32,
    parse_i32_spec, u64_text,
};
use crate::text::{extend_strings, owned, push_lit, push_str, push_string, str_eq, strs};

verus! {

/// What the user asked of one conversion. Times are in milliseconds, the target size
/// in KiB (MB x 1024), frame rates in thousandths of a frame per second.
pub struct ConvertOpts {
    pub input: String,
    pub output: String,
    /// "video" | "audio" | "gif"
    pub mode: String,
    /// "source" | "2160" | "1440" | "1080" | "720" | "480" | "360"
    pub resolution: String,
    /// "mp4_h264" | "mp4_h265" | "mp4_av1" | "webm" | "mkv"
    pub format: String,
    /// "high" | "balanced" | "small"
    pub quality: String,
    pub target_size_kib: Option<i64>,
    pub trim_start_ms: Option<i64>,
    pub trim_end_ms: Option<i64>,
    pub fps_milli: Option<i64>,
    /// "mp3" | "m4a" | "wav"
    pub audio_format: String,
    /// 1..5: palette colours and dithering of a GIF (0 picks the middle)
    pub gif_quality: i64,
    /// Length of the output after trimming, for the progress bar and the bitrate.
    pub total_duration_ms: i64,
    /// No per-file notification (batch jobs).
    pub silent: bool,
    /// On success, send the original to the recycle bin.
    pub delete_original: bool,
}

/// Container and codec settings of an output format.
pub struct Codec {
    pub venc: &'static str,
    pub aenc: &'static str,
    /// force yuv420p
    pub pix: bool,
    pub faststart: bool,
    pub pass_fmt: &'static str,
    pub extra: Vec<&'static str>,
}

pub struct CodecView {
    pub venc: Seq<char>,
    pub aenc: Seq<char>,
    pub pix: bool,
    pub faststart: bool,
    pub pass_fmt: Seq<char>,
    pub extra: Seq<Seq<char>>,
}

impl View for Codec {
    type V = CodecView;

    open spec fn view(&self) -> CodecView {
        CodecView {
            venc: self.venc@,
            aenc: self.aenc@,
            pix: self.pix,
            faststart: self.faststart,
            pass_fmt: self.pass_fmt@,
            extra: self.extra@.map_values(|s: &'static str| s@),
        }
    }
}

/// The codec settings per output format: H.265 in MP4 (tagged hvc1), AV1 in MP4, VP9 with
/// Opus in WebM (row multithreading at a practical speed), H.265 in Matroska, else H.264 in MP4.
pub open spec fn codec_spec(format: Seq<char>) -> CodecView {
    if format == "mp4_h265"@ {
        CodecView { venc: "libx265"@, aenc: "aac"@, pix: true, faststart: true, pass_fmt: "mp4"@,
            extra: seq!["-tag:v"@, "hvc1"@] }
    } else if format == "mp4_av1"@ {
        CodecView { venc: "libsvtav1"@, aenc: "aac"@, pix: true, faststart: true, pass_fmt: "mp4"@,
            extra: Seq::empty() }
    } else if format == "webm"@ {
        CodecView { venc: "libvpx-vp9"@, aenc: "libopus"@, pix: false, faststart: false, pass_fmt: "webm"@,
            extra: seq!["-row-mt"@, "1"@, "-deadline"@, "good"@, "-cpu-used"@, "4"@] }
    } else if format == "mkv"@ {
        CodecView { venc: "libx265"@, aenc: "aac"@, pix: true, faststart: false, pass_fmt: "matroska"@,
            extra: Seq::empty() }
    } else {
        CodecView { venc: "libx264"@, aenc: "aac"@, pix: true, faststart: true, pass_fmt: "mp4"@,
            extra: Seq::empty() }
    }
}

/// The codec settings of an output format.
pub fn codec_for(format: &str) -> (c: Codec)
    ensures
        c@ == codec_spec(format@),
{
    let c = if str_eq(format, "mp4_h265") {
        Codec { venc: "libx265", aenc: "aac", pix: true, faststart: true, pass_fmt: "mp4",
            extra: vec!["-tag:v", "hvc1"] }
    } else if str_eq(format, "mp4_av1") {
        Codec { venc: "libsvtav1", aenc: "aac", pix: true, faststart: true, pass_fmt: "mp4",
            extra: Vec::new() }
    } else if str_eq(format, "webm") {
        Codec { venc: "libvpx-vp9", aenc: "libopus", pix: false, faststart: false, pass_fmt: "webm",
            extra: vec!["-row-mt", "1", "-deadline", "good", "-cpu-used", "4"] }
    } else if str_eq(format, "mkv") {
        Codec { venc: "libx265", aenc: "aac", pix: true, faststart: false, pass_fmt: "matroska",
            extra: Vec::new() }
    } else {
        Codec { venc: "libx264", aenc: "aac", pix: true, faststart: true, pass_fmt: "mp4",
            extra: Vec::new() }
    };
    assert(c@.extra =~= codec_spec(format@).extra);
    c
}

/// The CRF of a CPU quality encode, per format and quality.
pub open spec fn crf_spec(format: Seq<char>, quality: Seq<char>) -> Seq<char> {
    if format == "webm"@ {
        if quality == "high"@ { "24"@ } else if quality == "small"@ { "37"@ } else { "31"@ }
    } else if format == "mp4_h265"@ {
        if quality == "high"@ { "21"@ } else if quality == "small"@ { "30"@ } else { "26"@ }
    } else if format == "mp4_av1"@ {
        if quality == "high"@ { "28"@ } else if quality == "small"@ { "45"@ } else { "35"@ }
    } else {
        if quality == "high"@ { "18"@ } else if quality == "small"@ { "27"@ } else { "22"@ }
    }
}

/// The CRF for a format and quality.
pub fn crf_for(format: &str, quality: &str) -> (r: &'static str)
    ensures
        r@ == crf_spec(format@, quality@),
{
    let high = str_eq(quality, "high");
    let small = str_eq(quality, "small");
    if str_eq(format, "webm") {
        if high { "24" } else if small { "37" } else { "31" }
    } else if str_eq(format, "mp4_h265") {
        if high { "21" } else if small { "30" } else { "26" }
    } else if str_eq(format, "mp4_av1") {
        if high { "28" } else if small { "45" } else { "35" }
    } else {
        if high { "18" } else if small { "27" } else { "22" }
    }
}

/// The `-t` length of a trim: end minus start when both are set and the end is later,
/// the end alone when only it is set and positive, else none.
pub open spec fn trim_length(start: Option<i64>, end: Option<i64>) -> Option<nat> {
    match (start, end) {
        (Some(s), Some(e)) => if e > s { Some((e - s) as nat) } else { None },
        (None, Some(e)) => if e > 0 { Some(e as nat) } else { None },
        _ => None,
    }
}

/// Input-side arguments: overwrite, quiet banner, no stdin, optional CUDA decoding,
/// the trim start (`-ss`, when positive), the input, and the trim length (`-t`).
pub open spec fn input_args_spec(o: ConvertOpts, gpu_decode: bool) -> Seq<Seq<char>> {
    seq!["-y"@, "-hide_banner"@, "-nostdin"@]
    + (if gpu_decode { seq!["-hwaccel"@, "cuda"@, "-hwaccel_output_format"@, "cuda"@] } else { Seq::empty() })
    + (match o.trim_start_ms { Some(s) => if s > 0 { seq!["-ss"@, fixed3(s as nat)] } else { Seq::empty() }, None => Seq::empty() })
    + seq!["-i"@, o.input@]
    + (match trim_length(o.trim_start_ms, o.trim_end_ms) { Some(t) => seq!["-t"@, fixed3(t)], None => Seq::empty() })
}

/// The input-side arguments of a pass.
pub fn input_args(o: &ConvertOpts, gpu_decode: bool) -> (r: Vec<String>)
    ensures
        strs(r@) == input_args_spec(*o, gpu_decode),
{
    let mut a: Vec<String> = Vec::new();
    push_lit(&mut a, "-y");
    push_lit(&mut a, "-hide_banner");
    push_lit(&mut a, "-nostdin");
    let ghost s1 = strs(a@);
    if gpu_decode {
        push_lit(&mut a, "-hwaccel");
        push_lit(&mut a, "cuda");
        push_lit(&mut a, "-hwaccel_output_format");
        push_lit(&mut a, "cuda");
    }
    let ghost s2 = strs(a@);
    assert(s2 =~= seq!["-y"@, "-hide_banner"@, "-nostdin"@]
        + (if gpu_decode { seq!["-hwaccel"@, "cuda"@, "-hwaccel_output_format"@, "cuda"@] } else { Seq::empty() }));
    match o.trim_start_ms {
        Some(s) => {
            if s > 0 {
                push_lit(&mut a, "-ss");
                push_string(&mut a, fixed3_text(s as u64));
            }
        },
        None => {},
    }
    let ghost s3 = strs(a@);
    assert(s3 =~= s2 + (match o.trim_start_ms { Some(s) => if s > 0 { seq!["-ss"@, fixed3(s as nat)] } else { Seq::empty() }, None => Seq::empty() }));
    push_lit(&mut a, "-i");
    push_string(&mut a, o.input.clone());
    let ghost s4 = strs(a@);
    assert(s4 =~= s3 + seq!["-i"@, o.input@]);
    match (o.trim_start_ms, o.trim_end_ms) {
        (Some(s), Some(e)) => {
            if e > s {
                let t: u64 = ((e as i128) - (s as i128)) as u64;
                push_lit(&mut a, "-t");
                push_string(&mut a, fixed3_text(t));
            }
        },
        (None, Some(e)) => {
            if e > 0 {
                push_lit(&mut a, "-t");
                push_string(&mut a, fixed3_text(e as u64));
            }
        },
        _ => {},
    }
    assert(strs(a@) =~= s4 + (match trim_length(o.trim_start_ms, o.trim_end_ms) { Some(t) => seq!["-t"@, fixed3(t)], None => Seq::empty() }));
    a
}

/// `<name>=-2:<res>` (keep the aspect, even width), or nothing for "source" or "".
pub open spec fn scale_filter_spec(res: Seq<char>, name: Seq<char>) -> Option<Seq<char>> {
    if res.len() == 0 || res == "source"@ {
        None
    } else {
        Some(name + "=-2:"@ + res)
    }
}

/// The CPU scale filter for a resolution.
pub fn scale_filter(res: &str) -> (r: Option<String>)
    ensures
        r matches Some(f) ==> scale_filter_spec(res@, "scale"@) == Some(f@),
        r is None ==> scale_filter_spec(res@, "scale"@) is None,
{
    scale_filter_named(res, "scale")
}

/// A scale filter of the given name for a resolution.
pub fn scale_filter_named(res: &str, name: &str) -> (r: Option<String>)
    ensures
        r matches Some(f) ==> scale_filter_spec(res@, name@) == Some(f@),
        r is None ==> scale_filter_spec(res@, name@) is None,
{
    if res.is_empty() || str_eq(res, "source") {
        None
    } else {
        let mut s = owned(name);
        push_str(&mut s, "=-2:");
        push_str(&mut s, res);
        Some(s)
    }
}

/// `-vf <filter>` when there is a filter.
pub open spec fn vf_part(f: Option<Seq<char>>) -> Seq<Seq<char>> {
    match f {
        Some(x) => seq!["-vf"@, x],
        None => Seq::empty(),
    }
}

fn push_vf(a: &mut Vec<String>, f: &Option<String>)
    ensures
        strs(final(a)@) == strs(old(a)@) + vf_part(opt_view(*f)),
{
    match f {
        Some(x) => {
            push_lit(a, "-vf");
            push_string(a, x.clone());
        },
        None => {},
    }
    assert(strs(a@) =~= strs(old(a)@) + vf_part(opt_view(*f)));
}

/// The GIF palette size and dithering for a quality: 0 means 3, else clamped to 1..5.
pub open spec fn gif_level(quality: i64) -> int {
    if quality == 0 { 3 } else if quality < 1 { 1 } else if quality > 5 { 5 } else { quality as int }
}

pub open spec fn gif_colors(q: int) -> nat {
    if q == 1 { 64 } else if q == 2 { 128 } else if q == 3 { 192 } else { 256 }
}

pub open spec fn gif_dither(q: int) -> Seq<char> {
    if q == 1 {
        "none"@
    } else if q == 2 {
        "bayer:bayer_scale=4"@
    } else if q == 3 {
        "bayer:bayer_scale=3"@
    } else if q == 4 {
        "bayer:bayer_scale=2"@
    } else {
        "sierra2_4a"@
    }
}

/// GIF filtergraph: frame rate, scale to height `h`, then a generated palette of the
/// level's size applied with the level's dithering.
pub open spec fn gif_vf_spec(fps_milli: nat, h: int, quality: i64) -> Seq<char> {
    let q = gif_level(quality);
    "fps="@ + milli_text(fps_milli) + ",scale=-2:"@ + int_dec(h)
        + ":flags=lanczos,split[a][b];[a]palettegen=max_colors="@ + dec(gif_colors(q))
        + ":stats_mode=diff[p];[b][p]paletteuse=dither="@ + gif_dither(q)
}

/// GIF filtergraph. Quality 1..5 trades palette colours and dithering for file size.
pub fn gif_vf(fps_milli: u64, h: i32, quality: i64) -> (r: String)
    ensures
        r@ == gif_vf_spec(fps_milli as nat, h as int, quality),
{
    let q: i64 = if quality == 0 { 3 } else if quality < 1 { 1 } else if quality > 5 { 5 } else { quality };
    let colors: u64 = if q == 1 { 64 } else if q == 2 { 128 } else if q == 3 { 192 } else { 256 };
    let dither: &str = if q == 1 {
        "none"
    } else if q == 2 {
        "bayer:bayer_scale=4"
    } else if q == 3 {
        "bayer:bayer_scale=3"
    } else if q == 4 {
        "bayer:bayer_scale=2"
    } else {
        "sierra2_4a"
    };
    let mut s = owned("fps=");
    let t = milli_text_of(fps_milli);
    push_str(&mut s, t.as_str());
    push_str(&mut s, ",scale=-2:");
    let hs = i64_text(h as i64);
    push_str(&mut s, hs.as_str());
    push_str(&mut s, ":flags=lanczos,split[a][b];[a]palettegen=max_colors=");
    let cs = u64_text(colors);
    push_str(&mut s, cs.as_str());
    push_str(&mut s, ":stats_mode=diff[p];[b][p]paletteuse=dither=");
    push_str(&mut s, dither);
    assert(s@ =~= gif_vf_spec(fps_milli as nat, h as int, quality));
    s
}

/// The GIF height for a resolution choice: 360 for "source" or "", else the number
/// (360 when it does not parse), at most 480.
pub open spec fn gif_height_spec(res: Seq<char>) -> int {
    if res == "source"@ || res.len() == 0 {
        360
    } else {
        let h: int = match parse_i32_spec(res) { Some(v) => v as int, None => 360 };
        if h < 480 { h } else { 480 }
    }
}

/// The GIF height for a resolution choice.
pub fn gif_height(res: &str) -> (r: i32)
    ensures
        r as int == gif_height_spec(res@),
{
    if str_eq(res, "source") || res.is_empty() {
        360
    } else {
        let h = match parse_i32(res) { Some(v) => v, None => 360 };
        if h < 480 { h } else { 480 }
    }
}


/// `-progress pipe:1 -nostats`: machine-readable progress on stdout.
pub open spec fn progress_spec() -> Seq<Seq<char>> {
    seq!["-progress"@, "pipe:1"@, "-nostats"@]
}

fn push_progress(a: &mut Vec<String>)
    ensures
        strs(final(a)@) == strs(old(a)@) + progress_spec(),
{
    push_lit(a, "-progress");
    push_lit(a, "pipe:1");
    push_lit(a, "-nostats");
    assert(strs(a@) =~= strs(old(a)@) + progress_spec());
}

/// The audio codec of an audio extraction: PCM for "wav", AAC for "m4a", else MP3.
pub open spec fn audio_codec_spec(af: Seq<char>) -> Seq<Seq<char>> {
    if af == "wav"@ {
        seq!["-c:a"@, "pcm_s16le"@]
    } else if af == "m4a"@ {
        seq!["-c:a"@, "aac"@, "-b:a"@, "192k"@]
    } else {
        seq!["-c:a"@, "libmp3lame"@, "-b:a"@, "192k"@]
    }
}

/// `-pix_fmt yuv420p` when asked for.
pub open spec fn pix_part(b: bool) -> Seq<Seq<char>> {
    if b { seq!["-pix_fmt"@, "yuv420p"@] } else { Seq::empty() }
}

/// `-movflags +faststart` when asked for.
pub open spec fn faststart_part(b: bool) -> Seq<Seq<char>> {
    if b { seq!["-movflags"@, "+faststart"@] } else { Seq::empty() }
}

/// The audio bitrate that a target-size encode reserves: 96 kb/s for Opus, else 128.
pub open spec fn target_audio_kbps(c: CodecView) -> int {
    if c.aenc == "libopus"@ { 96 } else { 128 }
}

/// The video bitrate (kb/s) that fits `kib` KiB into `dur_ms` milliseconds (at least 100)
/// next to `audio` kb/s of sound: (size x 8 / seconds) - audio, at least 80, rounded half up.
pub open spec fn video_kbps(kib: int, dur_ms: int, audio: int) -> int {
    let d = if dur_ms < 100 { 100 } else { dur_ms };
    let num = kib * 8000 - audio * d;
    if num < 80 * d { 80 } else { (2 * num + d) / (2 * d) }
}

/// The target-size video bitrate as an `i64` (saturating, as a float-to-int cast does).
pub open spec fn target_vk(o: ConvertOpts, kib: i64) -> int {
    let c = codec_spec(o.format@);
    let v = video_kbps(kib as int, o.total_duration_ms as int, target_audio_kbps(c));
    if v > i64::MAX { i64::MAX as int } else { v }
}

/// The mode of a conversion: "audio", "gif", or anything else for video.
pub open spec fn is_audio(o: ConvertOpts) -> bool {
    o.mode@ == "audio"@
}

pub open spec fn is_gif(o: ConvertOpts) -> bool {
    o.mode@ == "gif"@
}

/// The single pass of an audio extraction.
pub open spec fn audio_pass(o: ConvertOpts) -> Seq<Seq<char>> {
    input_args_spec(o, false) + seq!["-vn"@] + audio_codec_spec(o.audio_format@) + progress_spec()
        + seq![o.output@]
}

/// The frame rate of a GIF: 15 fps unless set, clamped to 5..50.
pub open spec fn gif_fps(o: ConvertOpts) -> int {
    let f: int = match o.fps_milli { Some(f) => f as int, None => 15000 };
    if f < 5000 { 5000 } else if f > 50000 { 50000 } else { f }
}

/// The single pass of a GIF conversion.
pub open spec fn gif_pass(o: ConvertOpts) -> Seq<Seq<char>> {
    input_args_spec(o, false)
        + seq!["-vf"@, gif_vf_spec(gif_fps(o) as nat, gif_height_spec(o.resolution@), o.gif_quality), "-loop"@, "0"@, "-an"@]
        + progress_spec() + seq![o.output@]
}

/// Whether the encoder is a hardware one, and whether the whole pipeline stays on an
/// NVIDIA GPU (CUDA decoding, CUDA scaling, NVENC).
pub open spec fn uses_cuda(venc: EncView, gpu_decode: bool) -> bool {
    venc.vendor == Vendor::Nvenc && gpu_decode
}

/// The scale filter of a hardware pass: `scale_cuda` on the full-GPU pipeline.
pub open spec fn hw_scale(o: ConvertOpts, venc: EncView, gpu_decode: bool) -> Option<Seq<char>> {
    if uses_cuda(venc, gpu_decode) {
        scale_filter_spec(o.resolution@, "scale_cuda"@)
    } else {
        scale_filter_spec(o.resolution@, "scale"@)
    }
}

/// Single-pass hardware VBR to the target bitrate.
pub open spec fn hw_target_pass(o: ConvertOpts, venc: EncView, gpu_decode: bool, vk: int) -> Seq<Seq<char>> {
    let c = codec_spec(o.format@);
    let cuda = uses_cuda(venc, gpu_decode);
    input_args_spec(o, cuda) + vf_part(hw_scale(o, venc, gpu_decode)) + hw_bitrate_args_spec(venc, vk)
        + c.extra + pix_part(!cuda) + seq!["-c:a"@, c.aenc, "-b:a"@, kbps_text(target_audio_kbps(c))]
        + faststart_part(c.faststart) + progress_spec() + seq![o.output@]
}

/// Single-pass CPU AV1 to the target bitrate (two-pass SVT-AV1 is finicky).
pub open spec fn svt_target_pass(o: ConvertOpts, vk: int) -> Seq<Seq<char>> {
    let c = codec_spec(o.format@);
    input_args_spec(o, false) + vf_part(scale_filter_spec(o.resolution@, "scale"@))
        + seq!["-c:v"@, "libsvtav1"@, "-preset"@, "8"@, "-b:v"@, kbps_text(vk), "-pix_fmt"@, "yuv420p"@, "-c:a"@, c.aenc,
            "-b:a"@, kbps_text(target_audio_kbps(c)), "-movflags"@, "+faststart"@]
        + progress_spec() + seq![o.output@]
}

/// First of two CPU passes: analysis only, written to the null device.
pub open spec fn first_pass(o: ConvertOpts, vk: int, log: Seq<char>) -> Seq<Seq<char>> {
    let c = codec_spec(o.format@);
    input_args_spec(o, false) + vf_part(scale_filter_spec(o.resolution@, "scale"@))
        + seq!["-c:v"@, c.venc, "-b:v"@, kbps_text(vk)] + c.extra
        + seq!["-pass"@, "1"@, "-passlogfile"@, log, "-an"@, "-f"@, c.pass_fmt]
        + progress_spec() + seq!["NUL"@]
}

/// Second of two CPU passes: the real encode, with sound, to the output.
pub open spec fn second_pass(o: ConvertOpts, vk: int, log: Seq<char>) -> Seq<Seq<char>> {
    let c = codec_spec(o.format@);
    input_args_spec(o, false) + vf_part(scale_filter_spec(o.resolution@, "scale"@))
        + seq!["-c:v"@, c.venc, "-b:v"@, kbps_text(vk)] + pix_part(c.pix) + c.extra
        + seq!["-pass"@, "2"@, "-passlogfile"@, log, "-c:a"@, c.aenc, "-b:a"@, kbps_text(target_audio_kbps(c))]
        + faststart_part(c.faststart) + progress_spec() + seq![o.output@]
}

/// Hardware constant-quality encode.
pub open spec fn hw_quality_pass(o: ConvertOpts, venc: EncView, gpu_decode: bool) -> Seq<Seq<char>> {
    let c = codec_spec(o.format@);
    let cuda = uses_cuda(venc, gpu_decode);
    input_args_spec(o, cuda) + vf_part(hw_scale(o, venc, gpu_decode)) + hw_quality_args_spec(venc, o.quality@)
        + c.extra + pix_part(!cuda) + seq!["-c:a"@, c.aenc, "-b:a"@, "160k"@]
        + faststart_part(c.faststart) + progress_spec() + seq![o.output@]
}

/// The speed setting of a CPU quality encode: VP9 gets `-b:v 0` (pure CRF), SVT-AV1 preset 8,
/// the x264/x265 family preset medium.
pub open spec fn cpu_speed_part(c: CodecView, venc: EncView) -> Seq<Seq<char>> {
    if c.venc == "libvpx-vp9"@ {
        seq!["-b:v"@, "0"@]
    } else if venc.name == "libsvtav1"@ {
        seq!["-preset"@, "8"@]
    } else {
        seq!["-preset"@, "medium"@]
    }
}

/// CPU constant-quality (CRF) single pass.
pub open spec fn cpu_quality_pass(o: ConvertOpts, venc: EncView) -> Seq<Seq<char>> {
    let c = codec_spec(o.format@);
    input_args_spec(o, false) + vf_part(scale_filter_spec(o.resolution@, "scale"@)) + seq!["-c:v"@, c.venc]
        + cpu_speed_part(c, venc) + seq!["-crf"@, crf_spec(o.format@, o.quality@)] + pix_part(c.pix) + c.extra
        + seq!["-c:a"@, c.aenc, "-b:a"@, if c.aenc == "libopus"@ { "128k"@ } else { "160k"@ }]
        + faststart_part(c.faststart) + progress_spec() + seq![o.output@]
}

/// Every pass of a conversion, in order, each a full ffmpeg argument list. `log` is the
/// two-pass log file prefix.
pub open spec fn passes_spec(o: ConvertOpts, venc: EncView, gpu_decode: bool, log: Seq<char>) -> Seq<Seq<Seq<char>>> {
    if is_audio(o) {
        seq![audio_pass(o)]
    } else if is_gif(o) {
        seq![gif_pass(o)]
    } else {
        match o.target_size_kib {
            Some(kib) => {
                let vk = target_vk(o, kib);
                if venc.vendor != Vendor::Cpu {
                    seq![hw_target_pass(o, venc, gpu_decode, vk)]
                } else if venc.name == "libsvtav1"@ {
                    seq![svt_target_pass(o, vk)]
                } else {
                    seq![first_pass(o, vk, log), second_pass(o, vk, log)]
                }
            },
            None => {
                if venc.vendor != Vendor::Cpu {
                    seq![hw_quality_pass(o, venc, gpu_decode)]
                } else {
                    seq![cpu_quality_pass(o, venc)]
                }
            },
        }
    }
}

/// A hardware target-size encode has a bitrate whose double fits in an `i64`.
pub open spec fn bitrate_fits(o: ConvertOpts, venc: EncView) -> bool {
    !is_audio(o) && !is_gif(o) && venc.vendor != Vendor::Cpu && o.target_size_kib is Some
        ==> 2 * target_vk(o, o.target_size_kib->0) <= i64::MAX
}

/// The views of a list of passes.
pub open spec fn passes_view(v: Seq<Vec<String>>) -> Seq<Seq<Seq<char>>> {
    v.map_values(|p: Vec<String>| strs(p@))
}


fn push_extra(a: &mut Vec<String>, c: &Codec)
    ensures
        strs(final(a)@) == strs(old(a)@) + c@.extra,
{
    let mut i: usize = 0;
    while i < c.extra.len()
        invariant
            i <= c.extra@.len(),
            strs(a@) == strs(old(a)@) + c@.extra.take(i as int),
        decreases c.extra@.len() - i,
    {
        push_lit(a, c.extra[i]);
        assert(c@.extra.take(i + 1) =~= c@.extra.take(i as int).push(c.extra@[i as int]@));
        i = i + 1;
    }
    assert(c@.extra.take(i as int) =~= c@.extra);
}

fn push_pix(a: &mut Vec<String>, b: bool)
    ensures
        strs(final(a)@) == strs(old(a)@) + pix_part(b),
{
    if b {
        push_lit(a, "-pix_fmt");
        push_lit(a, "yuv420p");
    }
    assert(strs(a@) =~= strs(old(a)@) + pix_part(b));
}

fn push_faststart(a: &mut Vec<String>, b: bool)
    ensures
        strs(final(a)@) == strs(old(a)@) + faststart_part(b),
{
    if b {
        push_lit(a, "-movflags");
        push_lit(a, "+faststart");
    }
    assert(strs(a@) =~= strs(old(a)@) + faststart_part(b));
}

fn push_all(a: &mut Vec<String>, w: Vec<String>)
    ensures
        strs(final(a)@) == strs(old(a)@) + strs(w@),
{
    extend_strings(a, w);
}

/// The characters of an optional string.
pub open spec fn opt_view(f: Option<String>) -> Option<Seq<char>> {
    match f {
        Some(x) => Some(x@),
        None => None,
    }
}

fn audio_pass_args(o: &ConvertOpts) -> (a: Vec<String>)
    ensures
        strs(a@) == audio_pass(*o),
{
    let mut a = input_args(o, false);
    let ghost s0 = strs(a@);
    push_lit(&mut a, "-vn");
    if str_eq(o.audio_format.as_str(), "wav") {
        push_lit(&mut a, "-c:a");
        push_lit(&mut a, "pcm_s16le");
    } else if str_eq(o.audio_format.as_str(), "m4a") {
        push_lit(&mut a, "-c:a");
        push_lit(&mut a, "aac");
        push_lit(&mut a, "-b:a");
        push_lit(&mut a, "192k");
    } else {
        push_lit(&mut a, "-c:a");
        push_lit(&mut a, "libmp3lame");
        push_lit(&mut a, "-b:a");
        push_lit(&mut a, "192k");
    }
    let ghost s1 = strs(a@);
    assert(s1 =~= s0 + seq!["-vn"@] + audio_codec_spec(o.audio_format@));
    push_progress(&mut a);
    push_string(&mut a, o.output.clone());
    assert(strs(a@) =~= audio_pass(*o));
    a
}

fn gif_pass_args(o: &ConvertOpts) -> (a: Vec<String>)
    ensures
        strs(a@) == gif_pass(*o),
{
    let f: i64 = match o.fps_milli { Some(f) => f, None => 15000 };
    let fps: i64 = if f < 5000 { 5000 } else if f > 50000 { 50000 } else { f };
    let h = gif_height(o.resolution.as_str());
    let vf = gif_vf(fps as u64, h, o.gif_quality);
    let mut a = input_args(o, false);
    let ghost s0 = strs(a@);
    push_lit(&mut a, "-vf");
    push_string(&mut a, vf);
    push_lit(&mut a, "-loop");
    push_lit(&mut a, "0");
    push_lit(&mut a, "-an");
    let ghost s1 = strs(a@);
    assert(s1 =~= s0 + seq!["-vf"@, gif_vf_spec(gif_fps(*o) as nat, gif_height_spec(o.resolution@), o.gif_quality), "-loop"@, "0"@, "-an"@]);
    push_progress(&mut a);
    push_string(&mut a, o.output.clone());
    assert(strs(a@) =~= gif_pass(*o));
    a
}

/// The target-size video bitrate for `kib` KiB.
fn target_video_kbps(o: &ConvertOpts, kib: i64, audio: i64) -> (vk: i64)
    requires
        audio == target_audio_kbps(codec_spec(o.format@)),
    ensures
        vk == target_vk(*o, kib),
        vk >= 80,
{
    let d: i64 = if o.total_duration_ms < 100 { 100 } else { o.total_duration_ms };
    let num: i128 = (kib as i128) * 8000 - (audio as i128) * (d as i128);
    if num < 80 * (d as i128) {
        80
    } else {
        let v: i128 = (2 * num + (d as i128)) / (2 * (d as i128));
        assert(v >= 80) by (nonlinear_arith)
            requires
                num >= 80 * d,
                d >= 100,
                v == (2 * num + d) / (2 * d),
        {
            assert(2 * num + d >= 80 * (2 * d));
        }
        if v > i64::MAX as i128 { i64::MAX } else { v as i64 }
    }
}

fn hw_target_pass_args(o: &ConvertOpts, venc: &VideoEnc, gpu_decode: bool, c: &Codec, vk: i64, audio: i64) -> (a: Vec<String>)
    requires
        c@ == codec_spec(o.format@),
        audio == target_audio_kbps(c@),
        i64::MIN <= 2 * vk <= i64::MAX,
    ensures
        strs(a@) == hw_target_pass(*o, venc@, gpu_decode, vk as int),
{
    let cuda = venc.vendor == Vendor::Nvenc && gpu_decode;
    let vf = if cuda { scale_filter_named(o.resolution.as_str(), "scale_cuda") } else { scale_filter(o.resolution.as_str()) };
    let ghost vfv = opt_view(vf);
    assert(vfv == hw_scale(*o, venc@, gpu_decode));
    let mut a = input_args(o, cuda);
    push_vf(&mut a, &vf);
    push_all(&mut a, hw_bitrate_args(venc, vk));
    push_extra(&mut a, c);
    push_pix(&mut a, !cuda);
    let ghost s0 = strs(a@);
    push_lit(&mut a, "-c:a");
    push_lit(&mut a, c.aenc);
    push_lit(&mut a, "-b:a");
    push_string(&mut a, kbps(audio));
    assert(strs(a@) =~= s0 + seq!["-c:a"@, c@.aenc, "-b:a"@, kbps_text(audio as int)]);
    push_faststart(&mut a, c.faststart);
    push_progress(&mut a);
    push_string(&mut a, o.output.clone());
    assert(strs(a@) =~= hw_target_pass(*o, venc@, gpu_decode, vk as int));
    a
}

fn svt_target_pass_args(o: &ConvertOpts, c: &Codec, vk: i64, audio: i64) -> (a: Vec<String>)
    requires
        c@ == codec_spec(o.format@),
        audio == target_audio_kbps(c@),
    ensures
        strs(a@) == svt_target_pass(*o, vk as int),
{
    let vf = scale_filter(o.resolution.as_str());
    let mut a = input_args(o, false);
    push_vf(&mut a, &vf);
    let ghost s0 = strs(a@);
    push_lit(&mut a, "-c:v");
    push_lit(&mut a, "libsvtav1");
    push_lit(&mut a, "-preset");
    push_lit(&mut a, "8");
    push_lit(&mut a, "-b:v");
    push_string(&mut a, kbps(vk));
    push_lit(&mut a, "-pix_fmt");
    push_lit(&mut a, "yuv420p");
    push_lit(&mut a, "-c:a");
    push_lit(&mut a, c.aenc);
    push_lit(&mut a, "-b:a");
    push_string(&mut a, kbps(audio));
    push_lit(&mut a, "-movflags");
    push_lit(&mut a, "+faststart");
    assert(strs(a@) =~= s0 + seq!["-c:v"@, "libsvtav1"@, "-preset"@, "8"@, "-b:v"@, kbps_text(vk as int), "-pix_fmt"@, "yuv420p"@, "-c:a"@, c@.aenc,
            "-b:a"@, kbps_text(audio as int), "-movflags"@, "+faststart"@]);
    push_progress(&mut a);
    push_string(&mut a, o.output.clone());
    assert(strs(a@) =~= svt_target_pass(*o, vk as int));
    a
}

fn first_pass_args(o: &ConvertOpts, c: &Codec, vk: i64, log: &str) -> (a: Vec<String>)
    requires
        c@ == codec_spec(o.format@),
    ensures
        strs(a@) == first_pass(*o, vk as int, log@),
{
    let vf = scale_filter(o.resolution.as_str());
    let mut a = input_args(o, false);
    push_vf(&mut a, &vf);
    let ghost s0 = strs(a@);
    push_lit(&mut a, "-c:v");
    push_lit(&mut a, c.venc);
    push_lit(&mut a, "-b:v");
    push_string(&mut a, kbps(vk));
    assert(strs(a@) =~= s0 + seq!["-c:v"@, c@.venc, "-b:v"@, kbps_text(vk as int)]);
    push_extra(&mut a, c);
    let ghost s1 = strs(a@);
    push_lit(&mut a, "-pass");
    push_lit(&mut a, "1");
    push_lit(&mut a, "-passlogfile");
    push_lit(&mut a, log);
    push_lit(&mut a, "-an");
    push_lit(&mut a, "-f");
    push_lit(&mut a, c.pass_fmt);
    assert(strs(a@) =~= s1 + seq!["-pass"@, "1"@, "-passlogfile"@, log@, "-an"@, "-f"@, c@.pass_fmt]);
    push_progress(&mut a);
    push_lit(&mut a, "NUL");
    assert(strs(a@) =~= first_pass(*o, vk as int, log@));
    a
}

fn second_pass_args(o: &ConvertOpts, c: &Codec, vk: i64, audio: i64, log: &str) -> (a: Vec<String>)
    requires
        c@ == codec_spec(o.format@),
        audio == target_audio_kbps(c@),
    ensures
        strs(a@) == second_pass(*o, vk as int, log@),
{
    let vf = scale_filter(o.resolution.as_str());
    let mut a = input_args(o, false);
    push_vf(&mut a, &vf);
    let ghost s0 = strs(a@);
    push_lit(&mut a, "-c:v");
    push_lit(&mut a, c.venc);
    push_lit(&mut a, "-b:v");
    push_string(&mut a, kbps(vk));
    assert(strs(a@) =~= s0 + seq!["-c:v"@, c@.venc, "-b:v"@, kbps_text(vk as int)]);
    push_pix(&mut a, c.pix);
    push_extra(&mut a, c);
    let ghost s1 = strs(a@);
    push_lit(&mut a, "-pass");
    push_lit(&mut a, "2");
    push_lit(&mut a, "-passlogfile");
    push_lit(&mut a, log);
    push_lit(&mut a, "-c:a");
    push_lit(&mut a, c.aenc);
    push_lit(&mut a, "-b:a");
    push_string(&mut a, kbps(audio));
    assert(strs(a@) =~= s1 + seq!["-pass"@, "2"@, "-passlogfile"@, log@, "-c:a"@, c@.aenc, "-b:a"@, kbps_text(audio as int)]);
    push_faststart(&mut a, c.faststart);
    push_progress(&mut a);
    push_string(&mut a, o.output.clone());
    assert(strs(a@) =~= second_pass(*o, vk as int, log@));
    a
}

fn hw_quality_pass_args(o: &ConvertOpts, venc: &VideoEnc, gpu_decode: bool, c: &Codec) -> (a: Vec<String>)
    requires
        c@ == codec_spec(o.format@),
    ensures
        strs(a@) == hw_quality_pass(*o, venc@, gpu_decode),
{
    let cuda = venc.vendor == Vendor::Nvenc && gpu_decode;
    let vf = if cuda { scale_filter_named(o.resolution.as_str(), "scale_cuda") } else { scale_filter(o.resolution.as_str()) };
    let ghost vfv = opt_view(vf);
    assert(vfv == hw_scale(*o, venc@, gpu_decode));
    let mut a = input_args(o, cuda);
    push_vf(&mut a, &vf);
    push_all(&mut a, hw_quality_args(venc, o.quality.as_str()));
    push_extra(&mut a, c);
    push_pix(&mut a, !cuda);
    let ghost s0 = strs(a@);
    push_lit(&mut a, "-c:a");
    push_lit(&mut a, c.aenc);
    push_lit(&mut a, "-b:a");
    push_lit(&mut a, "160k");
    assert(strs(a@) =~= s0 + seq!["-c:a"@, c@.aenc, "-b:a"@, "160k"@]);
    push_faststart(&mut a, c.faststart);
    push_progress(&mut a);
    push_string(&mut a, o.output.clone());
    assert(strs(a@) =~= hw_quality_pass(*o, venc@, gpu_decode));
    a
}

fn cpu_quality_pass_args(o: &ConvertOpts, venc: &VideoEnc, c: &Codec) -> (a: Vec<String>)
    requires
        c@ == codec_spec(o.format@),
    ensures
        strs(a@) == cpu_quality_pass(*o, venc@),
{
    let crf = crf_for(o.format.as_str(), o.quality.as_str());
    let vf = scale_filter(o.resolution.as_str());
    let mut a = input_args(o, false);
    push_vf(&mut a, &vf);
    let ghost s0 = strs(a@);
    push_lit(&mut a, "-c:v");
    push_lit(&mut a, c.venc);
    if str_eq(c.venc, "libvpx-vp9") {
        push_lit(&mut a, "-b:v");
        push_lit(&mut a, "0");
    } else if str_eq(venc.name, "libsvtav1") {
        push_lit(&mut a, "-preset");
        push_lit(&mut a, "8");
    } else {
        push_lit(&mut a, "-preset");
        push_lit(&mut a, "medium");
    }
    push_lit(&mut a, "-crf");
    push_lit(&mut a, crf);
    assert(strs(a@) =~= s0 + seq!["-c:v"@, c@.venc] + cpu_speed_part(c@, venc@) + seq!["-crf"@, crf_spec(o.format@, o.quality@)]);
    push_pix(&mut a, c.pix);
    push_extra(&mut a, c);
    let ghost s1 = strs(a@);
    push_lit(&mut a, "-c:a");
    push_lit(&mut a, c.aenc);
    push_lit(&mut a, "-b:a");
    if str_eq(c.aenc, "libopus") {
        push_lit(&mut a, "128k");
    } else {
        push_lit(&mut a, "160k");
    }
    assert(strs(a@) =~= s1 + seq!["-c:a"@, c@.aenc, "-b:a"@, if c@.aenc == "libopus"@ { "128k"@ } else { "160k"@ }]);
    push_faststart(&mut a, c.faststart);
    push_progress(&mut a);
    push_string(&mut a, o.output.clone());
    assert(strs(a@) =~= cpu_quality_pass(*o, venc@));
    a
}

/// Builds every pass of a conversion (each a full ffmpeg argument list), for the given
/// encoder and decoding choice. `pass_log` is the prefix of the two-pass log file.
pub fn build_passes(o: &ConvertOpts, venc: VideoEnc, gpu_decode: bool, pass_log: &str) -> (r: Result<Vec<Vec<String>>, String>)
    requires
        bitrate_fits(*o, venc@),
    ensures
        r matches Ok(p) && passes_view(p@) == passes_spec(*o, venc@, gpu_decode, pass_log@),
{
    let mut out: Vec<Vec<String>> = Vec::new();
    if str_eq(o.mode.as_str(), "audio") {
        out.push(audio_pass_args(o));
    } else if str_eq(o.mode.as_str(), "gif") {
        out.push(gif_pass_args(o));
    } else {
        let c = codec_for(o.format.as_str());
        let hw = venc.vendor != Vendor::Cpu;
        match o.target_size_kib {
            Some(kib) => {
                let audio: i64 = if str_eq(c.aenc, "libopus") { 96 } else { 128 };
                let vk = target_video_kbps(o, kib, audio);
                if hw {
                    out.push(hw_target_pass_args(o, &venc, gpu_decode, &c, vk, audio));
                } else if str_eq(venc.name, "libsvtav1") {
                    out.push(svt_target_pass_args(o, &c, vk, audio));
                } else {
                    out.push(first_pass_args(o, &c, vk, pass_log));
                    out.push(second_pass_args(o, &c, vk, audio, pass_log));
                }
            },
            None => {
                if hw {
                    out.push(hw_quality_pass_args(o, &venc, gpu_decode, &c));
                } else {
                    out.push(cpu_quality_pass_args(o, &venc, &c));
                }
            },
        }
    }
    assert(passes_view(out@) =~= passes_spec(*o, venc@, gpu_decode, pass_log@));
    Ok(out)
}


/// Compressing to a target size on a CPU encoder other than SVT-AV1 takes two passes.
pub open spec fn is_two_pass(o: ConvertOpts, venc: EncView) -> bool {
    !is_audio(o) && !is_gif(o) && o.target_size_kib is Some && venc.vendor == Vendor::Cpu
        && venc.name != "libsvtav1"@
}

/// A conversion is two passes exactly when it compresses to size on a CPU encoder other
/// than SVT-AV1, and one pass otherwise; the last pass always writes to the output path,
/// and the first of two passes only analyses, writing to the null device.
pub proof fn law_passes_shape(o: ConvertOpts, venc: EncView, gpu_decode: bool, log: Seq<char>)
    ensures
        passes_spec(o, venc, gpu_decode, log).len() == (if is_two_pass(o, venc) { 2int } else { 1int }),
        passes_spec(o, venc, gpu_decode, log).last().last() == o.output@,
        is_two_pass(o, venc) ==> passes_spec(o, venc, gpu_decode, log)[0].last() == "NUL"@,
{
}

/// Whether a pass decodes on the GPU: a video pass on NVENC with GPU decoding asked for.
pub open spec fn pass_cuda(o: ConvertOpts, venc: EncView, gpu_decode: bool) -> bool {
    !is_audio(o) && !is_gif(o) && uses_cuda(venc, gpu_decode)
}

/// The trim start is set and positive.
pub open spec fn trim_start_positive(o: ConvertOpts) -> bool {
    o.trim_start_ms matches Some(s) && s > 0
}

/// The input side of a pass: `-y -hide_banner -nostdin`; CUDA decoding exactly when asked
/// for; `-ss <start>` exactly when the trim start is positive; `-i <input>`; then
/// `-t <length>` exactly when the trim window is not empty (end after start, or a
/// positive end without a start), its length being the end minus the start.
pub proof fn law_input_args_shape(o: ConvertOpts, g: bool)
    ensures
        ({
            let a = input_args_spec(o, g);
            let h: int = if g { 4 } else { 0 };
            let ss: int = if trim_start_positive(o) { 2 } else { 0 };
            let i = 3 + h + ss;
            &&& a.take(3) == seq!["-y"@, "-hide_banner"@, "-nostdin"@]
            &&& (a[3] == "-hwaccel"@) == g
            &&& g ==> a.subrange(3, 7) == seq!["-hwaccel"@, "cuda"@, "-hwaccel_output_format"@, "cuda"@]
            &&& (a[3 + h] == "-ss"@) == trim_start_positive(o)
            &&& trim_start_positive(o) ==> a[4 + h] == fixed3(o.trim_start_ms->0 as nat)
            &&& a[i] == "-i"@ && a[i + 1] == o.input@
            &&& (trim_length(o.trim_start_ms, o.trim_end_ms) is Some) == (match (o.trim_start_ms, o.trim_end_ms) {
                (Some(s), Some(e)) => e > s,
                (None, Some(e)) => e > 0,
                _ => false,
            })
            &&& a.len() == i + 2 + (if trim_length(o.trim_start_ms, o.trim_end_ms) is Some { 2int } else { 0int })
            &&& trim_length(o.trim_start_ms, o.trim_end_ms) matches Some(t) ==> a[i + 2] == "-t"@ && a[i + 3] == fixed3(t)
                && t == o.trim_end_ms->0 - (match o.trim_start_ms { Some(s) => s as int, None => 0int })
        }),
{
    reveal_strlit("-hwaccel");
    reveal_strlit("-ss");
    reveal_strlit("-i");
    let a = input_args_spec(o, g);
    let pre = seq!["-y"@, "-hide_banner"@, "-nostdin"@];
    let hw: Seq<Seq<char>> = if g { seq!["-hwaccel"@, "cuda"@, "-hwaccel_output_format"@, "cuda"@] } else { Seq::empty() };
    let ssp: Seq<Seq<char>> = match o.trim_start_ms { Some(s) => if s > 0 { seq!["-ss"@, fixed3(s as nat)] } else { Seq::empty() }, None => Seq::empty() };
    let inp = seq!["-i"@, o.input@];
    let tp: Seq<Seq<char>> = match trim_length(o.trim_start_ms, o.trim_end_ms) { Some(t) => seq!["-t"@, fixed3(t)], None => Seq::empty() };
    let b = pre + hw;
    let c = b + ssp;
    let d = c + inp;
    assert(a == d + tp);
    let h: int = if g { 4 } else { 0 };
    let ss: int = if trim_start_positive(o) { 2 } else { 0 };
    let i = 3 + h + ss;
    assert(b.len() == 3 + h);
    assert(c.len() == i);
    assert(d[i] == "-i"@ && d[i + 1] == o.input@);
    assert(a[i] == "-i"@ && a[i + 1] == o.input@);
    assert(a.take(3) =~= pre);
    assert forall|k: int| 0 <= k < d.len() implies a[k] == d[k] by {}
    assert forall|k: int| 0 <= k < c.len() implies d[k] == c[k] by {}
    assert forall|k: int| 0 <= k < b.len() implies c[k] == b[k] by {}
    if g {
        assert(a.subrange(3, 7) =~= hw);
    }
    if trim_start_positive(o) {
        assert(c[3 + h] == "-ss"@);
        assert(c[4 + h] == ssp[1]);
    } else {
        assert(d[3 + h] == "-i"@);
    }
    if trim_length(o.trim_start_ms, o.trim_end_ms) is Some {
        assert(a[i + 2] == tp[0] && a[i + 3] == tp[1]);
    }
}

/// `q` is `inp`, then the rest of the pass, then `-progress pipe:1 -nostats` and `d`.
pub open spec fn framed(q: Seq<Seq<char>>, inp: Seq<Seq<char>>, d: Seq<char>) -> bool {
    &&& q.take(inp.len() as int) == inp
    &&& q.len() >= inp.len() + 4
    &&& q.subrange(q.len() - 4, q.len() - 1) == progress_spec()
    &&& q.last() == d
}

proof fn lemma_pass_frame(a: Seq<Seq<char>>, mid: Seq<Seq<char>>, d: Seq<char>, q: Seq<Seq<char>>)
    requires
        q == a + mid + progress_spec() + seq![d],
    ensures
        framed(q, a, d),
{
    assert(q.take(a.len() as int) =~= a);
    assert(q.subrange(q.len() - 4, q.len() - 1) =~= progress_spec());
}

proof fn lemma_audio_framed(o: ConvertOpts)
    ensures
        framed(audio_pass(o), input_args_spec(o, false), o.output@),
{
    let inp = input_args_spec(o, false);
    let mid = seq!["-vn"@] + audio_codec_spec(o.audio_format@);
    assert(audio_pass(o) =~= inp + mid + progress_spec() + seq![o.output@]);
    lemma_pass_frame(inp, mid, o.output@, audio_pass(o));
}

proof fn lemma_gif_framed(o: ConvertOpts)
    ensures
        framed(gif_pass(o), input_args_spec(o, false), o.output@),
{
    let inp = input_args_spec(o, false);
    let mid = seq!["-vf"@, gif_vf_spec(gif_fps(o) as nat, gif_height_spec(o.resolution@), o.gif_quality), "-loop"@, "0"@, "-an"@];
    assert(gif_pass(o) =~= inp + mid + progress_spec() + seq![o.output@]);
    lemma_pass_frame(inp, mid, o.output@, gif_pass(o));
}

proof fn lemma_hw_target_framed(o: ConvertOpts, venc: EncView, gpu_decode: bool, vk: int)
    ensures
        framed(hw_target_pass(o, venc, gpu_decode, vk), input_args_spec(o, uses_cuda(venc, gpu_decode)), o.output@),
{
    let c = codec_spec(o.format@);
    let cuda = uses_cuda(venc, gpu_decode);
    let inp = input_args_spec(o, cuda);
    let mid = vf_part(hw_scale(o, venc, gpu_decode)) + hw_bitrate_args_spec(venc, vk) + c.extra + pix_part(!cuda)
        + seq!["-c:a"@, c.aenc, "-b:a"@, kbps_text(target_audio_kbps(c))] + faststart_part(c.faststart);
    assert(hw_target_pass(o, venc, gpu_decode, vk) =~= inp + mid + progress_spec() + seq![o.output@]);
    lemma_pass_frame(inp, mid, o.output@, hw_target_pass(o, venc, gpu_decode, vk));
}

proof fn lemma_svt_framed(o: ConvertOpts, vk: int)
    ensures
        framed(svt_target_pass(o, vk), input_args_spec(o, false), o.output@),
{
    let c = codec_spec(o.format@);
    let inp = input_args_spec(o, false);
    let mid = vf_part(scale_filter_spec(o.resolution@, "scale"@))
        + seq!["-c:v"@, "libsvtav1"@, "-preset"@, "8"@, "-b:v"@, kbps_text(vk), "-pix_fmt"@, "yuv420p"@, "-c:a"@, c.aenc,
            "-b:a"@, kbps_text(target_audio_kbps(c)), "-movflags"@, "+faststart"@];
    assert(svt_target_pass(o, vk) =~= inp + mid + progress_spec() + seq![o.output@]);
    lemma_pass_frame(inp, mid, o.output@, svt_target_pass(o, vk));
}

proof fn lemma_two_pass_framed(o: ConvertOpts, vk: int, log: Seq<char>)
    ensures
        framed(first_pass(o, vk, log), input_args_spec(o, false), "NUL"@),
        framed(second_pass(o, vk, log), input_args_spec(o, false), o.output@),
{
    let c = codec_spec(o.format@);
    let inp = input_args_spec(o, false);
    let mid1 = vf_part(scale_filter_spec(o.resolution@, "scale"@))
        + seq!["-c:v"@, c.venc, "-b:v"@, kbps_text(vk)] + c.extra
        + seq!["-pass"@, "1"@, "-passlogfile"@, log, "-an"@, "-f"@, c.pass_fmt];
    assert(first_pass(o, vk, log) =~= inp + mid1 + progress_spec() + seq!["NUL"@]);
    lemma_pass_frame(inp, mid1, "NUL"@, first_pass(o, vk, log));
    let mid2 = vf_part(scale_filter_spec(o.resolution@, "scale"@))
        + seq!["-c:v"@, c.venc, "-b:v"@, kbps_text(vk)] + pix_part(c.pix) + c.extra
        + seq!["-pass"@, "2"@, "-passlogfile"@, log, "-c:a"@, c.aenc, "-b:a"@, kbps_text(target_audio_kbps(c))]
        + faststart_part(c.faststart);
    assert(second_pass(o, vk, log) =~= inp + mid2 + progress_spec() + seq![o.output@]);
    lemma_pass_frame(inp, mid2, o.output@, second_pass(o, vk, log));
}

proof fn lemma_quality_framed(o: ConvertOpts, venc: EncView, gpu_decode: bool)
    ensures
        framed(hw_quality_pass(o, venc, gpu_decode), input_args_spec(o, uses_cuda(venc, gpu_decode)), o.output@),
{
    let c = codec_spec(o.format@);
    let cuda = uses_cuda(venc, gpu_decode);
    let inp = input_args_spec(o, cuda);
    let mid = vf_part(hw_scale(o, venc, gpu_decode)) + hw_quality_args_spec(venc, o.quality@)
        + c.extra + pix_part(!cuda) + seq!["-c:a"@, c.aenc, "-b:a"@, "160k"@] + faststart_part(c.faststart);
    assert(hw_quality_pass(o, venc, gpu_decode) =~= inp + mid + progress_spec() + seq![o.output@]);
    lemma_pass_frame(inp, mid, o.output@, hw_quality_pass(o, venc, gpu_decode));
}

proof fn lemma_cpu_quality_framed(o: ConvertOpts, venc: EncView)
    ensures
        framed(cpu_quality_pass(o, venc), input_args_spec(o, false), o.output@),
{
    let c = codec_spec(o.format@);
    let inp0 = input_args_spec(o, false);
    let mid0 = vf_part(scale_filter_spec(o.resolution@, "scale"@)) + seq!["-c:v"@, c.venc]
        + cpu_speed_part(c, venc) + seq!["-crf"@, crf_spec(o.format@, o.quality@)] + pix_part(c.pix) + c.extra
        + seq!["-c:a"@, c.aenc, "-b:a"@, if c.aenc == "libopus"@ { "128k"@ } else { "160k"@ }]
        + faststart_part(c.faststart);
    assert(cpu_quality_pass(o, venc) =~= inp0 + mid0 + progress_spec() + seq![o.output@]);
    lemma_pass_frame(inp0, mid0, o.output@, cpu_quality_pass(o, venc));
}

/// Pass `i` is framed by its input arguments and its destination.
#[verifier::spinoff_prover]
proof fn lemma_framed(o: ConvertOpts, venc: EncView, gpu_decode: bool, log: Seq<char>, i: int)
    requires
        0 <= i < passes_spec(o, venc, gpu_decode, log).len(),
    ensures
        framed(passes_spec(o, venc, gpu_decode, log)[i], input_args_spec(o, pass_cuda(o, venc, gpu_decode)),
            if is_two_pass(o, venc) && i == 0 { "NUL"@ } else { o.output@ }),
{
    if is_audio(o) {
        lemma_audio_framed(o);
    } else if is_gif(o) {
        lemma_gif_framed(o);
    } else {
        match o.target_size_kib {
            Some(kib) => {
                let vk = target_vk(o, kib);
                if venc.vendor != Vendor::Cpu {
                    lemma_hw_target_framed(o, venc, gpu_decode, vk);
                } else if venc.name == "libsvtav1"@ {
                    lemma_svt_framed(o, vk);
                } else {
                    lemma_two_pass_framed(o, vk, log);
                }
            },
            None => {
                if venc.vendor != Vendor::Cpu {
                    lemma_quality_framed(o, venc, gpu_decode);
                } else {
                    lemma_cpu_quality_framed(o, venc);
                }
            },
        }
    }
}

/// Every pass opens with `-y -hide_banner -nostdin` and the input arguments, CUDA
/// decoding exactly on NVENC video passes that decode on the GPU; it closes with
/// `-progress pipe:1 -nostats` and then its destination: the null device for the first
/// of two passes, the output path otherwise.
pub proof fn law_pass_frame(o: ConvertOpts, venc: EncView, gpu_decode: bool, log: Seq<char>)
    ensures
        forall|i: int| 0 <= i < passes_spec(o, venc, gpu_decode, log).len() ==> {
            let q = #[trigger] passes_spec(o, venc, gpu_decode, log)[i];
            let inp = input_args_spec(o, pass_cuda(o, venc, gpu_decode));
            &&& q.take(3) == seq!["-y"@, "-hide_banner"@, "-nostdin"@]
            &&& q.take(inp.len() as int) == inp
            &&& (q[3] == "-hwaccel"@) == pass_cuda(o, venc, gpu_decode)
            &&& q.len() >= inp.len() + 4
            &&& q.subrange(q.len() - 4, q.len() - 1) == progress_spec()
            &&& q.last() == (if is_two_pass(o, venc) && i == 0 { "NUL"@ } else { o.output@ })
        },
{
    let ps = passes_spec(o, venc, gpu_decode, log);
    let cuda = pass_cuda(o, venc, gpu_decode);
    let inp = input_args_spec(o, cuda);
    law_input_args_shape(o, cuda);
    assert forall|i: int| 0 <= i < ps.len() implies {
        let q = #[trigger] ps[i];
        &&& q.take(3) == seq!["-y"@, "-hide_banner"@, "-nostdin"@]
        &&& q.take(inp.len() as int) == inp
        &&& (q[3] == "-hwaccel"@) == cuda
        &&& q.len() >= inp.len() + 4
        &&& q.subrange(q.len() - 4, q.len() - 1) == progress_spec()
        &&& q.last() == (if is_two_pass(o, venc) && i == 0 { "NUL"@ } else { o.output@ })
    } by {
        lemma_framed(o, venc, gpu_decode, log, i);
        let q = ps[i];
        assert(q.take(inp.len() as int)[3] == q[3]);
        assert(q.take(3) =~= q.take(inp.len() as int).take(3));
    }
}
/// For every format, quality "high" asks for a strictly lower CRF (better quality, larger
/// file) than "balanced", which asks for a strictly lower one than "small"; any other
/// quality is read as "balanced"; each CRF is a number of two digits. They are 24 / 31 /
/// 37 for WebM (VP9), 21 / 26 / 30 for H.265, 28 / 35 / 45 for AV1, and 18 / 22 / 27
/// for every other format (H.264).
pub proof fn law_crf_by_quality(format: Seq<char>, quality: Seq<char>)
    ensures
        quality != "high"@ && quality != "small"@ ==> crf_spec(format, quality) == crf_spec(format, "balanced"@),
        format == "webm"@ ==> digits_value(crf_spec(format, "high"@)) == 24
            && digits_value(crf_spec(format, "balanced"@)) == 31 && digits_value(crf_spec(format, "small"@)) == 37,
        format == "mp4_av1"@ ==> digits_value(crf_spec(format, "high"@)) == 28
            && digits_value(crf_spec(format, "balanced"@)) == 35 && digits_value(crf_spec(format, "small"@)) == 45,
        format != "webm"@ && format != "mp4_h265"@ && format != "mp4_av1"@ ==> digits_value(crf_spec(format, "high"@)) == 18
            && digits_value(crf_spec(format, "balanced"@)) == 22 && digits_value(crf_spec(format, "small"@)) == 27,
        all_digits(crf_spec(format, "high"@)) && crf_spec(format, "high"@).len() == 2,
        all_digits(crf_spec(format, "balanced"@)) && crf_spec(format, "balanced"@).len() == 2,
        all_digits(crf_spec(format, "small"@)) && crf_spec(format, "small"@).len() == 2,
        digits_value(crf_spec(format, "high"@)) < digits_value(crf_spec(format, "balanced"@)),
        digits_value(crf_spec(format, "balanced"@)) < digits_value(crf_spec(format, "small"@)),
        digits_value(crf_spec("mp4_h265"@, "high"@)) == 21,
        digits_value(crf_spec("mp4_h265"@, "balanced"@)) == 26,
        digits_value(crf_spec("mp4_h265"@, "small"@)) == 30,
{
    reveal_strlit("high");
    reveal_strlit("small");
    reveal_strlit("balanced");
    reveal_strlit("webm");
    reveal_strlit("mp4_h265");
    reveal_strlit("mp4_av1");
    reveal_strlit("18");
    reveal_strlit("22");
    reveal_strlit("27");
    reveal_strlit("24");
    reveal_strlit("31");
    reveal_strlit("37");
    reveal_strlit("21");
    reveal_strlit("26");
    reveal_strlit("30");
    reveal_strlit("28");
    reveal_strlit("35");
    reveal_strlit("45");
    reveal_with_fuel(digits_value, 3);
    assert("high"@.len() == 4 && "small"@.len() == 5 && "balanced"@.len() == 8);
    assert("webm"@.len() == 4 && "mp4_h265"@.len() == 8 && "mp4_av1"@.len() == 7);
    assert("mp4_h265"@ != "webm"@);
    assert("mp4_h265"@[4] == 'h' && "mp4_av1"@[4] == 'a');
    assert("mp4_h265"@ != "mp4_av1"@);
    assert("high"@ != "small"@);
    assert("balanced"@ != "small"@ && "balanced"@ != "high"@);
}

/// An audio extraction is one pass: the input arguments, no video (`-vn`), then the audio
/// codec: 16-bit PCM for "wav", AAC at 192 kb/s for "m4a", and MP3 (LAME) at 192 kb/s for
/// every other audio format.
pub proof fn law_audio_codec(o: ConvertOpts, venc: EncView, gpu_decode: bool, log: Seq<char>)
    requires
        is_audio(o),
    ensures
        ({
            let ps = passes_spec(o, venc, gpu_decode, log);
            let n = input_args_spec(o, false).len() as int;
            let q = ps[0];
            &&& ps.len() == 1
            &&& q[n] == "-vn"@
            &&& q[n + 1] == "-c:a"@
            &&& o.audio_format@ == "wav"@ ==> q[n + 2] == "pcm_s16le"@
            &&& o.audio_format@ == "m4a"@ ==> q[n + 2] == "aac"@ && q[n + 3] == "-b:a"@
                && q[n + 4] == "192k"@
            &&& o.audio_format@ != "wav"@ && o.audio_format@ != "m4a"@ ==> q[n + 2] == "libmp3lame"@
                && q[n + 3] == "-b:a"@ && q[n + 4] == "192k"@
        }),
{
    reveal_strlit("wav");
    reveal_strlit("m4a");
    let inp = input_args_spec(o, false);
    let n = inp.len() as int;
    let q = audio_pass(o);
    let tail = seq!["-vn"@] + audio_codec_spec(o.audio_format@) + progress_spec() + seq![o.output@];
    assert(q =~= inp + tail);
    assert(passes_spec(o, venc, gpu_decode, log) == seq![q]);
    assert("wav"@.len() == 3 && "m4a"@.len() == 3 && "wav"@[0] == 'w' && "m4a"@[0] == 'm');
    assert(q[n] == tail[0]);
    assert(q[n + 1] == tail[1]);
    assert(q[n + 2] == tail[2]);
    if o.audio_format@ != "wav"@ {
        assert(q[n + 3] == tail[3]);
        assert(q[n + 4] == tail[4]);
    }
}

/// The head of a GIF filtergraph, up to the palette size.
pub open spec fn gif_vf_head(fps_milli: nat, h: int) -> Seq<char> {
    "fps="@ + milli_text(fps_milli) + ",scale=-2:"@ + int_dec(h) + ":flags=lanczos,split[a][b];[a]palettegen=max_colors="@
}

/// The part of a GIF filtergraph between the palette size and the dithering.
pub open spec fn gif_vf_mid() -> Seq<char> {
    ":stats_mode=diff[p];[b][p]paletteuse=dither="@
}

/// The GIF quality slider: level 1 is a 64-colour palette without dithering, 2 is 128
/// colours with Bayer dithering of scale 4, 3 is 192 with scale 3, 4 is 256 with scale
/// 2, and 5 is 256 with Sierra dithering; a quality of 0 means level 3, and others are
/// clamped to 1..5. The palette never shrinks as the quality rises.
pub proof fn law_gif_quality(fps_milli: nat, h: int, quality: i64, other: i64)
    ensures
        ({
            let head = gif_vf_head(fps_milli, h);
            let vf = gif_vf_spec(fps_milli, h, quality);
            &&& (quality == 1 || quality < 0) ==> vf == head + dec(64) + gif_vf_mid() + "none"@
            &&& quality == 2 ==> vf == head + dec(128) + gif_vf_mid() + "bayer:bayer_scale=4"@
            &&& (quality == 3 || quality == 0) ==> vf == head + dec(192) + gif_vf_mid() + "bayer:bayer_scale=3"@
            &&& quality == 4 ==> vf == head + dec(256) + gif_vf_mid() + "bayer:bayer_scale=2"@
            &&& quality >= 5 ==> vf == head + dec(256) + gif_vf_mid() + "sierra2_4a"@
        }),
        1 <= quality <= other ==> exists|a: nat, b: nat, da: Seq<char>, db: Seq<char>|
            a <= b
            && gif_vf_spec(fps_milli, h, quality) == gif_vf_head(fps_milli, h) + dec(a) + gif_vf_mid() + da
            && gif_vf_spec(fps_milli, h, other) == gif_vf_head(fps_milli, h) + dec(b) + gif_vf_mid() + db,
{
    let head = gif_vf_head(fps_milli, h);
    let lq = gif_level(quality);
    let lo = gif_level(other);
    assert(gif_vf_spec(fps_milli, h, quality) =~= head + dec(gif_colors(lq)) + gif_vf_mid() + gif_dither(lq));
    assert(gif_vf_spec(fps_milli, h, other) =~= head + dec(gif_colors(lo)) + gif_vf_mid() + gif_dither(lo));
    if 1 <= quality <= other {
        assert(gif_colors(lq) <= gif_colors(lo));
    }
}


/// Whether `build_passes` may be asked for this conversion (its bitrate fits).
pub fn bitrate_fits_check(o: &ConvertOpts, venc: &VideoEnc) -> (r: bool)
    ensures
        r == bitrate_fits(*o, venc@),
{
    if str_eq(o.mode.as_str(), "audio") || str_eq(o.mode.as_str(), "gif") || venc.vendor == Vendor::Cpu {
        return true;
    }
    match o.target_size_kib {
        None => true,
        Some(kib) => {
            let c = codec_for(o.format.as_str());
            let audio: i64 = if str_eq(c.aenc, "libopus") { 96 } else { 128 };
            let vk = target_video_kbps(o, kib, audio);
            vk <= i64::MAX / 2
        },
    }
}

} // verus!
