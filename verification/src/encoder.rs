//! Video encoders: the CPU fallback per format, the hardware candidates probed in
//! order, their per-vendor argument lists, and the cache of probe verdicts.
use vstd::prelude::*;
use crate::num::{
    dec, int_dec, int_double, int_double_of, i64_text, lemma_int_double_near, lemma_ratio_double_below, ratio_double,
    ratio_double_of, round_half_away, two_to, u64_text,
};
use crate::text::{owned, push_lit, push_str, push_string, str_eq, strs};

verus! {

/// Who makes the encoder.
#[derive(Clone, Copy, PartialEq, Eq, Structural, Debug)]
pub enum Vendor {
    Nvenc,
    Amf,
    Qsv,
    Cpu,
}

/// The codec family an encoder produces.
#[derive(Clone, Copy, PartialEq, Eq, Structural, Debug)]
pub enum Family {
    Hevc,
    Av1,
    Vp9,
    H264,
}

/// An ffmpeg video encoder.
#[derive(Clone, Copy, Debug)]
pub struct VideoEnc {
    pub vendor: Vendor,
    pub name: &'static str,
    pub family: Family,
}

/// What an encoder is: vendor, ffmpeg name, family.
pub struct EncView {
    pub vendor: Vendor,
    pub name: Seq<char>,
    pub family: Family,
}

impl View for VideoEnc {
    type V = EncView;

    open spec fn view(&self) -> EncView {
        EncView { vendor: self.vendor, name: self.name@, family: self.family }
    }
}

/// The always-available CPU encoder for a format: x265 for "mp4_h265", SVT-AV1 for
/// "mp4_av1", VP9 for "webm", x264 for anything else.
pub open spec fn cpu_encoder_spec(format: Seq<char>) -> EncView {
    if format == "mp4_h265"@ {
        EncView { vendor: Vendor::Cpu, name: "libx265"@, family: Family::Hevc }
    } else if format == "mp4_av1"@ {
        EncView { vendor: Vendor::Cpu, name: "libsvtav1"@, family: Family::Av1 }
    } else if format == "webm"@ {
        EncView { vendor: Vendor::Cpu, name: "libvpx-vp9"@, family: Family::Vp9 }
    } else {
        EncView { vendor: Vendor::Cpu, name: "libx264"@, family: Family::H264 }
    }
}

/// The CPU encoder for a format (the always-available fallback).
pub fn cpu_encoder(format: &str) -> (r: VideoEnc)
    ensures
        r@ == cpu_encoder_spec(format@),
{
    if str_eq(format, "mp4_h265") {
        VideoEnc { vendor: Vendor::Cpu, name: "libx265", family: Family::Hevc }
    } else if str_eq(format, "mp4_av1") {
        VideoEnc { vendor: Vendor::Cpu, name: "libsvtav1", family: Family::Av1 }
    } else if str_eq(format, "webm") {
        VideoEnc { vendor: Vendor::Cpu, name: "libvpx-vp9", family: Family::Vp9 }
    } else {
        VideoEnc { vendor: Vendor::Cpu, name: "libx264", family: Family::H264 }
    }
}

/// Constant-quality number for a hardware encoder (roughly a CRF; lower is better).
pub open spec fn quality_value(fam: Family, quality: Seq<char>) -> nat {
    if fam == Family::Av1 {
        if quality == "high"@ { 27 } else if quality == "small"@ { 42 } else { 33 }
    } else {
        if quality == "high"@ { 23 } else if quality == "small"@ { 33 } else { 28 }
    }
}

/// The quality number as text.
pub fn quality_number(fam: Family, quality: &str) -> (r: String)
    ensures
        r@ == dec(quality_value(fam, quality@)),
{
    let high = str_eq(quality, "high");
    let small = str_eq(quality, "small");
    let n: u64 = match fam {
        Family::Av1 => if high { 27 } else if small { 42 } else { 33 },
        _ => if high { 23 } else if small { 33 } else { 28 },
    };
    u64_text(n)
}

/// Hardware constant-quality arguments, vendor-specific; none for a CPU encoder.
pub open spec fn hw_quality_args_spec(venc: EncView, quality: Seq<char>) -> Seq<Seq<char>> {
    let q = dec(quality_value(venc.family, quality));
    match venc.vendor {
        Vendor::Nvenc => seq![
            "-c:v"@, venc.name, "-preset"@, "p6"@, "-rc"@, "vbr"@, "-cq"@, q, "-b:v"@, "0"@,
        ],
        Vendor::Qsv => seq!["-c:v"@, venc.name, "-preset"@, "medium"@, "-global_quality"@, q],
        Vendor::Amf => seq![
            "-c:v"@, venc.name, "-quality"@, "quality"@, "-rc"@, "cqp"@, "-qp_i"@, q, "-qp_p"@, q,
            "-qp_b"@, q,
        ],
        Vendor::Cpu => Seq::empty(),
    }
}

/// Hardware constant-quality args (`-c:v <enc> ...`), vendor-specific.
pub fn hw_quality_args(venc: &VideoEnc, quality: &str) -> (r: Vec<String>)
    ensures
        strs(r@) == hw_quality_args_spec(venc@, quality@),
{
    let mut a: Vec<String> = Vec::new();
    let ghost q = dec(quality_value(venc.family, quality@));
    match venc.vendor {
        Vendor::Nvenc => {
            push_lit(&mut a, "-c:v");
            push_lit(&mut a, venc.name);
            push_lit(&mut a, "-preset");
            push_lit(&mut a, "p6");
            push_lit(&mut a, "-rc");
            push_lit(&mut a, "vbr");
            push_lit(&mut a, "-cq");
            push_string(&mut a, quality_number(venc.family, quality));
            push_lit(&mut a, "-b:v");
            push_lit(&mut a, "0");
        },
        Vendor::Qsv => {
            push_lit(&mut a, "-c:v");
            push_lit(&mut a, venc.name);
            push_lit(&mut a, "-preset");
            push_lit(&mut a, "medium");
            push_lit(&mut a, "-global_quality");
            push_string(&mut a, quality_number(venc.family, quality));
        },
        Vendor::Amf => {
            push_lit(&mut a, "-c:v");
            push_lit(&mut a, venc.name);
            push_lit(&mut a, "-quality");
            push_lit(&mut a, "quality");
            push_lit(&mut a, "-rc");
            push_lit(&mut a, "cqp");
            push_lit(&mut a, "-qp_i");
            push_string(&mut a, quality_number(venc.family, quality));
            push_lit(&mut a, "-qp_p");
            push_string(&mut a, quality_number(venc.family, quality));
            push_lit(&mut a, "-qp_b");
            push_string(&mut a, quality_number(venc.family, quality));
        },
        Vendor::Cpu => {},
    }
    assert(strs(a@) =~= hw_quality_args_spec(venc@, quality@));
    a
}

/// `1.2` as a double: `5404319552844595 / 2^52`.
pub open spec fn one_point_two() -> nat {
    5404319552844595
}

/// `(a as f64 * 1.2).round()` for `a >= 0`: the double of `a`, times the double 1.2,
/// rounded to a double, then to a whole number (halves up).
pub open spec fn peak_mag(a: nat) -> nat {
    if a == 0 { 0 } else { round_half_away(ratio_double(int_double(a) * one_point_two(), two_to(52))) }
}

/// `(vk as f64 * 1.2).round() as i64`: rounded half away from zero, saturating.
pub open spec fn peak_kbps(vk: int) -> int {
    if vk >= 0 {
        if peak_mag(vk as nat) > i64::MAX { i64::MAX as int } else { peak_mag(vk as nat) as int }
    } else {
        if peak_mag((-vk) as nat) > 0x8000_0000_0000_0000 { i64::MIN as int } else { -(peak_mag((-vk) as nat) as int) }
    }
}

/// `(a as f64 * 1.2).round()` for `a >= 0`.
fn peak_mag_of(a: u64) -> (r: u128)
    ensures
        r as nat == peak_mag(a as nat),
{
    if a == 0 {
        return 0;
    }
    let af = int_double_of(a);
    assert(af * 5404319552844595 <= 0x4_0000_0000_0000_0000 * 5404319552844595) by (nonlinear_arith)
        requires af <= 0x4_0000_0000_0000_0000;
    assert(af * 5404319552844595 >= 1) by (nonlinear_arith)
        requires af >= 1;
    let p52: u128 = 0x10_0000_0000_0000;
    assert(p52 as nat == two_to(52)) by {
        reveal_with_fuel(two_to, 53);
    }
    let (qn, qd) = ratio_double_of(af * 5404319552844595, p52);
    (2 * qn + qd) / (2 * qd)
}

/// `"<n>k"`.
pub open spec fn kbps_text(n: int) -> Seq<char> {
    int_dec(n) + "k"@
}

/// Hardware bitrate (target-size) arguments, vendor-specific single-pass VBR.
pub open spec fn hw_bitrate_args_spec(venc: EncView, vk: int) -> Seq<Seq<char>> {
    let vb = kbps_text(vk);
    let mx = kbps_text(peak_kbps(vk));
    let bf = kbps_text(vk * 2);
    match venc.vendor {
        Vendor::Nvenc => seq![
            "-c:v"@, venc.name, "-preset"@, "p6"@, "-rc"@, "vbr"@, "-b:v"@, vb, "-maxrate"@, mx,
            "-bufsize"@, bf, "-multipass"@, "fullres"@,
        ],
        Vendor::Qsv => seq!["-c:v"@, venc.name, "-b:v"@, vb, "-maxrate"@, mx],
        Vendor::Amf => seq![
            "-c:v"@, venc.name, "-rc"@, "vbr_peak"@, "-b:v"@, vb, "-maxrate"@, mx,
        ],
        Vendor::Cpu => Seq::empty(),
    }
}

/// The peak bitrate is never below the target: `(a as f64 * 1.2).round() >= a`.
proof fn lemma_peak_not_below(a: nat)
    requires
        a <= 0x4000_0000_0000_0000,
    ensures
        peak_mag(a) >= a,
{
    if a > 0 {
        let big: nat = 0x10_0000_0000_0000;
        let m: nat = 0xF_FFFF_FFFF_FFFF;
        let c: nat = one_point_two();
        lemma_int_double_near(a);
        let pf = int_double(a);
        assert(two_to(52) == big) by {
            reveal_with_fuel(two_to, 53);
        }
        let n = pf * c;
        assert(1 <= n < 0x4_0000_0000_0000_0000_0000_0000_0000_0000) by (nonlinear_arith)
            requires 1 <= pf <= 2 * a, a <= 0x4000_0000_0000_0000, c == 5404319552844595, n == pf * c;
        lemma_ratio_double_below(n, big);
        let q = ratio_double(n, big);
        let x = q.0;
        let y = q.1;
        assert(x * big * big >= n * y * m);
        assert(pf * big >= a * m);
        assert(n * y * m * big >= a * m * c * y * m) by (nonlinear_arith)
            requires pf * big >= a * m, n == pf * c, y >= 1, c >= 0, m >= 0;
        assert(c * m * m >= big * big * big);
        assert(x * big * big * big >= a * y * (c * m * m)) by (nonlinear_arith)
            requires x * big * big >= n * y * m, n * y * m * big >= a * m * c * y * m, big >= 0;
        assert(x >= a * y) by (nonlinear_arith)
            requires x * big * big * big >= a * y * (c * m * m), c * m * m >= big * big * big, big >= 1, y >= 1;
        assert((2 * x + y) / (2 * y) >= a) by (nonlinear_arith)
            requires x >= a * y, y >= 1;
    }
}

/// The target-size arguments of every hardware encoder: the average bitrate after `-b:v`
/// is exactly the target `vk`, the peak after `-maxrate` is `vk * 1.2` rounded, never
/// below the target for a bitrate that is not negative, and NVIDIA's buffer after
/// `-bufsize` is twice the target.
pub proof fn law_hw_bitrate(venc: EncView, vk: int)
    requires
        venc.vendor != Vendor::Cpu,
        venc.name != "-b:v"@,
        venc.name != "-maxrate"@,
        venc.name != "-bufsize"@,
    ensures
        ({
            let a = hw_bitrate_args_spec(venc, vk);
            &&& exists|i: int| 0 <= i && i + 1 < a.len() && #[trigger] a[i] == "-b:v"@ && a[i + 1] == kbps_text(vk)
            &&& forall|i: int| 0 <= i < a.len() && #[trigger] a[i] == "-b:v"@ ==> i + 1 < a.len() && a[i + 1] == kbps_text(vk)
            &&& exists|i: int| 0 <= i && i + 1 < a.len() && #[trigger] a[i] == "-maxrate"@
                && a[i + 1] == kbps_text(peak_kbps(vk))
            &&& forall|i: int| 0 <= i < a.len() && #[trigger] a[i] == "-maxrate"@ ==> i + 1 < a.len()
                && a[i + 1] == kbps_text(peak_kbps(vk))
            &&& forall|i: int| 0 <= i < a.len() && #[trigger] a[i] == "-bufsize"@ ==> i + 1 < a.len()
                && a[i + 1] == kbps_text(vk * 2)
            &&& venc.vendor == Vendor::Nvenc ==> a[10] == "-bufsize"@
        }),
        0 <= vk <= i64::MAX / 2 ==> peak_kbps(vk) >= vk,
{
    reveal_strlit("-b:v");
    reveal_strlit("-maxrate");
    reveal_strlit("-c:v");
    reveal_strlit("-preset");
    reveal_strlit("p6");
    reveal_strlit("-rc");
    reveal_strlit("vbr");
    reveal_strlit("vbr_peak");
    reveal_strlit("-bufsize");
    reveal_strlit("-multipass");
    reveal_strlit("fullres");
    reveal_strlit("k");
    let a = hw_bitrate_args_spec(venc, vk);
    assert forall|n: int| (#[trigger] kbps_text(n)).last() == 'k' by {}
    let bv = "-b:v"@;
    let mr = "-maxrate"@;
    assert(bv.len() == 4 && bv[1] == 'b' && bv[3] == 'v' && mr.len() == 8 && mr[1] == 'm' && mr[0] == '-');
    assert("-c:v"@[1] == 'c' && "-bufsize"@[1] == 'b' && "vbr_peak"@[0] == 'v');
    assert("-bufsize"@.len() == 8 && "-bufsize"@[7] == 'e' && "-bufsize"@[0] == '-');
    assert(kbps_text(vk).last() == 'k' && kbps_text(peak_kbps(vk)).last() == 'k' && kbps_text(vk * 2).last() == 'k');
    assert forall|i: int| 0 <= i < a.len() implies (#[trigger] a[i] == "-b:v"@ ==> i + 1 < a.len() && a[i + 1] == kbps_text(vk))
        && (a[i] == "-maxrate"@ ==> i + 1 < a.len() && a[i + 1] == kbps_text(peak_kbps(vk)))
        && (a[i] == "-bufsize"@ ==> i + 1 < a.len() && a[i + 1] == kbps_text(vk * 2)) by {
        if venc.vendor == Vendor::Nvenc {
            // one case per position in the list
            if i == 0 {} else if i == 1 {} else if i == 2 {} else if i == 3 {} else
            if i == 4 {} else if i == 5 {} else if i == 6 {} else if i == 7 {} else
            if i == 8 {} else if i == 9 {} else if i == 10 {} else if i == 11 {} else
            if i == 12 {} else if i == 13 {}
        } else if venc.vendor == Vendor::Qsv {
            // one case per position in the list
            if i == 0 {} else if i == 1 {} else if i == 2 {} else if i == 3 {} else
            if i == 4 {} else if i == 5 {}
        } else {
            // one case per position in the list
            if i == 0 {} else if i == 1 {} else if i == 2 {} else if i == 3 {} else
            if i == 4 {} else if i == 5 {} else if i == 6 {} else if i == 7 {}
        }
    }
    if venc.vendor == Vendor::Nvenc {
        assert(a[6] == "-b:v"@ && a[8] == "-maxrate"@);
    } else if venc.vendor == Vendor::Qsv {
        assert(a[2] == "-b:v"@ && a[4] == "-maxrate"@);
    } else {
        assert(a[4] == "-b:v"@ && a[6] == "-maxrate"@);
    }
    if 0 <= vk <= i64::MAX / 2 {
        lemma_peak_not_below(vk as nat);
    }
}

/// `"<n>k"` for an integer bitrate.
pub fn kbps(n: i64) -> (r: String)
    ensures
        r@ == kbps_text(n as int),
{
    let mut s = i64_text(n);
    push_str(&mut s, "k");
    s
}

/// Hardware bitrate (target-size) args, vendor-specific single-pass VBR.
pub fn hw_bitrate_args(venc: &VideoEnc, vk: i64) -> (r: Vec<String>)
    requires
        i64::MIN <= 2 * vk <= i64::MAX,
    ensures
        strs(r@) == hw_bitrate_args_spec(venc@, vk as int),
{
    let mag: u64 = if vk >= 0 { vk as u64 } else if vk == i64::MIN { 0x8000_0000_0000_0000 } else { (-vk) as u64 };
    let pm = peak_mag_of(mag);
    let peak: i64 = if vk >= 0 {
        if pm > i64::MAX as u128 { i64::MAX } else { pm as i64 }
    } else {
        if pm > 0x8000_0000_0000_0000 { i64::MIN } else if pm == 0x8000_0000_0000_0000 { i64::MIN } else { -(pm as i64) }
    };
    assert(peak == peak_kbps(vk as int));
    let mut a: Vec<String> = Vec::new();
    match venc.vendor {
        Vendor::Nvenc => {
            push_lit(&mut a, "-c:v");
            push_lit(&mut a, venc.name);
            push_lit(&mut a, "-preset");
            push_lit(&mut a, "p6");
            push_lit(&mut a, "-rc");
            push_lit(&mut a, "vbr");
            push_lit(&mut a, "-b:v");
            push_string(&mut a, kbps(vk));
            push_lit(&mut a, "-maxrate");
            push_string(&mut a, kbps(peak));
            push_lit(&mut a, "-bufsize");
            push_string(&mut a, kbps(vk * 2));
            push_lit(&mut a, "-multipass");
            push_lit(&mut a, "fullres");
        },
        Vendor::Qsv => {
            push_lit(&mut a, "-c:v");
            push_lit(&mut a, venc.name);
            push_lit(&mut a, "-b:v");
            push_string(&mut a, kbps(vk));
            push_lit(&mut a, "-maxrate");
            push_string(&mut a, kbps(peak));
        },
        Vendor::Amf => {
            push_lit(&mut a, "-c:v");
            push_lit(&mut a, venc.name);
            push_lit(&mut a, "-rc");
            push_lit(&mut a, "vbr_peak");
            push_lit(&mut a, "-b:v");
            push_string(&mut a, kbps(vk));
            push_lit(&mut a, "-maxrate");
            push_string(&mut a, kbps(peak));
        },
        Vendor::Cpu => {},
    }
    assert(strs(a@) =~= hw_bitrate_args_spec(venc@, vk as int));
    a
}


/// No name occurs twice among the entries.
pub open spec fn distinct_keys(s: Seq<(String, bool)>) -> bool {
    forall|i: int, j: int|
        0 <= i < s.len() && 0 <= j < s.len() && i != j ==> (#[trigger] s[i]).0@ != (#[trigger] s[j]).0@
}

/// Entry `i` carries the name `k`.
pub open spec fn key_at(s: Seq<(String, bool)>, k: Seq<char>, i: int) -> bool {
    0 <= i < s.len() && s[i].0@ == k
}

/// The verdict of each name among the entries.
pub open spec fn entries_map(s: Seq<(String, bool)>) -> Map<Seq<char>, bool> {
    Map::new(
        |k: Seq<char>| exists|i: int| key_at(s, k, i),
        |k: Seq<char>| s[choose|i: int| key_at(s, k, i)].1,
    )
}

proof fn lemma_entries_map_at(s: Seq<(String, bool)>, i: int)
    requires
        distinct_keys(s),
        0 <= i < s.len(),
    ensures
        entries_map(s).contains_key(s[i].0@),
        entries_map(s)[s[i].0@] == s[i].1,
{
    assert(key_at(s, s[i].0@, i));
    let w = choose|w: int| key_at(s, s[i].0@, w);
    if w != i {
        assert(s[w].0@ != s[i].0@);
    }
}

proof fn lemma_entries_update(s: Seq<(String, bool)>, i: int, e: (String, bool))
    requires
        distinct_keys(s),
        0 <= i < s.len(),
        s[i].0@ == e.0@,
    ensures
        distinct_keys(s.update(i, e)),
        entries_map(s.update(i, e)) == entries_map(s).insert(e.0@, e.1),
{
    let t = s.update(i, e);
    assert forall|a: int, b: int| 0 <= a < t.len() && 0 <= b < t.len() && a != b
        implies (#[trigger] t[a]).0@ != (#[trigger] t[b]).0@ by {
        assert(s[a].0@ != s[b].0@);
    }
    let m = entries_map(s).insert(e.0@, e.1);
    assert forall|k: Seq<char>| #[trigger] entries_map(t).contains_key(k) == m.contains_key(k) by {
        if m.contains_key(k) {
            if k == e.0@ {
                assert(key_at(t, k, i));
            } else {
                let w = choose|w: int| key_at(s, k, w);
                assert(key_at(t, k, w));
            }
        }
        if entries_map(t).contains_key(k) {
            let w = choose|w: int| key_at(t, k, w);
            if w != i {
                assert(key_at(s, k, w));
            }
        }
    }
    assert forall|k: Seq<char>| entries_map(t).contains_key(k) implies #[trigger] entries_map(t)[k] == m[k] by {
        let w = choose|w: int| key_at(t, k, w);
        lemma_entries_map_at(t, w);
        if k != e.0@ {
            assert(w != i);
            lemma_entries_map_at(s, w);
        }
    }
    assert(entries_map(t) =~= m);
}

proof fn lemma_entries_push(s: Seq<(String, bool)>, e: (String, bool))
    requires
        distinct_keys(s),
        forall|j: int| 0 <= j < s.len() ==> s[j].0@ != e.0@,
    ensures
        distinct_keys(s.push(e)),
        entries_map(s.push(e)) == entries_map(s).insert(e.0@, e.1),
{
    let t = s.push(e);
    let n = s.len() as int;
    assert forall|a: int, b: int| 0 <= a < t.len() && 0 <= b < t.len() && a != b
        implies (#[trigger] t[a]).0@ != (#[trigger] t[b]).0@ by {
        if a < n && b < n {
            assert(s[a].0@ != s[b].0@);
        } else if a < n {
            assert(s[a].0@ != e.0@);
        } else {
            assert(s[b].0@ != e.0@);
        }
    }
    let m = entries_map(s).insert(e.0@, e.1);
    assert forall|k: Seq<char>| #[trigger] entries_map(t).contains_key(k) == m.contains_key(k) by {
        if m.contains_key(k) {
            if k == e.0@ {
                assert(key_at(t, k, n));
            } else {
                let w = choose|w: int| key_at(s, k, w);
                assert(key_at(t, k, w));
            }
        }
        if entries_map(t).contains_key(k) {
            let w = choose|w: int| key_at(t, k, w);
            if w != n {
                assert(key_at(s, k, w));
            }
        }
    }
    assert forall|k: Seq<char>| entries_map(t).contains_key(k) implies #[trigger] entries_map(t)[k] == m[k] by {
        let w = choose|w: int| key_at(t, k, w);
        lemma_entries_map_at(t, w);
        if k != e.0@ {
            assert(w != n);
            lemma_entries_map_at(s, w);
        }
    }
    assert(entries_map(t) =~= m);
}

/// Remembered probe verdicts, one per encoder name.
pub struct HwCache {
    entries: Vec<(String, bool)>,
}

impl HwCache {
    #[verifier::type_invariant]
    spec fn keys_distinct(self) -> bool {
        distinct_keys(self.entries@)
    }
}

impl View for HwCache {
    type V = Map<Seq<char>, bool>;

    closed spec fn view(&self) -> Map<Seq<char>, bool> {
        entries_map(self.entries@)
    }
}

impl HwCache {
    /// An empty cache.
    pub fn new() -> (c: HwCache)
        ensures
            c@ == Map::<Seq<char>, bool>::empty(),
    {
        let c = HwCache { entries: Vec::new() };
        assert(c@ =~= Map::<Seq<char>, bool>::empty());
        c
    }

    /// The remembered verdict for `encoder`, if any.
    pub fn lookup(&self, encoder: &str) -> (r: Option<bool>)
        ensures
            r == (if self@.contains_key(encoder@) { Some(self@[encoder@]) } else { None }),
    {
        proof {
            use_type_invariant(self);
        }
        let mut i: usize = 0;
        while i < self.entries.len()
            invariant
                i <= self.entries@.len(),
                distinct_keys(self.entries@),
                forall|j: int| 0 <= j < i ==> self.entries@[j].0@ != encoder@,
            decreases self.entries@.len() - i,
        {
            if str_eq(self.entries[i].0.as_str(), encoder) {
                proof {
                    lemma_entries_map_at(self.entries@, i as int);
                }
                return Some(self.entries[i].1);
            }
            i = i + 1;
        }
        proof {
            if self@.contains_key(encoder@) {
                let w = choose|w: int| key_at(self.entries@, encoder@, w);
                assert(self.entries@[w].0@ != encoder@);
            }
        }
        None
    }

    /// Remembers `ok` as the verdict for `encoder`, replacing an earlier one.
    pub fn record(&mut self, encoder: &str, ok: bool)
        ensures
            final(self)@ == old(self)@.insert(encoder@, ok),
    {
        proof {
            use_type_invariant(&*self);
        }
        let mut entries: Vec<(String, bool)> = Vec::new();
        std::mem::swap(&mut entries, &mut self.entries);
        let ghost e0 = entries@;
        let n = entries.len();
        let mut i: usize = 0;
        while i < n
            invariant
                n == entries@.len(),
                entries@ == e0,
                distinct_keys(e0),
                old(self)@ == entries_map(e0),
                i <= n,
                forall|j: int| 0 <= j < i ==> e0[j].0@ != encoder@,
            decreases n - i,
        {
            if str_eq(entries[i].0.as_str(), encoder) {
                let e = (owned(encoder), ok);
                proof {
                    lemma_entries_update(e0, i as int, e);
                }
                entries.set(i, e);
                self.entries = entries;
                return;
            }
            i = i + 1;
        }
        let e = (owned(encoder), ok);
        proof {
            lemma_entries_push(e0, e);
        }
        entries.push(e);
        self.entries = entries;
    }
}


/// The throwaway encode that tells whether `encoder` works on this machine:
/// a tenth of a second of black frames, encoded and discarded.
pub open spec fn hw_probe_args_spec(encoder: Seq<char>) -> Seq<Seq<char>> {
    seq![
        "-hide_banner"@, "-loglevel"@, "error"@, "-f"@, "lavfi"@, "-i"@,
        "color=c=black:s=256x256:d=0.1"@, "-c:v"@, encoder, "-f"@, "null"@, "-"@,
    ]
}

/// The ffmpeg arguments of the probe encode for `encoder`.
pub fn hw_probe_args(encoder: &str) -> (r: Vec<String>)
    ensures
        strs(r@) == hw_probe_args_spec(encoder@),
{
    let mut a: Vec<String> = Vec::new();
    push_lit(&mut a, "-hide_banner");
    push_lit(&mut a, "-loglevel");
    push_lit(&mut a, "error");
    push_lit(&mut a, "-f");
    push_lit(&mut a, "lavfi");
    push_lit(&mut a, "-i");
    push_lit(&mut a, "color=c=black:s=256x256:d=0.1");
    push_lit(&mut a, "-c:v");
    push_lit(&mut a, encoder);
    push_lit(&mut a, "-f");
    push_lit(&mut a, "null");
    push_lit(&mut a, "-");
    assert(strs(a@) =~= hw_probe_args_spec(encoder@));
    a
}

/// `probe`, run on the probe arguments for `name`, may answer `v`.
pub open spec fn probe_says<F: Fn(&Vec<String>) -> bool>(probe: F, name: Seq<char>, v: bool) -> bool {
    exists|a: &Vec<String>| strs(a@) == hw_probe_args_spec(name) && call_ensures(probe, (a,), v)
}

/// The verdict `v` for `name` is what the cache `m` remembers, or else what the probe answered.
pub open spec fn verdict<F: Fn(&Vec<String>) -> bool>(m: Map<Seq<char>, bool>, probe: F, name: Seq<char>, v: bool) -> bool {
    if m.contains_key(name) {
        m[name] == v
    } else {
        probe_says(probe, name, v)
    }
}

impl HwCache {
    /// Does this machine's ffmpeg encode with `encoder`? Answered from the cache when
    /// it was asked before; otherwise by running the probe once and remembering it.
    pub fn hw_ok<F: Fn(&Vec<String>) -> bool>(&mut self, encoder: &str, probe: &F) -> (r: bool)
        requires
            forall|a: &Vec<String>| call_requires(*probe, (a,)),
        ensures
            verdict(old(self)@, *probe, encoder@, r),
            final(self)@ == old(self)@.insert(encoder@, r),
    {
        match self.lookup(encoder) {
            Some(v) => {
                assert(old(self)@.insert(encoder@, v) =~= old(self)@);
                v
            },
            None => {
                let args = hw_probe_args(encoder);
                let ok = probe(&args);
                self.record(encoder, ok);
                ok
            },
        }
    }
}

/// The hardware encoders worth probing for a format, fastest first (NVIDIA, AMD, Intel),
/// with the family they produce. AMD's AV1 encoder is left out on purpose: its quality
/// scale differs, so AMD AV1 falls back to the CPU.
pub open spec fn hw_candidates(format: Seq<char>) -> (Family, Seq<(Vendor, Seq<char>)>) {
    if format == "mp4_h265"@ {
        (Family::Hevc, seq![(Vendor::Nvenc, "hevc_nvenc"@), (Vendor::Amf, "hevc_amf"@), (Vendor::Qsv, "hevc_qsv"@)])
    } else if format == "mp4_av1"@ {
        (Family::Av1, seq![(Vendor::Nvenc, "av1_nvenc"@), (Vendor::Qsv, "av1_qsv"@)])
    } else {
        (Family::H264, Seq::empty())
    }
}

/// The names of `c` are pairwise different.
pub open spec fn distinct_names(c: Seq<(Vendor, Seq<char>)>) -> bool {
    forall|i: int, j: int| 0 <= i < c.len() && 0 <= j < c.len() && i != j ==> (#[trigger] c[i]).1 != (#[trigger] c[j]).1
}

/// What `pick_encoder` settles on, given that the first `k` candidates were refused
/// and (when `k` is in range) candidate `k` was accepted.
pub open spec fn picked(format: Seq<char>, k: int) -> EncView {
    let (fam, c) = hw_candidates(format);
    if 0 <= k < c.len() {
        EncView { vendor: c[k].0, name: c[k].1, family: fam }
    } else {
        cpu_encoder_spec(format)
    }
}

/// Pick the fastest working encoder for the format: probe NVIDIA, then AMD, then Intel
/// hardware; fall back to the CPU. Verdicts are cached per encoder name.
pub fn pick_encoder<F: Fn(&Vec<String>) -> bool>(cache: &mut HwCache, format: &str, probe: &F) -> (r: VideoEnc)
    requires
        forall|a: &Vec<String>| call_requires(*probe, (a,)),
    ensures
        ({
            let c = hw_candidates(format@).1;
            exists|k: int|
                0 <= k <= c.len()
                && r@ == picked(format@, k)
                && (forall|j: int| 0 <= j < k ==> verdict(old(cache)@, *probe, #[trigger] c[j].1, false)
                    && final(cache)@.contains_key(c[j].1) && !final(cache)@[c[j].1])
                && (k < c.len() ==> verdict(old(cache)@, *probe, c[k].1, true)
                    && final(cache)@.contains_key(c[k].1) && final(cache)@[c[k].1])
                && (forall|key: Seq<char>| #[trigger] final(cache)@.contains_key(key) ==>
                    old(cache)@.contains_key(key) || exists|j: int| 0 <= j <= k && j < c.len() && c[j].1 == key)
                && (forall|key: Seq<char>| #[trigger] old(cache)@.contains_key(key) ==>
                    final(cache)@.contains_key(key) && final(cache)@[key] == old(cache)@[key])
        }),
{
    let ghost m0 = cache@;
    let h265 = str_eq(format, "mp4_h265");
    let av1 = str_eq(format, "mp4_av1");
    if !h265 && !av1 {
        let r = cpu_encoder(format);
        assert(picked(format@, 0) == cpu_encoder_spec(format@));
        return r;
    }
    let fam = if h265 { Family::Hevc } else { Family::Av1 };
    let mut cands: Vec<(Vendor, &'static str)> = Vec::new();
    if h265 {
        cands.push((Vendor::Nvenc, "hevc_nvenc"));
        cands.push((Vendor::Amf, "hevc_amf"));
        cands.push((Vendor::Qsv, "hevc_qsv"));
    } else {
        cands.push((Vendor::Nvenc, "av1_nvenc"));
        cands.push((Vendor::Qsv, "av1_qsv"));
    }
    let ghost c = hw_candidates(format@).1;
    proof {
        reveal_strlit("hevc_nvenc");
        reveal_strlit("hevc_amf");
        reveal_strlit("hevc_qsv");
        reveal_strlit("av1_nvenc");
        reveal_strlit("av1_qsv");
        assert(c.len() == cands@.len());
        assert(forall|j: int| 0 <= j < c.len() ==> c[j] == (#[trigger] cands@[j].0, cands@[j].1@));
        assert("hevc_nvenc"@[5] != "hevc_amf"@[5]);
        assert("hevc_nvenc"@[5] != "hevc_qsv"@[5]);
        assert("hevc_amf"@[5] != "hevc_qsv"@[5]);
        assert("av1_nvenc"@[4] != "av1_qsv"@[4]);
        assert(distinct_names(c));
    }
    let mut i: usize = 0;
    while i < cands.len()
        invariant
            c == hw_candidates(format@).1,
            fam == hw_candidates(format@).0,
            c.len() == cands@.len(),
            forall|j: int| 0 <= j < c.len() ==> c[j] == (#[trigger] cands@[j].0, cands@[j].1@),
            distinct_names(c),
            i <= cands@.len(),
            m0 == old(cache)@,
            forall|a: &Vec<String>| call_requires(*probe, (a,)),
            forall|j: int| 0 <= j < i ==> verdict(m0, *probe, #[trigger] c[j].1, false)
                && cache@.contains_key(c[j].1) && !cache@[c[j].1],
            forall|key: Seq<char>| #[trigger] cache@.contains_key(key) ==>
                m0.contains_key(key) || exists|j: int| 0 <= j < i && c[j].1 == key,
            forall|key: Seq<char>| #[trigger] m0.contains_key(key) ==>
                cache@.contains_key(key) && cache@[key] == m0[key],
        decreases cands@.len() - i,
    {
        let (v, name) = cands[i];
        let ghost before = cache@;
        proof {
            assert(c[i as int].1 == name@);
            if before.contains_key(name@) && !m0.contains_key(name@) {
                let j = choose|j: int| 0 <= j < i && c[j].1 == name@;
                assert(c[j].1 != c[i as int].1);
            }
        }
        let ok = cache.hw_ok(name, probe);
        proof {
            assert(verdict(m0, *probe, c[i as int].1, ok));
        }
        if ok {
            let r = VideoEnc { vendor: v, name, family: fam };
            assert(r@ == picked(format@, i as int));
            assert forall|key: Seq<char>| #[trigger] cache@.contains_key(key) implies
                m0.contains_key(key) || exists|j: int| 0 <= j <= i && j < c.len() && c[j].1 == key by {
                if key != name@ {
                    assert(before.contains_key(key));
                    if !m0.contains_key(key) {
                        let j = choose|j: int| 0 <= j < i && c[j].1 == key;
                        assert(0 <= j <= i && j < c.len() && c[j].1 == key);
                    }
                } else {
                    assert(c[i as int].1 == key);
                }
            }
            assert forall|j: int| 0 <= j < i implies verdict(m0, *probe, #[trigger] c[j].1, false)
                && cache@.contains_key(c[j].1) && !cache@[c[j].1] by {
                assert(c[j].1 != c[i as int].1);
            }
            return r;
        }
        proof {
            assert forall|key: Seq<char>| #[trigger] cache@.contains_key(key) implies
                m0.contains_key(key) || exists|j: int| 0 <= j < i + 1 && c[j].1 == key by {
                if key != name@ {
                    assert(before.contains_key(key));
                    if !m0.contains_key(key) {
                        let j = choose|j: int| 0 <= j < i && c[j].1 == key;
                        assert(0 <= j < i + 1 && c[j].1 == key);
                    }
                } else {
                    assert(c[i as int].1 == key);
                }
            }
            assert forall|j: int| 0 <= j < i + 1 implies verdict(m0, *probe, #[trigger] c[j].1, false)
                && cache@.contains_key(c[j].1) && !cache@[c[j].1] by {
                if j < i {
                    assert(c[j].1 != c[i as int].1);
                }
            }
        }
        i = i + 1;
    }
    let r = cpu_encoder(format);
    assert(r@ == picked(format@, c.len() as int));
    r
}

/// The encoders to try, in order: for a video on NVIDIA, hardware with GPU decoding,
/// then hardware with CPU decoding, then the CPU encoder; for other hardware, the
/// hardware encoder then the CPU encoder; otherwise (or for audio and GIF) the CPU
/// encoder alone. The flag asks for GPU decoding.
pub open spec fn attempts_spec(mode: Seq<char>, chosen: EncView, cpu: EncView) -> Seq<(EncView, bool)> {
    if mode != "video"@ {
        seq![(cpu, false)]
    } else if chosen.vendor == Vendor::Nvenc {
        seq![(chosen, true), (chosen, false), (cpu, false)]
    } else if chosen.vendor != Vendor::Cpu {
        seq![(chosen, false), (cpu, false)]
    } else {
        seq![(cpu, false)]
    }
}

/// The views of a list of attempts.
pub open spec fn attempt_views(v: Seq<(VideoEnc, bool)>) -> Seq<(EncView, bool)> {
    v.map_values(|a: (VideoEnc, bool)| (a.0@, a.1))
}

/// The fallback chain a conversion walks through when an encoder fails on its first pass.
pub fn encoder_attempts(mode: &str, chosen: VideoEnc, cpu: VideoEnc) -> (r: Vec<(VideoEnc, bool)>)
    ensures
        attempt_views(r@) == attempts_spec(mode@, chosen@, cpu@),
{
    let mut v: Vec<(VideoEnc, bool)> = Vec::new();
    if !str_eq(mode, "video") {
        v.push((cpu, false));
    } else if chosen.vendor == Vendor::Nvenc {
        v.push((chosen, true));
        v.push((chosen, false));
        v.push((cpu, false));
    } else if chosen.vendor != Vendor::Cpu {
        v.push((chosen, false));
        v.push((cpu, false));
    } else {
        v.push((cpu, false));
    }
    assert(attempt_views(v@) =~= attempts_spec(mode@, chosen@, cpu@));
    v
}

/// Every fallback chain is non-empty and ends with the CPU encoder, without GPU decoding;
/// GPU decoding is only ever asked of an NVIDIA encoder.
pub proof fn law_attempts_end_on_cpu(mode: Seq<char>, chosen: EncView, cpu: EncView)
    ensures
        attempts_spec(mode, chosen, cpu).len() >= 1,
        attempts_spec(mode, chosen, cpu).last() == (cpu, false),
        forall|i: int| 0 <= i < attempts_spec(mode, chosen, cpu).len()
            && (#[trigger] attempts_spec(mode, chosen, cpu)[i]).1
            ==> attempts_spec(mode, chosen, cpu)[i].0.vendor == Vendor::Nvenc,
{
}


/// A recorded verdict is what a later lookup gives, and recording one name leaves the
/// verdicts of all other names as they were.
pub proof fn law_cache_keeps_verdicts(before: Map<Seq<char>, bool>, name: Seq<char>, ok: bool, other: Seq<char>)
    ensures
        before.insert(name, ok).contains_key(name),
        before.insert(name, ok)[name] == ok,
        other != name ==> (before.insert(name, ok).contains_key(other) == before.contains_key(other)),
        other != name && before.contains_key(other) ==> before.insert(name, ok)[other] == before[other],
{
}

/// NVIDIA is probed first; AMD's AV1 encoder is never probed; formats other than H.265
/// and AV1 in MP4 go straight to the CPU.
pub proof fn law_candidate_order(format: Seq<char>)
    ensures
        hw_candidates(format).1.len() > 0 ==> hw_candidates(format).1[0].0 == Vendor::Nvenc,
        format == "mp4_av1"@ ==> forall|i: int| 0 <= i < hw_candidates(format).1.len()
            ==> (#[trigger] hw_candidates(format).1[i]).0 != Vendor::Amf,
        format != "mp4_h265"@ && format != "mp4_av1"@ ==> picked(format, 0) == cpu_encoder_spec(format),
{
    reveal_strlit("mp4_av1");
    reveal_strlit("mp4_h265");
    assert("mp4_av1"@[4] != "mp4_h265"@[4]);
}

} // verus!
