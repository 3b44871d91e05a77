//! Job bookkeeping: one conversion or download at a time, the pass-by-pass walk down the
//! encoder fallback chain, and the cached tool locations.
use vstd::prelude::*;
use crate::paths::{locate_tools, opt_chars, tool_found};
use crate::text::{owned, str_eq};

verus! {

/// Whether a conversion or download is running.
pub struct JobGate {
    active: bool,
}

impl View for JobGate {
    type V = bool;

    closed spec fn view(&self) -> bool {
        self.active
    }
}

/// The message of a refused job.
pub open spec fn busy_message() -> Seq<char> {
    "Another conversion or download is already running."@
}

impl JobGate {
    /// No job running.
    pub fn new() -> (g: JobGate)
        ensures
            !g@,
    {
        JobGate { active: false }
    }

    /// Whether a job is running.
    pub fn is_active(&self) -> (r: bool)
        ensures
            r == self@,
    {
        self.active
    }

    /// Takes the single job slot: refused while another job runs.
    pub fn claim_job(&mut self) -> (r: Result<(), String>)
        ensures
            final(self)@ == claim_spec(old(self)@).0,
            r is Ok == claim_spec(old(self)@).1,
            r matches Err(e) ==> e@ == busy_message(),
    {
        if self.active {
            return Err(owned("Another conversion or download is already running."));
        }
        self.active = true;
        Ok(())
    }

    /// Frees the slot when a job ends, however it ends.
    pub fn release(&mut self)
        ensures
            !final(self)@,
    {
        self.active = false;
    }
}

/// Claiming the slot: afterwards a job runs; the claim succeeds only when none ran.
pub open spec fn claim_spec(active: bool) -> (bool, bool) {
    (true, !active)
}

/// Only one job at a time: after a successful claim a second one is refused, and
/// after a release a claim succeeds again.
pub proof fn law_one_job_at_a_time(active: bool)
    ensures
        claim_spec(active).1 ==> !claim_spec(claim_spec(active).0).1,
        claim_spec(false).1,
{
}

/// How a pass of ffmpeg ended.
pub enum PassOutcome {
    Done,
    Cancelled,
    Failed(String),
}

/// What a conversion does next.
pub enum ConvertStep {
    /// Run pass `i` of the current attempt.
    RunPass(usize),
    /// Step down to attempt `i` of the fallback chain and start over.
    NextAttempt(usize),
    Finished,
    Cancelled,
    Error(String),
}

/// The next step after pass `idx` of `n_passes`, in attempt `attempt` of `n_attempts`:
/// a finished pass moves on or ends the job; a cancelled one cancels it; a failed first
/// pass steps down the chain while a later attempt is left and no cancel was asked,
/// and anything else that fails is an error.
pub open spec fn after_pass_spec(attempt: nat, n_attempts: nat, idx: nat, n_passes: nat, outcome: PassOutcome, cancel_requested: bool) -> ConvertStep {
    match outcome {
        PassOutcome::Done => if idx + 1 < n_passes { ConvertStep::RunPass((idx + 1) as usize) } else { ConvertStep::Finished },
        PassOutcome::Cancelled => ConvertStep::Cancelled,
        PassOutcome::Failed(e) => if idx == 0 && attempt + 1 < n_attempts && !cancel_requested {
            ConvertStep::NextAttempt((attempt + 1) as usize)
        } else {
            ConvertStep::Error(e)
        },
    }
}

/// Decides what follows a pass.
pub fn after_pass(attempt: usize, n_attempts: usize, idx: usize, n_passes: usize, outcome: PassOutcome, cancel_requested: bool) -> (r: ConvertStep)
    requires
        attempt < n_attempts,
        idx < n_passes,
    ensures
        r == after_pass_spec(attempt as nat, n_attempts as nat, idx as nat, n_passes as nat, outcome, cancel_requested),
{
    match outcome {
        PassOutcome::Done => if idx + 1 < n_passes { ConvertStep::RunPass(idx + 1) } else { ConvertStep::Finished },
        PassOutcome::Cancelled => ConvertStep::Cancelled,
        PassOutcome::Failed(e) => if idx == 0 && attempt + 1 < n_attempts && !cancel_requested {
            ConvertStep::NextAttempt(attempt + 1)
        } else {
            ConvertStep::Error(e)
        },
    }
}

/// The walk never leaves its bounds: a next pass is a pass of the same attempt, a next
/// attempt exists, and a step down only ever follows a failed first pass.
pub proof fn law_after_pass_in_bounds(attempt: nat, n_attempts: nat, idx: nat, n_passes: nat, outcome: PassOutcome, cancel_requested: bool)
    requires
        attempt < n_attempts,
        idx < n_passes,
        n_passes <= usize::MAX,
        n_attempts <= usize::MAX,
    ensures
        after_pass_spec(attempt, n_attempts, idx, n_passes, outcome, cancel_requested) matches ConvertStep::RunPass(i) ==> idx < i < n_passes,
        after_pass_spec(attempt, n_attempts, idx, n_passes, outcome, cancel_requested) matches ConvertStep::NextAttempt(a) ==>
            a == attempt + 1 && a < n_attempts && idx == 0 && outcome is Failed && !cancel_requested,
{
}

/// The error of a conversion that ended without output.
pub open spec fn empty_output_message() -> Seq<char> {
    "FFmpeg finished without creating a usable output file."@
}

/// What follows a finished conversion whose output holds `out_size` bytes: an empty
/// output is an error; otherwise the original goes to the recycle bin when asked, the
/// output size is positive, and input and output differ; the output keeps its name.
pub fn finish_plan(input: &str, output: &str, delete_original: bool, out_size: u64) -> (r: Result<(bool, String), String>)
    ensures
        out_size == 0 ==> (r matches Err(e) && e@ == empty_output_message()),
        out_size > 0 ==> (r matches Ok((recycle, out)) && out@ == output@
            && recycle == (delete_original && input@ != output@)),
{
    if out_size == 0 {
        return Err(owned("FFmpeg finished without creating a usable output file."));
    }
    let recycle = delete_original && !str_eq(input, output);
    Ok((recycle, owned(output)))
}

/// Where ffmpeg and ffprobe were found, once looked up.
pub struct ToolPaths {
    pub ffmpeg: Option<String>,
    pub ffprobe: Option<String>,
}

/// What the UI is told about ffmpeg.
pub struct FfmpegStatus {
    pub present: bool,
    /// found on the PATH rather than bundled
    pub on_path: bool,
    pub ffmpeg: Option<String>,
}

impl ToolPaths {
    /// Nothing looked up yet.
    pub fn new() -> (t: ToolPaths)
        ensures
            t.ffmpeg is None,
            t.ffprobe is None,
    {
        ToolPaths { ffmpeg: None, ffprobe: None }
    }

    /// Looks both tools up again and remembers what was found.
    pub fn check_ffmpeg<F: Fn(&str) -> bool, G: Fn(&str) -> bool>(&mut self, bin_dir: &str, sep: char, is_file: &F, runs: &G) -> (r: FfmpegStatus)
        requires
            forall|s: &str| call_requires(*is_file, (s,)),
            forall|s: &str| call_requires(*runs, (s,)),
        ensures
            tool_found(*is_file, *runs, bin_dir@, sep, "ffmpeg.exe"@, "ffmpeg"@, opt_chars(final(self).ffmpeg)),
            tool_found(*is_file, *runs, bin_dir@, sep, "ffprobe.exe"@, "ffprobe"@, opt_chars(final(self).ffprobe)),
            opt_chars(r.ffmpeg) == opt_chars(final(self).ffmpeg),
            r.present == final(self).ffmpeg is Some,
            r.on_path == (opt_chars(final(self).ffmpeg) == Some("ffmpeg"@)),
    {
        let (m, p) = locate_tools(bin_dir, sep, is_file, runs);
        let on_path = match &m {
            Some(x) => str_eq(x.as_str(), "ffmpeg"),
            None => false,
        };
        self.ffmpeg = m.clone();
        self.ffprobe = p;
        FfmpegStatus { present: m.is_some(), on_path, ffmpeg: m }
    }

    /// The ffmpeg to run: the remembered one, else looked up (both tools are remembered).
    pub fn stored_ffmpeg<F: Fn(&str) -> bool, G: Fn(&str) -> bool>(&mut self, bin_dir: &str, sep: char, is_file: &F, runs: &G) -> (r: Result<String, String>)
        requires
            forall|s: &str| call_requires(*is_file, (s,)),
            forall|s: &str| call_requires(*runs, (s,)),
        ensures
            old(self).ffmpeg is Some ==> *final(self) == *old(self) && (r matches Ok(p) && Some(p@) == opt_chars(old(self).ffmpeg)),
            old(self).ffmpeg is None ==> {
                &&& tool_found(*is_file, *runs, bin_dir@, sep, "ffmpeg.exe"@, "ffmpeg"@, opt_chars(final(self).ffmpeg))
                &&& tool_found(*is_file, *runs, bin_dir@, sep, "ffprobe.exe"@, "ffprobe"@, opt_chars(final(self).ffprobe))
                &&& match r {
                    Ok(p) => opt_chars(final(self).ffmpeg) == Some(p@),
                    Err(e) => final(self).ffmpeg is None && e@ == "ffmpeg not found - let Meowverter download it first."@,
                }
            },
    {
        match &self.ffmpeg {
            Some(p) => return Ok(p.clone()),
            None => {},
        }
        let (m, p) = locate_tools(bin_dir, sep, is_file, runs);
        self.ffmpeg = m.clone();
        self.ffprobe = p;
        match m {
            Some(x) => Ok(x),
            None => Err(owned("ffmpeg not found - let Meowverter download it first.")),
        }
    }

    /// The ffprobe to run: the remembered one, else looked up (both tools are remembered).
    pub fn stored_ffprobe<F: Fn(&str) -> bool, G: Fn(&str) -> bool>(&mut self, bin_dir: &str, sep: char, is_file: &F, runs: &G) -> (r: Result<String, String>)
        requires
            forall|s: &str| call_requires(*is_file, (s,)),
            forall|s: &str| call_requires(*runs, (s,)),
        ensures
            old(self).ffprobe is Some ==> *final(self) == *old(self) && (r matches Ok(p) && Some(p@) == opt_chars(old(self).ffprobe)),
            old(self).ffprobe is None ==> {
                &&& tool_found(*is_file, *runs, bin_dir@, sep, "ffmpeg.exe"@, "ffmpeg"@, opt_chars(final(self).ffmpeg))
                &&& tool_found(*is_file, *runs, bin_dir@, sep, "ffprobe.exe"@, "ffprobe"@, opt_chars(final(self).ffprobe))
                &&& match r {
                    Ok(p) => opt_chars(final(self).ffprobe) == Some(p@),
                    Err(e) => final(self).ffprobe is None && e@ == "ffprobe not found - let Meowverter download it first."@,
                }
            },
    {
        match &self.ffprobe {
            Some(p) => return Ok(p.clone()),
            None => {},
        }
        let (m, p) = locate_tools(bin_dir, sep, is_file, runs);
        self.ffmpeg = m;
        self.ffprobe = p.clone();
        match p {
            Some(x) => Ok(x),
            None => Err(owned("ffprobe not found - let Meowverter download it first.")),
        }
    }
}

} // verus!
