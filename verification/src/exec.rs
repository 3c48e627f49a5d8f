//! Running commands: the options, the captured output and how it is capped, previewed
//! and judged. Spawning and waiting belong to the caller.
use vstd::prelude::*;
use vstd::string::StringExecFns;
use crate::text::{trim, trim_chars, str_chars, string_from_chars, utf8_lossy, utf8_lossy_text};
use crate::proto::concat_all;

verus! {

/// Default timeout of a command, in seconds.
pub const DEFAULT_TIMEOUT_SECS: u64 = 15;

/// Default cap on each captured output stream.
pub const DEFAULT_MAX_OUTPUT_BYTES: usize = 32 * 1024;

/// Length of the output previews kept in a failed command's error.
pub const EXIT_PREVIEW_BYTES: usize = 512;

/// How a command is run: its timeout and the cap on each output stream.
#[derive(Debug, Clone, Copy, PartialEq, Eq)]
pub struct ExecOptions {
    /// Timeout in seconds.
    pub timeout_secs: u64,
    pub max_output_bytes: usize,
}

impl Default for ExecOptions {
    fn default() -> (r: Self)
        ensures
            r.timeout_secs == DEFAULT_TIMEOUT_SECS,
            r.max_output_bytes == DEFAULT_MAX_OUTPUT_BYTES,
    {
        ExecOptions { timeout_secs: DEFAULT_TIMEOUT_SECS, max_output_bytes: DEFAULT_MAX_OUTPUT_BYTES }
    }
}

/// Options of the status commands: 3 s, 32 KiB.
pub fn status_exec_options() -> (r: ExecOptions)
    ensures
        r.timeout_secs == 3,
        r.max_output_bytes == 32 * 1024,
{
    ExecOptions { timeout_secs: 3, max_output_bytes: 32 * 1024 }
}

/// Options of the Wi-Fi configuration commands: 20 s, 16 KiB.
pub fn wifi_exec_options() -> (r: ExecOptions)
    ensures
        r.timeout_secs == 20,
        r.max_output_bytes == 16 * 1024,
{
    ExecOptions { timeout_secs: 20, max_output_bytes: 16 * 1024 }
}

/// Options of the custom info polls: 10 s, 1 KiB.
pub fn custom_info_exec_options() -> (r: ExecOptions)
    ensures
        r.timeout_secs == 10,
        r.max_output_bytes == 1024,
{
    ExecOptions { timeout_secs: 10, max_output_bytes: 1024 }
}

/// Output bytes decoded lossily and trimmed.
pub fn lossy_trimmed(bytes: &[u8]) -> (r: String)
    ensures
        r@ == trim(utf8_lossy_text(bytes@)),
{
    let text = utf8_lossy(bytes);
    let chars = str_chars(text.as_str());
    let t = trim_chars(chars.as_slice());
    string_from_chars(t.as_slice())
}

/// What a finished command left: whether it exited successfully, its exit code, and
/// its captured (possibly capped) output streams.
#[derive(Debug, Clone)]
pub struct ExecOutput {
    pub success: bool,
    pub code: Option<i32>,
    pub stdout: Vec<u8>,
    pub stderr: Vec<u8>,
    pub stdout_truncated: bool,
    pub stderr_truncated: bool,
}

impl ExecOutput {
    /// The standard output, decoded lossily and trimmed.
    pub fn stdout_lossy(&self) -> (r: String)
        ensures
            r@ == trim(utf8_lossy_text(self.stdout@)),
    {
        lossy_trimmed(self.stdout.as_slice())
    }

    /// The standard error, decoded lossily and trimmed.
    pub fn stderr_lossy(&self) -> (r: String)
        ensures
            r@ == trim(utf8_lossy_text(self.stderr@)),
    {
        lossy_trimmed(self.stderr.as_slice())
    }
}

/// A preview of `bytes`: at most `max_len` bytes decoded lossily and trimmed, with
/// `...` after it when bytes were cut; empty when `max_len` is 0.
pub open spec fn preview_spec(bytes: Seq<u8>, max_len: usize) -> Seq<char> {
    if max_len == 0 {
        Seq::empty()
    } else if bytes.len() > max_len {
        trim(utf8_lossy_text(bytes.take(max_len as int))) + "..."@
    } else {
        trim(utf8_lossy_text(bytes))
    }
}

/// A short, human readable preview of command output.
pub fn preview_lossy(bytes: &[u8], max_len: usize) -> (r: String)
    ensures
        r@ == preview_spec(bytes@, max_len),
{
    if max_len == 0 {
        return String::new();
    }
    let truncated = bytes.len() > max_len;
    let slice = if truncated {
        vstd::slice::slice_subrange(bytes, 0, max_len)
    } else {
        bytes
    };
    assert(truncated ==> slice@ =~= bytes@.take(max_len as int));
    let s = lossy_trimmed(slice);
    if truncated {
        s.concat("...")
    } else {
        s
    }
}

/// The error details of a command that exited unsuccessfully.
#[derive(Debug, Clone, PartialEq, Eq)]
pub struct ExitFailure {
    pub code: Option<i32>,
    pub stdout_preview: String,
    pub stderr_preview: String,
}

/// Judge a finished command: its output when it exited successfully, else its exit
/// code with previews of its output.
pub fn check_exit(out: ExecOutput) -> (r: Result<ExecOutput, ExitFailure>)
    ensures
        out.success ==> r == Ok::<ExecOutput, ExitFailure>(out),
        !out.success ==> (r matches Err(f) && f.code == out.code
            && f.stdout_preview@ == preview_spec(out.stdout@, EXIT_PREVIEW_BYTES)
            && f.stderr_preview@ == preview_spec(out.stderr@, EXIT_PREVIEW_BYTES)),
{
    if out.success {
        return Ok(out);
    }
    Err(
        ExitFailure {
            code: out.code,
            stdout_preview: preview_lossy(out.stdout.as_slice(), EXIT_PREVIEW_BYTES),
            stderr_preview: preview_lossy(out.stderr.as_slice(), EXIT_PREVIEW_BYTES),
        },
    )
}

/// A command line: a program and its arguments, passed without a shell.
#[derive(Debug, Clone, PartialEq, Eq)]
pub struct CommandSpec {
    program: String,
    args: Vec<String>,
}

/// The text of a command line: the program, then each argument after a space.
pub open spec fn command_text(program: Seq<char>, args: Seq<Seq<char>>) -> Seq<char>
    decreases args.len(),
{
    if args.len() == 0 {
        program
    } else {
        command_text(program, args.drop_last()) + " "@ + args.last()
    }
}

/// The views of a list of strings.
pub open spec fn string_views(v: Seq<String>) -> Seq<Seq<char>> {
    v.map_values(|s: String| s@)
}

/// Owned copies of string slices.
pub fn string_list(parts: &[&str]) -> (r: Vec<String>)
    ensures
        string_views(r@) == parts@.map_values(|p: &str| p@),
{
    let mut out: Vec<String> = Vec::new();
    let mut i: usize = 0;
    while i < parts.len()
        invariant
            i <= parts@.len(),
            string_views(out@) == parts@.take(i as int).map_values(|p: &str| p@),
        decreases parts@.len() - i,
    {
        let ghost prev = string_views(out@);
        out.push(String::from_str(parts[i]));
        assert(string_views(out@) =~= prev.push(parts@[i as int]@));
        assert(parts@.take(i + 1).map_values(|p: &str| p@) =~= parts@.take(i as int).map_values(
            |p: &str| p@,
        ).push(parts@[i as int]@));
        i += 1;
    }
    assert(parts@.take(i as int) =~= parts@);
    out
}

impl CommandSpec {
    pub fn new(program: &str, args: Vec<String>) -> (r: Self)
        ensures
            r.program_spec() == program@,
            r.args_spec() == string_views(args@),
    {
        CommandSpec { program: String::from_str(program), args }
    }

    pub closed spec fn program_spec(&self) -> Seq<char> {
        self.program@
    }

    pub closed spec fn args_spec(&self) -> Seq<Seq<char>> {
        string_views(self.args@)
    }

    pub fn program(&self) -> (r: &str)
        ensures
            r@ == self.program_spec(),
    {
        self.program.as_str()
    }

    pub fn args(&self) -> (r: &[String])
        ensures
            string_views(r@) == self.args_spec(),
    {
        self.args.as_slice()
    }

    /// How the command is shown in messages.
    pub fn command_line(&self) -> (r: String)
        ensures
            r@ == command_text(self.program_spec(), self.args_spec()),
    {
        let ghost av = string_views(self.args@);
        let mut out = self.program.clone();
        let mut i: usize = 0;
        while i < self.args.len()
            invariant
                i <= self.args@.len(),
                av == string_views(self.args@),
                out@ == command_text(self.program@, av.take(i as int)),
            decreases self.args@.len() - i,
        {
            proof {
                assert(av.take(i + 1).drop_last() =~= av.take(i as int));
            }
            out = out.concat(" ").concat(self.args[i].as_str());
            i += 1;
        }
        assert(av.take(i as int) =~= av);
        out
    }
}

/// How many bytes of a chunk read from a stream are kept when `held` bytes are already
/// captured under the cap `cap`.
pub open spec fn kept_of(held: nat, chunk_len: nat, cap: nat) -> nat {
    if held < cap {
        if chunk_len < cap - held {
            chunk_len
        } else {
            (cap - held) as nat
        }
    } else {
        0
    }
}

/// Capture one chunk read from an output stream, keeping at most `cap` bytes in all;
/// says whether bytes of the chunk were dropped.
pub fn append_capped(buf: &mut Vec<u8>, chunk: &[u8], cap: usize) -> (truncated: bool)
    ensures
        final(buf)@ == old(buf)@ + chunk@.take(kept_of(old(buf)@.len(), chunk@.len(), cap as nat) as int),
        truncated == (kept_of(old(buf)@.len(), chunk@.len(), cap as nat) < chunk@.len()),
{
    if buf.len() < cap {
        let remaining = cap - buf.len();
        let take = if remaining < chunk.len() {
            remaining
        } else {
            chunk.len()
        };
        let mut part = vstd::slice::slice_to_vec(vstd::slice::slice_subrange(chunk, 0, take));
        assert(part@ =~= chunk@.take(take as int));
        buf.append(&mut part);
        take < chunk.len()
    } else {
        assert(chunk@.take(0) =~= Seq::<u8>::empty());
        assert(old(buf)@ + Seq::<u8>::empty() =~= old(buf)@);
        chunk.len() > 0
    }
}

/// What capturing the chunks one after the other leaves: the bytes kept, and whether
/// any byte was dropped.
pub open spec fn capture(chunks: Seq<Seq<u8>>, cap: nat) -> (Seq<u8>, bool)
    decreases chunks.len(),
{
    if chunks.len() == 0 {
        (Seq::empty(), false)
    } else {
        let (kept, dropped) = capture(chunks.drop_last(), cap);
        let k = kept_of(kept.len(), chunks.last().len(), cap);
        (kept + chunks.last().take(k as int), dropped || k < chunks.last().len())
    }
}

/// A capped capture keeps exactly the first `cap` bytes of the stream, and reports a
/// truncation exactly when the stream was longer than `cap`.
pub proof fn law_capture_keeps_prefix(chunks: Seq<Seq<u8>>, cap: nat)
    ensures
        capture(chunks, cap).0 == concat_all(chunks).take(
            if concat_all(chunks).len() < cap { concat_all(chunks).len() as int } else { cap as int },
        ),
        capture(chunks, cap).1 == (concat_all(chunks).len() > cap),
    decreases chunks.len(),
{
    if chunks.len() > 0 {
        let init = chunks.drop_last();
        let last = chunks.last();
        law_capture_keeps_prefix(init, cap);
        let all = concat_all(init);
        let (kept, dropped) = capture(init, cap);
        let k = kept_of(kept.len(), last.len(), cap);
        assert(concat_all(chunks) == all + last);
        if all.len() < cap {
            assert(kept =~= all);
            if last.len() < cap - all.len() {
                assert(kept + last.take(k as int) =~= (all + last).take((all + last).len() as int));
            } else {
                assert(kept + last.take(k as int) =~= (all + last).take(cap as int));
            }
        } else {
            assert(kept.len() == cap);
            assert(kept + last.take(0) =~= (all + last).take(cap as int));
        }
    }
}

} // verus!
