//! A `brew` process's output lines, and how its run ends: the exit status
//! decides, never what was written to stderr.
use crate::infrastructure::InfrastructureError;
use vstd::prelude::*;

verus! {

/// Which pipe a line came from.
#[derive(Clone, Copy, Debug, PartialEq, Eq, Structural)]
pub enum ProcessStream {
    Stdout,
    Stderr,
}

/// One line of a process's output.
#[derive(Clone, Debug, PartialEq, Eq)]
pub struct ProcessEvent {
    pub stream: ProcessStream,
    pub message: String,
}

/// What a finished process wrote: its lines joined with newlines.
#[derive(Debug)]
pub struct ProcessOutput {
    pub stdout: String,
    pub stderr: String,
}

/// Lines joined with `\n` between them.
pub open spec fn joined(lines: Seq<Seq<char>>) -> Seq<char>
    decreases lines.len(),
{
    if lines.len() == 0 {
        Seq::empty()
    } else if lines.len() == 1 {
        lines[0]
    } else {
        joined(lines.drop_last()) + seq!['\n'] + lines.last()
    }
}

/// Join lines with `\n` between them, as `[String]::join` does.
pub fn join_lines(lines: &Vec<String>) -> (r: String)
    ensures
        r@ == joined(lines@.map_values(|s: String| s@)),
{
    let ghost ls = lines@.map_values(|s: String| s@);
    let mut out: Vec<char> = Vec::new();
    let mut i: usize = 0;
    while i < lines.len()
        invariant
            i <= lines.len(),
            ls == lines@.map_values(|s: String| s@),
            out@ == joined(ls.take(i as int)),
        decreases lines.len() - i,
    {
        assert(ls.take(i + 1).drop_last() =~= ls.take(i as int));
        assert(ls.take(i + 1).last() == ls[i as int]);
        assert(ls[i as int] == lines@[i as int]@);
        if i > 0 {
            out.push('\n');
        }
        let line = crate::text::chars_of(lines[i].as_str());
        let ghost start = out@;
        let mut k: usize = 0;
        while k < line.len()
            invariant
                k <= line.len(),
                out@ =~= start + line@.take(k as int),
            decreases line.len() - k,
        {
            out.push(line[k]);
            k = k + 1;
        }
        assert(line@.take(k as int) =~= line@);
        if i == 0 {
            assert(ls.take(1) =~= seq![ls[0]]);
        }
        i = i + 1;
    }
    assert(ls.take(i as int) =~= ls);
    crate::text::from_chars(out.as_slice())
}

/// What one wait on a running process's output channel brought.
#[derive(Clone, Copy, Debug, PartialEq, Eq, Structural)]
pub enum Heard {
    /// A line arrived.
    Line,
    /// Nothing arrived in time; whether the child has exited and both pipe
    /// readers are done.
    Quiet { exited: bool, readers_done: bool },
    /// Both pipe readers hung up.
    Closed,
}

/// Whether the waiting loop kills the child now: cancellation was asked
/// and the child was not killed yet.
pub fn kill_now(cancelled: bool, killed: bool) -> (r: bool)
    ensures
        r == (cancelled && !killed),
{
    cancelled && !killed
}

/// Whether the wait on a process is over: its readers hung up, or all is
/// quiet, the child has exited and both readers are done.
pub fn wait_over(heard: Heard) -> (r: bool)
    ensures
        r == match heard {
            Heard::Line => false,
            Heard::Quiet { exited, readers_done } => exited && readers_done,
            Heard::Closed => true,
        },
{
    match heard {
        Heard::Line => false,
        Heard::Quiet { exited, readers_done } => exited && readers_done,
        Heard::Closed => true,
    }
}

/// How a run ends: cancelled if cancellation was requested, else its output
/// when the exit status is success, else a non-zero exit with the output and
/// the exit code.
pub fn run_outcome(
    program: String,
    cancelled: bool,
    success: bool,
    code: Option<i32>,
    stdout_lines: Vec<String>,
    stderr_lines: Vec<String>,
) -> (r: Result<ProcessOutput, InfrastructureError>)
    ensures
        cancelled ==> r matches Err(InfrastructureError::Cancelled),
        !cancelled && success ==> (r matches Ok(o) && o.stdout@ == joined(
            stdout_lines@.map_values(|s: String| s@),
        ) && o.stderr@ == joined(stderr_lines@.map_values(|s: String| s@))),
        !cancelled && !success ==> (r matches Err(
            InfrastructureError::NonZeroExit { program: p, code: c, stdout, stderr },
        ) && p@ == program@ && c == code && stdout@ == joined(
            stdout_lines@.map_values(|s: String| s@),
        ) && stderr@ == joined(stderr_lines@.map_values(|s: String| s@))),
{
    let output = ProcessOutput { stdout: join_lines(&stdout_lines), stderr: join_lines(&stderr_lines) };
    if cancelled {
        return Err(InfrastructureError::Cancelled);
    }
    if success {
        Ok(output)
    } else {
        Err(
            InfrastructureError::NonZeroExit {
                program,
                code,
                stdout: output.stdout,
                stderr: output.stderr,
            },
        )
    }
}

} // verus!
