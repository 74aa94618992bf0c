//! What to start: the program, its arguments, and where its two output
//! streams go.

use vstd::prelude::*;

verus! {

/// Where an output stream of the child goes.
#[derive(Debug, Clone, Copy, PartialEq, Eq, Structural)]
pub enum StdioPolicy {
    /// To the launcher, which reads it.
    Captured,
    /// To the host's own stream, unmodified.
    Inherited,
}

/// The launch of one child. Nothing changes it once it is made.
#[derive(Debug)]
pub struct LaunchSpec {
    executable: String,
    args: Vec<String>,
    stdout: StdioPolicy,
    stderr: StdioPolicy,
}

/// A launch as a plain value.
pub struct LaunchSpecView {
    pub executable: Seq<char>,
    pub args: Seq<Seq<char>>,
    pub stdout: StdioPolicy,
    pub stderr: StdioPolicy,
}

impl View for LaunchSpec {
    type V = LaunchSpecView;

    closed spec fn view(&self) -> LaunchSpecView {
        LaunchSpecView {
            executable: self.executable@,
            args: self.args.deep_view(),
            stdout: self.stdout,
            stderr: self.stderr,
        }
    }
}

impl LaunchSpec {
    /// The launch of `executable` with `args`, passed on as they are. The
    /// child's standard output is captured, so that the handshake can read
    /// it; its standard error stays the host's own, so that its
    /// diagnostics remain visible.
    pub fn new(executable: String, args: Vec<String>) -> (r: LaunchSpec)
        ensures
            r@ == (LaunchSpecView {
                executable: executable@,
                args: args.deep_view(),
                stdout: StdioPolicy::Captured,
                stderr: StdioPolicy::Inherited,
            }),
    {
        LaunchSpec {
            executable,
            args,
            stdout: StdioPolicy::Captured,
            stderr: StdioPolicy::Inherited,
        }
    }

    /// The program to start.
    pub fn executable(&self) -> (r: &str)
        ensures
            r@ == self@.executable,
    {
        self.executable.as_str()
    }

    /// The arguments, in order.
    pub fn args(&self) -> (r: &Vec<String>)
        ensures
            r.deep_view() == self@.args,
    {
        &self.args
    }

    /// Where the child's standard output goes.
    pub fn stdout(&self) -> (r: StdioPolicy)
        ensures
            r == self@.stdout,
    {
        self.stdout
    }

    /// Where the child's standard error goes.
    pub fn stderr(&self) -> (r: StdioPolicy)
        ensures
            r == self@.stderr,
    {
        self.stderr
    }
}

} // verus!
