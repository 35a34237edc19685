//! The rules on command-line choices: which input and output options may be
//! combined, and what `--all` turns on.

use vstd::prelude::*;
use crate::config::FileArgs;

verus! {

/// Where input is read from and output written to.
#[derive(Debug, Default)]
pub struct Args {
    /// One input file (standard input when absent).
    pub input: Option<String>,
    /// A directory tree of configurations and inputs.
    pub input_dir: Option<String>,
    /// One output file (standard output when absent).
    pub output: Option<String>,
    /// The directory tree that mirrors `input_dir`.
    pub output_dir: Option<String>,
}

/// A combination of options that makes no sense.
#[derive(Debug, PartialEq, Eq)]
pub enum UsageError {
    /// `--input` together with `--input_dir`.
    InputAndInputDir,
    /// `--output` together with `--output_dir`.
    OutputAndOutputDir,
    /// `--input_dir` without `--output_dir`.
    InputDirWithoutOutputDir,
}

/// Accepts `a` unless it combines options that exclude each other, checked in
/// the order of the variants of `UsageError`.
pub fn check_args(a: &Args) -> (r: Result<(), UsageError>)
    ensures
        a.input is Some && a.input_dir is Some ==> r == Err::<(), UsageError>(
            UsageError::InputAndInputDir,
        ),
        !(a.input is Some && a.input_dir is Some) && a.output is Some && a.output_dir is Some
            ==> r == Err::<(), UsageError>(UsageError::OutputAndOutputDir),
        !(a.input is Some && a.input_dir is Some) && !(a.output is Some && a.output_dir is Some)
            && a.input_dir is Some && a.output_dir is None ==> r == Err::<(), UsageError>(
            UsageError::InputDirWithoutOutputDir,
        ),
        r is Ok <==> !(a.input is Some && a.input_dir is Some) && !(a.output is Some
            && a.output_dir is Some) && !(a.input_dir is Some && a.output_dir is None),
{
    if a.input.is_some() && a.input_dir.is_some() {
        return Err(UsageError::InputAndInputDir);
    }
    if a.output.is_some() && a.output_dir.is_some() {
        return Err(UsageError::OutputAndOutputDir);
    }
    if a.input_dir.is_some() && a.output_dir.is_none() {
        return Err(UsageError::InputDirWithoutOutputDir);
    }
    Ok(())
}

impl FileArgs {
    /// Turns on every capability, as `--all` does.
    pub fn enable_all(&mut self)
        ensures
            final(self).default,
            final(self).display,
            final(self).fromprimative,
            final(self).fromstr,
            final(self).pretty_fmt,
            final(self).name == old(self).name,
            final(self).derive == old(self).derive,
            final(self).define == old(self).define,
            final(self).hex == old(self).hex,
    {
        self.default = true;
        self.display = true;
        self.fromprimative = true;
        self.fromstr = true;
        self.pretty_fmt = true;
    }
}

} // verus!
