//! The arguments of the command line, as plain values, and what a run
//! decides from them.
use crate::svg::RunOpts;
use vstd::prelude::*;

verus! {

/// A shell that completions can be generated for.
#[derive(Copy, Clone, Debug, PartialEq, Eq, Structural)]
pub enum Shell {
    Bash,
    Zsh,
    Fish,
    Pwsh,
    Elvish,
}

/// What the program is asked to do.
#[derive(Debug)]
pub enum Commands {
    /// Build, then build again whenever the inputs change.
    Watch,
    /// Build once.
    Build,
    /// Generate the completions of a shell into a directory.
    Completions { shell: Shell, out_dir: Option<String> },
    /// Generate the man page into a directory.
    Man { out_dir: Option<String> },
}

/// How much is logged.
#[derive(Copy, Clone, Debug, PartialEq, Eq, Structural)]
pub enum LogLevel {
    Error,
    Warn,
    Info,
    Debug,
    Trace,
}

/// The arguments of the command line.
#[derive(Debug)]
pub struct Args {
    /// The output file.
    pub file: String,
    /// The input directory.
    pub directory: String,
    /// Watch by polling.
    pub poll: bool,
    /// How long changes are gathered before a rebuild, in milliseconds.
    pub debounce_ms: u64,
    /// Log errors only.
    pub quiet: bool,
    /// Log what is done.
    pub verbose: bool,
    /// Validate, and write nothing.
    pub dry_run: bool,
    /// Take warnings as errors.
    pub fail_on_warn: bool,
    /// The log level, where it is given.
    pub log_level: Option<LogLevel>,
    /// The command, where one is given.
    pub command: Option<Commands>,
}

/// The options of a run, as the arguments give them.
pub fn to_run_opts(args: &Args) -> (r: RunOpts)
    ensures
        r == (RunOpts {
            quiet: args.quiet,
            verbose: args.verbose,
            dry_run: args.dry_run,
            fail_on_warn: args.fail_on_warn,
            debounce_ms: args.debounce_ms,
            poll: args.poll,
        }),
{
    RunOpts {
        quiet: args.quiet,
        verbose: args.verbose,
        dry_run: args.dry_run,
        fail_on_warn: args.fail_on_warn,
        debounce_ms: args.debounce_ms,
        poll: args.poll,
    }
}

/// The log level of a run: the one given; else errors only for a quiet run,
/// what is done for a verbose one, and warnings otherwise.
pub open spec fn chosen_level(log_level: Option<LogLevel>, quiet: bool, verbose: bool) -> LogLevel {
    match log_level {
        Some(level) => level,
        None => if quiet {
            LogLevel::Error
        } else if verbose {
            LogLevel::Info
        } else {
            LogLevel::Warn
        },
    }
}

/// The log level of a run with the arguments `args`.
pub fn effective_log_level(args: &Args) -> (r: LogLevel)
    ensures
        r == chosen_level(args.log_level, args.quiet, args.verbose),
{
    match args.log_level {
        Some(level) => level,
        None => if args.quiet {
            LogLevel::Error
        } else if args.verbose {
            LogLevel::Info
        } else {
            LogLevel::Warn
        },
    }
}

/// The name of a log level, as a filter takes it.
pub open spec fn level_text(level: LogLevel) -> Seq<char> {
    match level {
        LogLevel::Error => "error"@,
        LogLevel::Warn => "warn"@,
        LogLevel::Info => "info"@,
        LogLevel::Debug => "debug"@,
        LogLevel::Trace => "trace"@,
    }
}

/// The name of a log level, as a filter takes it.
pub fn level_name(level: LogLevel) -> (r: &'static str)
    ensures
        r@ == level_text(level),
{
    match level {
        LogLevel::Error => "error",
        LogLevel::Warn => "warn",
        LogLevel::Info => "info",
        LogLevel::Debug => "debug",
        LogLevel::Trace => "trace",
    }
}

} // verus!
