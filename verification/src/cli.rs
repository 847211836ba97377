//! The command line: its options, its subcommands, and how verbosity sets
//! the log.

use vstd::prelude::*;
use crate::text::{split_whitespace, words_of};

verus! {

/// A filesystem path of std.
#[verifier::external_type_specification]
#[verifier::external_body]
pub struct ExPathBuf(std::path::PathBuf);

/// The options of the command line.
#[derive(Debug)]
pub struct Config {
    /// How chatty the log is (`-v`, `-vv`, `-vvv`).
    pub verbose: u8,
    /// How many lines to print.
    pub number: usize,
    /// Where the theme lists are.
    pub themes_path: std::path::PathBuf,
    /// The theme lists to use; those preceded by `'!'` are excluded.
    pub themes: Vec<String>,
    /// Where the adjective lists are.
    pub adjectives_path: std::path::PathBuf,
    /// The adjective lists to use; those preceded by `'!'` are excluded.
    pub adjs: Vec<String>,
    /// The template of the word-list generator.
    pub template: String,
    /// The templates of the template-driven generator.
    pub templates: Vec<String>,
    /// Whether to use the word-list generator.
    pub legacy: bool,
    /// The case-insensitive prefix entries must start with.
    pub pattern: Option<String>,
    /// The subcommand, if any.
    pub cmd: Option<Command>,
}

/// A subcommand.
#[derive(Debug)]
pub enum Command {
    /// Add entries to a list, or create a new list.
    Add(Edit),
    /// Delete entries from a list.
    Delete(Edit),
}

/// The arguments of a subcommand: a list, the entries, and which directory.
#[derive(Debug)]
pub struct Edit {
    /// The list to edit.
    pub theme: String,
    entries: Vec<String>,
    /// Whether the list is an adjective list rather than a theme list.
    pub adjs: bool,
}

impl Edit {
    /// The entries given on the command line.
    pub closed spec fn given(&self) -> Seq<Seq<char>> {
        self.entries@.map_values(|e: String| e@)
    }

    /// The list to edit.
    pub closed spec fn list_name(&self) -> Seq<char> {
        self.theme@
    }

    /// Whether the list is an adjective list.
    pub closed spec fn on_adjectives(&self) -> bool {
        self.adjs
    }

    /// Arguments for the list `theme` with the given entries.
    pub fn new(theme: String, entries: Vec<String>, adjs: bool) -> (e: Edit)
        ensures
            e.list_name() == theme@,
            e.on_adjectives() == adjs,
            e.given() == entries@.map_values(|s: String| s@),
    {
        Edit { theme, entries, adjs }
    }

    /// The entries given on the command line.
    pub fn given_entries(&self) -> (r: &Vec<String>)
        ensures
            r@.map_values(|s: String| s@) == self.given(),
    {
        &self.entries
    }

    /// Whether no entry was given, so that they are read from the input.
    pub fn reads_input(&self) -> (b: bool)
        ensures
            b == (self.given().len() == 0),
    {
        self.entries.len() == 0
    }

    /// The entries: those given, or else the white-space separated words of
    /// `input` (the standard input).
    pub fn entries(&self, input: &str) -> (r: Vec<String>)
        ensures
            r@.map_values(|s: String| s@) == if self.given().len() == 0 { words_of(input@) } else { self.given() },
    {
        if self.entries.len() == 0 {
            split_whitespace(input)
        } else {
            let mut r: Vec<String> = Vec::new();
            let mut i: usize = 0;
            while i < self.entries.len()
                invariant
                    i <= self.entries@.len(),
                    r@.map_values(|s: String| s@) == self.given().take(i as int),
                decreases self.entries@.len() - i,
            {
                let ghost before = r@;
                r.push(self.entries[i].clone());
                assert(r@.map_values(|s: String| s@) =~= before.map_values(|s: String| s@).push(self.entries@[i as int]@));
                i = i + 1;
                assert(self.given().take(i as int) =~= self.given().take(i - 1).push(self.entries@[i - 1]@));
            }
            assert(self.given().take(self.entries@.len() as int) == self.given());
            r
        }
    }
}

/// The least severe log level shown.
#[derive(Debug, PartialEq, Eq, Structural)]
pub enum LogLevel {
    Info,
    Debug,
    Trace,
}

/// How the log is set up.
#[derive(Debug, PartialEq, Eq, Structural)]
pub struct LogSettings {
    /// The least severe level shown.
    pub level: LogLevel,
    /// Whether lines go without timestamp and module path.
    pub plain: bool,
}

/// The log for a verbosity: plain INFO by default, INFO with `-v`, DEBUG with
/// `-vv`, TRACE with more.
pub fn log_settings(verbose: u8) -> (s: LogSettings)
    ensures
        verbose == 0 ==> s == (LogSettings { level: LogLevel::Info, plain: true }),
        verbose == 1 ==> s == (LogSettings { level: LogLevel::Info, plain: false }),
        verbose == 2 ==> s == (LogSettings { level: LogLevel::Debug, plain: false }),
        verbose >= 3 ==> s == (LogSettings { level: LogLevel::Trace, plain: false }),
{
    match verbose {
        0 => LogSettings { level: LogLevel::Info, plain: true },
        1 => LogSettings { level: LogLevel::Info, plain: false },
        2 => LogSettings { level: LogLevel::Debug, plain: false },
        _ => LogSettings { level: LogLevel::Trace, plain: false },
    }
}

/// Whether a run lists random lines rather than editing a list.
pub fn lists_lines(config: &Config) -> (b: bool)
    ensures
        b == (config.cmd is None),
{
    config.cmd.is_none()
}

} // verus!
