//! Core of a bulk file-renaming tool.
//!
//! A user-supplied template containing exactly one placeholder — `{id}` for a
//! sequential number or `{s}` for a line taken from a list file — is validated
//! against a small grammar, the names of the directory entries are put into a
//! deterministic (lexicographic) order, and a rename plan is computed: one
//! `(from, to)` pair per entry.  Performing the renames, and all other I/O,
//! is left to the surrounding program.

use vstd::prelude::*;

pub mod lines;
pub mod numeral;
pub mod order;
pub mod plan;
pub mod template;

use crate::lines::split_lines;
use crate::order::views;
use crate::plan::{
    index_plan_ok, list_plan_ok, plan_with_index, plan_with_list, RenamePair, RunError,
};
use crate::template::{valid_as, valid_template, validate_template, Placeholder};

verus! {

/// An invocation that asks for text instead of a renaming run.
#[derive(Clone, Copy, Debug, PartialEq, Eq, Structural)]
pub enum SpecialCommand {
    /// No argument beyond the program name: show the version banner.
    Version,
    /// The single argument `help`: show the usage text.
    Help,
}

/// Decide whether the raw arguments (program name first) ask for the
/// version banner or the help text rather than a renaming run.
pub fn special_command(args: &Vec<String>) -> (r: Option<SpecialCommand>)
    ensures
        r == Some(SpecialCommand::Version) <==> args@.len() <= 1,
        r == Some(SpecialCommand::Help) <==> args@.len() == 2 && args@[1]@ == "help"@,
        r is None <==> args@.len() >= 3 || (args@.len() == 2 && args@[1]@ != "help"@),
{
    if args.len() <= 1 {
        return Some(SpecialCommand::Version);
    }
    let help = String::from_str("help");
    if args.len() == 2 && args[1] == help {
        return Some(SpecialCommand::Help);
    }
    None
}

/// A configuration error: the run never touches the filesystem.
#[derive(Debug)]
pub enum ConfigError {
    /// No template argument was given.
    MissingFormat,
    /// The template argument does not match the grammar.
    InvalidFormat,
    /// The template uses `{s}` but no list-file path was given.
    MissingListPath,
}

impl ConfigError {
    /// The single human-readable line reported for this error.
    pub fn message(&self) -> (r: String)
        ensures
            self is MissingFormat ==> r@ == "Please specify the renaming format"@,
            self is InvalidFormat ==> r@ == "The format syntax is invalid"@,
            self is MissingListPath ==> r@
                == "Please provide the path to a list when using the {s} input type"@,
    {
        match self {
            ConfigError::MissingFormat => String::from_str("Please specify the renaming format"),
            ConfigError::InvalidFormat => String::from_str("The format syntax is invalid"),
            ConfigError::MissingListPath => String::from_str(
                "Please provide the path to a list when using the {s} input type",
            ),
        }
    }
}

/// A validated run configuration: the template, its placeholder kind,
/// and the list-file path if one was given.  When the template uses
/// `{id}`, a path may still be present; it is ignored by the run.
pub struct Config {
    pub fmt: String,
    pub kind: Placeholder,
    pub list_path: Option<String>,
}

impl Config {
    /// The configuration invariant: the template is valid for the
    /// recorded kind, and an `{s}` template comes with a path.
    pub open spec fn wf(self) -> bool {
        &&& valid_as(self.fmt@, self.kind)
        &&& self.kind is Substitution ==> self.list_path is Some
    }

    /// Build a configuration from the process arguments: the first is
    /// the program name, the second the template, the optional third
    /// the list-file path.
    pub fn build(args: Vec<String>) -> (r: Result<Config, ConfigError>)
        ensures
            args@.len() < 2 ==> (r matches Err(e) && e is MissingFormat),
            args@.len() >= 2 && !valid_template(args@[1]@) ==> (r matches Err(e)
                && e is InvalidFormat),
            args@.len() >= 2 && valid_as(args@[1]@, Placeholder::Substitution) && args@.len() < 3
                ==> (r matches Err(e) && e is MissingListPath),
            r is Ok <==> args@.len() >= 2 && valid_template(args@[1]@) && (valid_as(
                args@[1]@,
                Placeholder::Id,
            ) || args@.len() >= 3),
            r matches Ok(c) ==> {
                &&& c.wf()
                &&& args@.len() >= 2
                &&& c.fmt@ == args@[1]@
                &&& valid_as(args@[1]@, c.kind)
                &&& (args@.len() >= 3 ==> (c.list_path matches Some(p) && p@ == args@[2]@))
                &&& (args@.len() < 3 ==> c.list_path is None)
            },
    {
        if args.len() < 2 {
            return Err(ConfigError::MissingFormat);
        }
        let fmt = args[1].clone();
        match validate_template(fmt.as_str()) {
            None => Err(ConfigError::InvalidFormat),
            Some(kind) => {
                proof {
                    crate::template::lemma_kind_unique(fmt@);
                }
                let list_path: Option<String> = if args.len() >= 3 {
                    Some(args[2].clone())
                } else {
                    None
                };
                match (kind, &list_path) {
                    (Placeholder::Substitution, Option::None) => Err(
                        ConfigError::MissingListPath,
                    ),
                    _ => Ok(Config { fmt, kind, list_path }),
                }
            },
        }
    }
}

/// Compute the rename plan of one run.  `names` are the directory
/// entries as read (in any order); `content` is the list file's text,
/// present whenever the template uses `{s}`.  For an `{id}` template a
/// plan always comes back; for an `{s}` template the run fails exactly
/// when the record count differs from the entry count, and then plans
/// no rename at all.
pub fn run(config: &Config, names: Vec<String>, content: Option<String>) -> (r: Result<
    Vec<RenamePair>,
    RunError,
>)
    requires
        config.wf(),
        config.kind is Substitution ==> content is Some,
    ensures
        config.kind is Id ==> (r matches Ok(plan) && index_plan_ok(
            config.fmt@,
            views(names@),
            plan@,
        )),
        config.kind is Substitution ==> {
            let records = split_lines(content->0@);
            &&& (r is Err <==> records.len() != names@.len())
            &&& (r matches Err(e) ==> e is CountMismatch)
            &&& (r matches Ok(plan) ==> list_plan_ok(config.fmt@, views(names@), records, plan@))
        },
{
    match config.kind {
        Placeholder::Id => Ok(plan_with_index(config.fmt.as_str(), names)),
        Placeholder::Substitution => {
            let text = content.unwrap();
            plan_with_list(config.fmt.as_str(), names, text.as_str())
        },
    }
}

} // verus!
