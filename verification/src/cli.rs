//! The command line: two positional arguments, a directory and a pattern.

use vstd::prelude::*;
use crate::walk::Action;

verus! {

/// The text that tells how the program is called.
pub open spec fn usage_text() -> Seq<char> {
    "Usage: findAll <directory> <pattern>"@
}

/// The text that says that `path` is no directory.
pub open spec fn not_a_directory_text(path: Seq<char>) -> Seq<char> {
    "Error: '"@ + path + "' is not a directory"@
}

/// Why a run ends before anything is searched.
#[derive(Debug)]
pub enum CliError {
    /// Fewer than two arguments were given.
    Usage,
    /// The first argument, held here, is not a directory.
    NotADirectory(String),
}

impl CliError {
    /// The text of the message for this error.
    pub open spec fn text(&self) -> Seq<char> {
        match self {
            CliError::Usage => usage_text(),
            CliError::NotADirectory(path) => not_a_directory_text(path@),
        }
    }

    /// The message that is printed for this error.
    pub fn message(&self) -> (out: String)
        ensures
            out@ == self.text(),
    {
        match self {
            CliError::Usage => "Usage: findAll <directory> <pattern>".to_owned(),
            CliError::NotADirectory(path) => {
                let mut out = "Error: '".to_owned();
                out.append(path.as_str());
                out.append("' is not a directory");
                out
            },
        }
    }
}

/// What a run was asked for.
#[derive(Debug)]
pub struct Invocation {
    /// The directory under which files are searched.
    pub directory: String,
    /// The text that is looked for.
    pub pattern: String,
}

/// Reads the arguments, the program's name first. With fewer than two
/// arguments after the name the run is a usage error; further arguments
/// are ignored.
pub fn parse_args(args: &Vec<String>) -> (parsed: Result<Invocation, CliError>)
    ensures
        match parsed {
            Ok(invocation) => {
                &&& args@.len() >= 3
                &&& invocation.directory@ == args@[1]@
                &&& invocation.pattern@ == args@[2]@
            },
            Err(error) => args@.len() < 3 && error == CliError::Usage,
        },
{
    if args.len() < 3 {
        return Err(CliError::Usage);
    }
    Ok(Invocation { directory: args[1].clone(), pattern: args[2].clone() })
}

impl Invocation {
    /// How the search begins, given whether the file system has a
    /// directory at `self.directory`: by listing that directory, or not at
    /// all.
    pub fn first_action(&self, is_directory: bool) -> (first: Result<Action<String>, CliError>)
        ensures
            match first {
                Ok(action) => {
                    &&& is_directory
                    &&& action matches Action::List(path)
                    &&& path@ == self.directory@
                },
                Err(error) => {
                    &&& !is_directory
                    &&& error matches CliError::NotADirectory(path)
                    &&& path@ == self.directory@
                },
            },
    {
        if is_directory {
            Ok(Action::List(self.directory.clone()))
        } else {
            Err(CliError::NotADirectory(self.directory.clone()))
        }
    }
}

} // verus!
