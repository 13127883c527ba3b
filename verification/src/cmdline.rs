//! What the command line says.

use crate::logging::Opt;
use vstd::prelude::*;

verus! {

/// What the program is asked to do.
#[derive(Clone, Copy, Debug, PartialEq, Eq, Structural)]
pub enum Command {
    /// Print a configuration to show what one looks like.
    ExampleConf,
    /// Serve requests.
    Serve,
}

/// The arguments of the program.
#[derive(Clone, Debug, PartialEq, Eq)]
pub struct CommandArgs {
    /// The path of the configuration file.
    pub config: Option<String>,
    /// Whether to log the configuration once it is loaded.
    pub dump_config: bool,
    pub cmd: Command,
    pub logging: Opt,
}

pub open spec fn text_of(s: Option<String>) -> Option<Seq<char>> {
    match s {
        Some(s) => Some(s@),
        None => None,
    }
}

/// Where a configuration file is looked for: the path given on the command
/// line, else the one given by the environment, else the one at the usual
/// place, where there is one.
pub open spec fn chosen_path(
    given: Option<Seq<char>>,
    environment: Option<Seq<char>>,
    usual: Option<Seq<char>>,
) -> Option<Seq<char>> {
    if given is Some {
        given
    } else if environment is Some {
        environment
    } else {
        usual
    }
}

impl CommandArgs {
    /// Where the configuration file is looked for, given the path that the
    /// environment names and the file at the usual place, if there is one.
    pub fn config_path(&self, environment: Option<String>, usual: Option<String>) -> (path: Option<
        String,
    >)
        ensures
            text_of(path) == chosen_path(
                text_of(self.config),
                text_of(environment),
                text_of(usual),
            ),
    {
        match &self.config {
            Some(given) => Some(given.clone()),
            None => {
                if environment.is_some() {
                    environment
                } else {
                    usual
                }
            },
        }
    }
}

} // verus!
