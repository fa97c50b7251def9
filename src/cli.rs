use vstd::prelude::*;
use crate::lex_simple::same_text;
use crate::text_util::string_of;

verus! {

/// What the command line asks for.
#[derive(Clone, PartialEq, Eq, Debug)]
pub enum CliCommand {
    /// Print the usage text and exit with this status.
    PrintHelp(i32),
    PrintVersion,
    /// Run the file at this path, once the caller has seen that it is a file.
    InterpretFile(String),
    RunRepl,
}

/// The command that `args` (program name first) asks for. `--help` and `-h`
/// ask for help with status 0, `--version` and `v` for the version, `repl`
/// for the interactive loop, and `run FILE` for running a file; no argument
/// asks for help with status 1, anything else with status 2.
pub fn parse_cli_args(args: &[String]) -> (r: CliCommand)
    ensures
        args@.len() <= 1 ==> r == CliCommand::PrintHelp(1),
        args@.len() > 1 ==> {
            let first = args@[1]@;
            if first == "--help"@ || first == "-h"@ {
                r == CliCommand::PrintHelp(0)
            } else if first == "--version"@ || first == "v"@ {
                r == CliCommand::PrintVersion
            } else if first == "repl"@ {
                r == CliCommand::RunRepl
            } else if first == "run"@ && args@.len() == 3 {
                r matches CliCommand::InterpretFile(path) && path@ == args@[2]@
            } else {
                r == CliCommand::PrintHelp(2)
            }
        },
{
    if args.len() <= 1 {
        return CliCommand::PrintHelp(1);
    }
    let first_arg = &args[1];
    if same_text(first_arg, "--help") || same_text(first_arg, "-h") {
        return CliCommand::PrintHelp(0);
    }
    if same_text(first_arg, "--version") || same_text(first_arg, "v") {
        return CliCommand::PrintVersion;
    }
    if same_text(first_arg, "repl") {
        return CliCommand::RunRepl;
    }
    if same_text(first_arg, "run") && args.len() == 3 {
        return CliCommand::InterpretFile(string_of(args[2].as_str()));
    }
    CliCommand::PrintHelp(2)
}

} // verus!
