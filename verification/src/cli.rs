//! Command-line decision logic: which command a raw argument list selects.
//! Reading the arguments in and reacting to the decision (printing help,
//! exiting) belong to the surrounding program, not to this library.

use vstd::prelude::*;

verus! {

/// Command to run.
#[derive(Debug, Clone, PartialEq, Eq, Structural)]
pub enum Command {
    Compile,
    Run,
    Lex,
}

/// Parsed command line: the command to run and the data passed for it.
#[derive(Debug, PartialEq)]
pub struct Parsed {
    /// The command to run.
    pub command: Command,
    /// Data passed for the command.
    pub data: Vec<String>,
}

/// Why an argument list selects no command.
#[derive(Debug, PartialEq)]
pub enum CliError {
    /// No arguments were passed at all.
    NoArguments,
    /// Help was asked for explicitly.
    ShowHelp,
    /// The first argument is no known command; carries it.
    Unrecognised(String),
}

/// The views of an argument list.
pub open spec fn view_strings(v: Seq<String>) -> Seq<Seq<char>> {
    Seq::new(v.len(), |i: int| v[i]@)
}

/// Model of a [`CliError`].
pub enum SpecCliError {
    NoArguments,
    ShowHelp,
    Unrecognised(Seq<char>),
}

/// Model of a [`CliError`].
pub open spec fn view_cli_error(e: CliError) -> SpecCliError {
    match e {
        CliError::NoArguments => SpecCliError::NoArguments,
        CliError::ShowHelp => SpecCliError::ShowHelp,
        CliError::Unrecognised(s) => SpecCliError::Unrecognised(s@),
    }
}

/// The command an argument list selects: the first argument picks the
/// command, everything after it is the command's data.
pub open spec fn spec_custom(args: Seq<Seq<char>>) -> Result<
    (Command, Seq<Seq<char>>),
    SpecCliError,
> {
    if args.len() == 0 {
        Err(SpecCliError::NoArguments)
    } else if args[0] == "help"@ || args[0] == "--help"@ || args[0] == "-h"@ {
        Err(SpecCliError::ShowHelp)
    } else if args[0] == "run"@ {
        Ok((Command::Run, args.drop_first()))
    } else if args[0] == "compile"@ {
        Ok((Command::Compile, args.drop_first()))
    } else if args[0] == "lex"@ {
        Ok((Command::Lex, args.drop_first()))
    } else {
        Err(SpecCliError::Unrecognised(args[0]))
    }
}

impl Parsed {
    /// Parses custom arguments into the command they select.
    pub fn custom(args: Vec<String>) -> (r: Result<Parsed, CliError>)
        ensures
            match spec_custom(view_strings(args@)) {
                Ok((command, data)) => r matches Ok(p) && p.command == command && view_strings(
                    p.data@,
                ) == data,
                Err(se) => r matches Err(e) && view_cli_error(e) == se,
            },
    {
        let ghost argv = view_strings(args@);
        if args.len() == 0 {
            return Err(CliError::NoArguments);
        }
        let command = if args[0] == "help".to_owned() || args[0] == "--help".to_owned() || args[0]
            == "-h".to_owned() {
            return Err(CliError::ShowHelp);
        } else if args[0] == "run".to_owned() {
            Command::Run
        } else if args[0] == "compile".to_owned() {
            Command::Compile
        } else if args[0] == "lex".to_owned() {
            Command::Lex
        } else {
            let mut it = args;
            let first = it.remove(0);
            return Err(CliError::Unrecognised(first));
        };
        let mut data: Vec<String> = Vec::new();
        let mut k: usize = 1;
        while k < args.len()
            invariant
                1 <= k <= args@.len(),
                data@.len() == k - 1,
                forall|i: int| 0 <= i < data@.len() ==> data@[i]@ == args@[i + 1]@,
            decreases args@.len() - k,
        {
            data.push(args[k].clone());
            k = k + 1;
        }
        proof {
            assert(view_strings(data@) =~= view_strings(args@).drop_first());
        }
        Ok(Parsed { command, data })
    }
}

} // verus!
