//! The command-line model of the program and the decisions the driver makes:
//! which mode to start from the parsed options, and what one line typed at
//! the prompt leads to. Reading the command line, files and the terminal is
//! the host program's business; the decisions are made here.

use vstd::prelude::*;

verus! {

/// The parsed command-line options: a tiny Scheme compiler, with a mode.
#[derive(Debug, PartialEq)]
pub struct Opts {
    pub mode: Mode,
}

/// The modes the program can run in.
#[derive(Debug, PartialEq)]
pub enum Mode {
    /// Launch REPL mode.
    Repl,
    /// Run the compiler by reading files.
    Run(BuildOpt),
}

/// The options of the file-run mode.
#[derive(Debug, PartialEq)]
pub struct BuildOpt {
    /// Compile target file path.
    pub file: String,
}

/// What the program is to do, as decided from the options.
#[derive(Debug, PartialEq)]
pub enum BootAction {
    /// Start the interactive loop, keeping its history in this file.
    StartRepl { history_file: String },
    /// Read this file and run the compiler over its text.
    RunFile { file: String },
}

/// Decides from the parsed options what the program does: the file-run mode
/// compiles the named file, the REPL mode starts the interactive loop with
/// its history kept in `history.txt`.
pub fn boot(opts: Opts) -> (r: BootAction)
    ensures
        (match opts.mode {
            Mode::Repl => r matches BootAction::StartRepl { history_file } && history_file@
                == "history.txt"@,
            Mode::Run(opt) => r matches BootAction::RunFile { file } && file@ == opt.file@,
        }),
{
    match opts.mode {
        Mode::Run(opt) => BootAction::RunFile { file: opt.file },
        Mode::Repl => BootAction::StartRepl { history_file: "history.txt".to_owned() },
    }
}

/// What one line typed at the prompt leads to.
#[derive(Debug, PartialEq)]
pub enum ReplAction {
    /// Say goodbye and leave the loop.
    Quit,
    /// Compile the line and keep going.
    Evaluate,
}

/// Decides what one line typed at the prompt leads to: `exit` ends the
/// session, every other line is handed to the compiler.
pub fn repl_step(line: &str) -> (r: ReplAction)
    ensures
        r == (if line@ == "exit"@ {
            ReplAction::Quit
        } else {
            ReplAction::Evaluate
        }),
{
    let typed: String = line.to_owned();
    let exit_word: String = "exit".to_owned();
    if typed == exit_word {
        ReplAction::Quit
    } else {
        ReplAction::Evaluate
    }
}

} // verus!
