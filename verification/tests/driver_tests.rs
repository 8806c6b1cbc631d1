use micro_scheme::ast::SExpr;
use micro_scheme::ast::Token;
use micro_scheme::command::{boot, repl_step, BootAction, BuildOpt, Mode, Opts, ReplAction};

#[test]
fn boot_repl_mode_starts_the_loop() {
    let action = boot(Opts { mode: Mode::Repl });
    assert_eq!(
        action,
        BootAction::StartRepl {
            history_file: "history.txt".to_string()
        }
    );
}

#[test]
fn boot_run_mode_names_the_file() {
    let action = boot(Opts {
        mode: Mode::Run(BuildOpt {
            file: "prog.scm".to_string(),
        }),
    });
    assert_eq!(
        action,
        BootAction::RunFile {
            file: "prog.scm".to_string()
        }
    );
}

#[test]
fn repl_exit_quits() {
    assert_eq!(repl_step("exit"), ReplAction::Quit);
    assert_eq!(repl_step("(a 1)"), ReplAction::Evaluate);
    assert_eq!(repl_step("exit "), ReplAction::Evaluate);
}

#[test]
fn constructors_build_atoms() {
    assert_eq!(
        SExpr::symbol("s".to_string()),
        SExpr::Atom(Token::Symbol("s".to_string()))
    );
    assert_eq!(
        SExpr::string("\"x\"".to_string()),
        SExpr::Atom(Token::String("\"x\"".to_string()))
    );
    assert_eq!(SExpr::integer(7), SExpr::Atom(Token::Integer(7)));
    assert_eq!(
        SExpr::float("3.14".to_string()),
        SExpr::Atom(Token::Float("3.14".to_string()))
    );
    assert_eq!(SExpr::bool('t'), SExpr::Atom(Token::Bool(true)));
    assert_eq!(SExpr::bool('f'), SExpr::Atom(Token::Bool(false)));
}
