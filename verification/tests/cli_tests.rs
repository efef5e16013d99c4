use datex_cli::command_line_args::{
    file_to_run, main_action, Cli, Lsp, MainAction, Repl, Run, Subcommands, Workbench,
};

#[test]
fn main_actions() {
    assert!(matches!(main_action(Cli { command: None, version: true }), MainAction::PrintVersion));
    assert!(matches!(
        main_action(Cli { command: Some(Subcommands::Lsp(Lsp {})), version: true }),
        MainAction::PrintVersion
    ));
    assert!(matches!(
        main_action(Cli { command: None, version: false }),
        MainAction::Repl(o) if !o.verbose && o.config_path.is_none()
    ));
    assert!(matches!(
        main_action(Cli { command: Some(Subcommands::Lsp(Lsp {})), version: false }),
        MainAction::Lsp
    ));
    assert!(matches!(
        main_action(Cli { command: Some(Subcommands::Workbench(Workbench {})), version: false }),
        MainAction::Workbench
    ));
    assert!(matches!(
        main_action(Cli {
            command: Some(Subcommands::Repl(Repl { verbose: true, config: Some("c.dx".to_string()) })),
            version: false
        }),
        MainAction::Repl(o) if o.verbose && o.config_path.as_deref() == Some("c.dx")
    ));
    assert!(matches!(
        main_action(Cli {
            command: Some(Subcommands::Run(Run { file: Some("f.dx".to_string()) })),
            version: false
        }),
        MainAction::Run(r) if r.file.as_deref() == Some("f.dx")
    ));
}

#[test]
fn running_files() {
    assert_eq!(file_to_run(Run { file: Some("f.dx".to_string()) }), Ok("f.dx".to_string()));
    assert_eq!(file_to_run(Run { file: None }), Err("No file provided to run.".to_string()));
}
