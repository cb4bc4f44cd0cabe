//! Tests of the command-line configuration structure.

use pmatinit::cli::Cli;

#[test]
fn test_cli_defaults() {
    let cli = Cli {
        expression: None,
        interactive: false,
        precision: 2,
    };
    assert!(cli.is_interactive());
}

#[test]
fn test_cli_with_expression() {
    let cli = Cli {
        expression: Some("2 + 2".to_string()),
        interactive: false,
        precision: 2,
    };
    assert!(!cli.is_interactive());
}

#[test]
fn test_cli_force_interactive() {
    let cli = Cli {
        expression: Some("2 + 2".to_string()),
        interactive: true,
        precision: 2,
    };
    assert!(cli.is_interactive());
}
