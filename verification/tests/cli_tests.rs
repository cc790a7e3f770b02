use rmg_tool::cli::{parse_opts, Arguments, Command, Options, DIFF, DOWN, STATUS};

fn arguments(branch: Option<&str>, no_switch: bool) -> Option<Arguments> {
    Some(Arguments { branch: branch.map(|b| b.to_string()), no_switch })
}

#[test]
fn subcommand_names() {
    assert_eq!(STATUS, "status");
    assert_eq!(DIFF, "diff");
    assert_eq!(DOWN, "down");
}

#[test]
fn status_needs_no_arguments() {
    assert_eq!(parse_opts("status", None), Options { command: Command::Status, branch: None });
    assert_eq!(
        parse_opts("status", arguments(Some("main"), true)),
        Options { command: Command::Status, branch: None }
    );
}

#[test]
fn diff_names_its_branch() {
    assert_eq!(
        parse_opts("diff", arguments(Some("main"), false)),
        Options { command: Command::Diff, branch: Some("main".to_string()) }
    );
    assert_eq!(
        parse_opts("diff", arguments(None, false)),
        Options { command: Command::Diff, branch: None }
    );
}

#[test]
fn down_carries_the_no_switch_flag() {
    assert_eq!(
        parse_opts("down", arguments(Some("feature/x"), true)),
        Options { command: Command::Down { no_switch: true }, branch: Some("feature/x".to_string()) }
    );
    assert_eq!(
        parse_opts("down", arguments(Some("main"), false)),
        Options { command: Command::Down { no_switch: false }, branch: Some("main".to_string()) }
    );
}

#[test]
fn anything_else_asks_for_nothing() {
    let nothing = Options { command: Command::Nothing, branch: None };
    assert_eq!(parse_opts("", None), nothing);
    assert_eq!(parse_opts("diff", None), nothing);
    assert_eq!(parse_opts("down", None), nothing);
    assert_eq!(parse_opts("up", arguments(Some("main"), true)), nothing);
    assert_eq!(parse_opts("Status", None), nothing);
}
