use minishell::parse_i32;
use minishell::Commands;

#[test]
fn exit_with_code_parses() {
    match Commands::parse("exit 42") {
        Ok(Commands::Exit(code)) => assert_eq!(code, Some(42)),
        other => panic!("unexpected parse: {:?}", other),
    }
}

#[test]
fn bare_exit_parses_without_code() {
    match Commands::parse("exit") {
        Ok(Commands::Exit(code)) => assert_eq!(code, None),
        other => panic!("unexpected parse: {:?}", other),
    }
}

#[test]
fn exit_with_non_numeric_code_defaults_to_none() {
    match Commands::parse("exit abc") {
        Ok(Commands::Exit(code)) => assert_eq!(code, None),
        other => panic!("unexpected parse: {:?}", other),
    }
}

#[test]
fn echo_takes_all_remaining_tokens() {
    match Commands::parse("echo a 'b  c' d") {
        Ok(Commands::Echo(args)) => assert_eq!(args, vec!["a", "b  c", "d"]),
        other => panic!("unexpected parse: {:?}", other),
    }
}

#[test]
fn type_requires_an_argument() {
    match Commands::parse("type") {
        Err(e) => assert_eq!(e, "type: missing argument"),
        other => panic!("unexpected parse: {:?}", other),
    }
}

#[test]
fn type_takes_one_target() {
    match Commands::parse("type ls") {
        Ok(Commands::Type(name)) => assert_eq!(name, "ls"),
        other => panic!("unexpected parse: {:?}", other),
    }
}

#[test]
fn bare_cd_defaults_to_home_shorthand() {
    match Commands::parse("cd") {
        Ok(Commands::Cd(path)) => assert_eq!(path, "~"),
        other => panic!("unexpected parse: {:?}", other),
    }
}

#[test]
fn cd_takes_a_target() {
    match Commands::parse("cd /tmp") {
        Ok(Commands::Cd(path)) => assert_eq!(path, "/tmp"),
        other => panic!("unexpected parse: {:?}", other),
    }
}

#[test]
fn pwd_parses() {
    assert!(matches!(Commands::parse("pwd"), Ok(Commands::Pwd())));
}

#[test]
fn pwd_ignores_extra_arguments() {
    assert!(matches!(Commands::parse("pwd now"), Ok(Commands::Pwd())));
}

#[test]
fn empty_line_is_a_silent_no_op() {
    match Commands::parse("") {
        Err(e) => assert_eq!(e, ""),
        other => panic!("unexpected parse: {:?}", other),
    }
}

#[test]
fn unknown_name_becomes_external() {
    match Commands::parse("frobnicate --fast x") {
        Ok(Commands::External(name, args)) => {
            assert_eq!(name, "frobnicate");
            assert_eq!(args, vec!["--fast", "x"]);
        }
        other => panic!("unexpected parse: {:?}", other),
    }
}

#[test]
fn builtin_registry_is_exactly_the_five_names() {
    for name in ["exit", "echo", "type", "pwd", "cd"] {
        assert!(Commands::is_builtin(name));
    }
    assert!(!Commands::is_builtin("ls"));
    assert!(!Commands::is_builtin(""));
    assert!(!Commands::is_builtin("exit "));
}

#[test]
fn parse_i32_accepts_plain_and_signed_numbers() {
    assert_eq!(parse_i32("0"), Some(0));
    assert_eq!(parse_i32("42"), Some(42));
    assert_eq!(parse_i32("+5"), Some(5));
    assert_eq!(parse_i32("-7"), Some(-7));
    assert_eq!(parse_i32("0000000000123"), Some(123));
}

#[test]
fn parse_i32_honors_the_exact_range() {
    assert_eq!(parse_i32("2147483647"), Some(i32::MAX));
    assert_eq!(parse_i32("2147483648"), None);
    assert_eq!(parse_i32("-2147483648"), Some(i32::MIN));
    assert_eq!(parse_i32("-2147483649"), None);
    assert_eq!(parse_i32("99999999999999999999"), None);
}

#[test]
fn parse_i32_rejects_malformed_input() {
    assert_eq!(parse_i32(""), None);
    assert_eq!(parse_i32("-"), None);
    assert_eq!(parse_i32("+"), None);
    assert_eq!(parse_i32("abc"), None);
    assert_eq!(parse_i32("12a"), None);
    assert_eq!(parse_i32(" 1"), None);
    assert_eq!(parse_i32("--1"), None);
}
