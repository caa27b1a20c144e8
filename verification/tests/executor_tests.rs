use minishell::cd_error_line;
use minishell::cd_home_error_line;
use minishell::echo_line;
use minishell::exit_status;
use minishell::external_exit_code;
use minishell::not_found_line;
use minishell::pwd_error_line;
use minishell::resolve_cd_target;
use minishell::run_type;
use minishell::spawn_error_line;
use minishell::split_colon;
use minishell::type_line;
use minishell::Commands;

#[test]
fn exit_status_propagates_the_given_code() {
    assert_eq!(exit_status(Some(42)), 42);
    assert_eq!(exit_status(Some(-1)), -1);
}

#[test]
fn exit_status_defaults_to_zero() {
    assert_eq!(exit_status(None), 0);
}

#[test]
fn failed_child_status_terminates_the_interpreter() {
    assert_eq!(external_exit_code(false, Some(7)), Some(7));
    assert_eq!(external_exit_code(false, None), Some(1));
}

#[test]
fn successful_child_status_continues_the_loop() {
    assert_eq!(external_exit_code(true, Some(0)), None);
    assert_eq!(external_exit_code(true, None), None);
}

#[test]
fn echo_joins_arguments_with_single_spaces() {
    let args = vec!["hello".to_string(), "a  b".to_string(), "world".to_string()];
    assert_eq!(echo_line(&args), "hello a  b world");
    assert_eq!(echo_line(&Vec::new()), "");
    assert_eq!(echo_line(&vec!["one".to_string()]), "one");
}

#[test]
fn builtins_are_reported_as_builtins_whatever_is_on_disk() {
    for name in ["exit", "echo", "type", "pwd", "cd"] {
        let with_hit = Some(format!("/usr/bin/{}", name));
        let expected = format!("{} is a shell builtin", name);
        assert_eq!(type_line(name, &with_hit), expected);
        assert_eq!(type_line(name, &None), expected);
        assert_eq!(run_type(name, "/usr/bin:/bin"), expected);
    }
}

#[test]
fn type_reports_the_resolved_path() {
    let resolved = Some("/usr/bin/ls".to_string());
    assert_eq!(type_line("ls", &resolved), "ls is /usr/bin/ls");
}

#[test]
fn type_reports_a_miss_as_not_found() {
    assert_eq!(type_line("frobnicate", &None), "frobnicate: not found");
    assert_eq!(not_found_line("frobnicate"), "frobnicate: not found");
    assert_eq!(run_type("frobnicate_nowhere", ""), "frobnicate_nowhere: not found");
}

#[test]
fn resolver_misses_when_no_directory_has_the_name() {
    let missing = Commands::find_cmd("no_such_cmd_here", "/no_dir_one:/no_dir_two");
    assert_eq!(missing, None);
    assert_eq!(Commands::find_cmd("sh", ""), None);
}

#[test]
fn resolver_finds_an_executable_on_the_search_path() {
    assert_eq!(Commands::find_cmd("sh", ":/bin"), Some("/bin/sh".to_string()));
}

#[test]
fn search_path_splits_on_colons_keeping_empty_segments() {
    assert_eq!(split_colon(""), vec![""]);
    assert_eq!(split_colon("a:b"), vec!["a", "b"]);
    assert_eq!(split_colon(":a:"), vec!["", "a", ""]);
    assert_eq!(split_colon("/usr/bin"), vec!["/usr/bin"]);
}

#[test]
fn cd_resolves_the_home_shorthand() {
    let home = Some("/home/user".to_string());
    assert_eq!(resolve_cd_target("~", &home), Some("/home/user".to_string()));
    assert_eq!(resolve_cd_target("~/src", &home), Some("/home/user/src".to_string()));
    assert_eq!(resolve_cd_target("/tmp", &home), Some("/tmp".to_string()));
    assert_eq!(resolve_cd_target("~ish", &home), Some("~ish".to_string()));
}

#[test]
fn cd_aborts_when_home_is_needed_but_missing() {
    assert_eq!(resolve_cd_target("~", &None), None);
    assert_eq!(resolve_cd_target("~/src", &None), None);
    assert_eq!(resolve_cd_target("/tmp", &None), Some("/tmp".to_string()));
}

#[test]
fn cd_misses_with_the_exact_wording() {
    assert_eq!(
        cd_error_line("/no/such/dir", true, "ignored"),
        "cd: /no/such/dir: No such file or directory"
    );
    assert_eq!(
        cd_error_line("/root/secret", false, "Permission denied"),
        "cd: /root/secret: Permission denied"
    );
}

#[test]
fn remaining_error_lines_carry_their_context() {
    assert_eq!(cd_home_error_line("environment variable not found"),
        "cd: HOME: environment variable not found");
    assert_eq!(pwd_error_line("some failure"), "pwd: some failure");
    assert_eq!(spawn_error_line("prog", "broken pipe"), "prog: broken pipe");
}
