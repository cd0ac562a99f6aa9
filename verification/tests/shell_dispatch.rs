use i6::shell::command::{cd, echo, grep, Command, CommandError};
use i6::shell::dispatch::{builtin_names, dispatch_target, report, Stream, Target};

fn names(ns: &[&str]) -> Vec<String> {
    ns.iter().map(|n| n.to_string()).collect()
}

#[test]
fn custom_command_takes_precedence_over_builtin() {
    let custom = names(&["echo"]);
    assert_eq!(dispatch_target("echo", &custom, &builtin_names()), Target::Custom);
    // the custom command registered as "echo" is a grep: it runs on the joined input
    assert_eq!(grep.run("a a").unwrap(), "a\n");
}

#[test]
fn builtin_echo_runs_without_custom_commands() {
    assert_eq!(dispatch_target("echo", &Vec::new(), &builtin_names()), Target::Builtin);
    assert_eq!(echo.run("hi there").unwrap(), "hi there");
}

#[test]
fn unknown_names_start_a_process() {
    assert_eq!(dispatch_target("sort", &names(&["custom_pwd"]), &builtin_names()), Target::Process);
    assert_eq!(
        dispatch_target("custom_pwd", &names(&["custom_pwd"]), &builtin_names()),
        Target::Custom
    );
}

#[test]
fn builtin_names_are_the_twelve_commands() {
    assert_eq!(
        builtin_names(),
        names(&["cd", "ls", "pwd", "touch", "mkdir", "cat", "echo", "mv", "cp", "rm", "clear", "grep"])
    );
}

#[test]
fn reports_of_results() {
    assert!(report(&Ok(String::new())).is_none());
    let out = report(&Ok("hi".to_string())).unwrap();
    assert_eq!(out.stream, Stream::Stdout);
    assert_eq!(out.text, "hi\n");
    let err = report(&Err(CommandError::MoveArguments)).unwrap();
    assert_eq!(err.stream, Stream::Stderr);
    assert_eq!(err.text, "mv command requires exactly 2 arguments\n");
}

#[test]
fn cd_dash_goes_back() {
    let first = cd::step("/tmp", None, "/home/u");
    assert_eq!(first.destination, "/tmp");
    assert_eq!(first.previous, "/home/u");
    let back = cd::step("-", Some(first.previous), "/tmp");
    assert_eq!(back.destination, "/home/u");
    assert_eq!(back.previous, "/tmp");
}
