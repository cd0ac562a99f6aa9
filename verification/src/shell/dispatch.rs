//! Which implementation runs a command of a line, and what is shown of its
//! result.
//!
//! A command that the caller registered runs first; else the built-in
//! command of that name; else a process of that name.

use vstd::prelude::*;
use crate::text::{strings_view, str_eq};
use super::command::{CommandError, error_message};

verus! {

/// Which implementation runs a command.
#[derive(Debug, Clone, Copy, PartialEq, Eq, Structural)]
pub enum Target {
    /// The command the caller registered under the name.
    Custom,
    /// The built-in command of that name.
    Builtin,
    /// A process started from the program of that name.
    Process,
}

/// The names of the built-in commands.
pub open spec fn builtin_command_names() -> Seq<Seq<char>> {
    seq![
        "cd"@,
        "ls"@,
        "pwd"@,
        "touch"@,
        "mkdir"@,
        "cat"@,
        "echo"@,
        "mv"@,
        "cp"@,
        "rm"@,
        "clear"@,
        "grep"@,
    ]
}

/// The names of the built-in commands (see [`builtin_command_names`]).
pub fn builtin_names() -> (r: Vec<String>)
    ensures
        strings_view(r@) == builtin_command_names(),
{
    let mut r: Vec<String> = Vec::new();
    r.push(String::from_str("cd"));
    r.push(String::from_str("ls"));
    r.push(String::from_str("pwd"));
    r.push(String::from_str("touch"));
    r.push(String::from_str("mkdir"));
    r.push(String::from_str("cat"));
    r.push(String::from_str("echo"));
    r.push(String::from_str("mv"));
    r.push(String::from_str("cp"));
    r.push(String::from_str("rm"));
    r.push(String::from_str("clear"));
    r.push(String::from_str("grep"));
    assert(strings_view(r@) == builtin_command_names());
    r
}

/// Which implementation runs the command `name`, given the names of the
/// caller's commands and of the built-in ones.
pub open spec fn target_of(name: Seq<char>, custom: Seq<Seq<char>>, builtin: Seq<Seq<char>>) -> Target {
    if custom.contains(name) {
        Target::Custom
    } else if builtin.contains(name) {
        Target::Builtin
    } else {
        Target::Process
    }
}

/// Whether one of `names` is `name`.
fn names_contain(names: &Vec<String>, name: &str) -> (r: bool)
    ensures
        r == strings_view(names@).contains(name@),
{
    let ghost ns = strings_view(names@);
    let mut k: usize = 0;
    while k < names.len()
        invariant
            k <= names@.len(),
            ns == strings_view(names@),
            forall|x: int| 0 <= x < k ==> ns[x] != name@,
        decreases names@.len() - k,
    {
        if str_eq(names[k].as_str(), name) {
            assert(ns[k as int] == name@);
            return true;
        }
        k += 1;
    }
    proof {
        if ns.contains(name@) {
            let x = choose|x: int| 0 <= x < ns.len() && ns[x] == name@;
        }
    }
    false
}

/// Which implementation runs the command `name` (see [`target_of`]).
pub fn dispatch_target(name: &str, custom: &Vec<String>, builtin: &Vec<String>) -> (t: Target)
    ensures
        t == target_of(name@, strings_view(custom@), strings_view(builtin@)),
        t == Target::Custom <==> strings_view(custom@).contains(name@),
        t == Target::Builtin <==> !strings_view(custom@).contains(name@) && strings_view(
            builtin@,
        ).contains(name@),
        t == Target::Process <==> !strings_view(custom@).contains(name@) && !strings_view(
            builtin@,
        ).contains(name@),
{
    if names_contain(custom, name) {
        Target::Custom
    } else if names_contain(builtin, name) {
        Target::Builtin
    } else {
        Target::Process
    }
}

/// Where a report goes.
#[derive(Debug, Clone, Copy, PartialEq, Eq, Structural)]
pub enum Stream {
    Stdout,
    Stderr,
}

/// A text to write to a stream.
#[derive(Debug)]
pub struct Report {
    pub stream: Stream,
    pub text: String,
}

/// What is shown of a command's result: a non-empty output on standard
/// output and an error's message on standard error, each with a newline
/// after it; nothing for an empty output.
pub open spec fn report_of(result: Result<Seq<char>, CommandError>) -> Option<(Stream, Seq<char>)> {
    match result {
        Ok(o) => if o.len() == 0 {
            None
        } else {
            Some((Stream::Stdout, o.push('\n')))
        },
        Err(e) => Some((Stream::Stderr, error_message(e).push('\n'))),
    }
}

/// What is shown of a command's result (see [`report_of`]).
pub fn report(result: &Result<String, CommandError>) -> (r: Option<Report>)
    ensures
        match report_of(
            match result {
                Ok(o) => Ok(o@),
                Err(e) => Err(*e),
            },
        ) {
            Some((stream, text)) => r matches Some(p) && p.stream == stream && p.text@ == text,
            None => r is None,
        },
{
    match result {
        Ok(o) => {
            if o.unicode_len() == 0 {
                None
            } else {
                let mut text = o.clone();
                text.push('\n');
                Some(Report { stream: Stream::Stdout, text })
            }
        },
        Err(e) => {
            let mut text = e.message();
            text.push('\n');
            Some(Report { stream: Stream::Stderr, text })
        },
    }
}

} // verus!

verus! {

/// A command that the caller registered runs in place of a built-in command
/// or a process of the same name.
pub proof fn lemma_custom_takes_precedence(
    name: Seq<char>,
    custom: Seq<Seq<char>>,
    builtin: Seq<Seq<char>>,
)
    requires
        custom.contains(name),
    ensures
        target_of(name, custom, builtin) == Target::Custom,
{
}

/// A built-in command runs under its name whenever none of the caller's
/// commands has that name, whatever other commands the caller has.
pub proof fn lemma_builtin_unless_custom(
    name: Seq<char>,
    custom: Seq<Seq<char>>,
    builtin: Seq<Seq<char>>,
)
    requires
        !custom.contains(name),
        builtin.contains(name),
    ensures
        target_of(name, custom, builtin) == Target::Builtin,
        forall|other: Seq<char>|
            other != name ==> target_of(name, custom.push(other), builtin) == Target::Builtin,
{
    assert forall|other: Seq<char>| other != name implies target_of(
        name,
        custom.push(other),
        builtin,
    ) == Target::Builtin by {
        if custom.push(other).contains(name) {
            let i = choose|i: int| 0 <= i < custom.push(other).len() && custom.push(other)[i] == name;
            if i < custom.len() {
                assert(custom[i] == name);
            }
        }
    }
}

/// A name that neither the caller nor the built-ins have starts a process.
pub proof fn lemma_process_otherwise(name: Seq<char>, custom: Seq<Seq<char>>, builtin: Seq<Seq<char>>)
    requires
        !custom.contains(name),
        !builtin.contains(name),
    ensures
        target_of(name, custom, builtin) == Target::Process,
{
}

/// With no commands of the caller, a built-in command runs under its name,
/// and any other name starts a process.
pub proof fn lemma_builtin_without_custom(name: Seq<char>)
    ensures
        builtin_command_names().contains(name) ==> target_of(
            name,
            seq![],
            builtin_command_names(),
        ) == Target::Builtin,
        !builtin_command_names().contains(name) ==> target_of(
            name,
            seq![],
            builtin_command_names(),
        ) == Target::Process,
{
}

} // verus!
