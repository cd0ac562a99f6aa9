use i6::shell::command::{
    cd, cp, echo, grep, is_path, ls, mv, rm, Command, CommandError, CopyOp, DirItem, PathInfo,
};
use i6::shell::{prompt, to_rfc1035};

#[test]
fn escapes_letters() {
    assert_eq!(echo::interpret_escapes("a\\tb\\nc\\\\"), "a\tb\nc\\");
    assert_eq!(echo::interpret_escapes("\\a\\b\\f\\r\\v"), "\x07\x08\x0c\r\x0b");
}

#[test]
fn escapes_stop_at_c() {
    assert_eq!(echo::interpret_escapes("abc\\cdef"), "abc");
}

#[test]
fn escapes_octal() {
    assert_eq!(echo::interpret_escapes("\\0101x"), "Ax");
    assert_eq!(echo::interpret_escapes("\\0377"), "\u{ff}");
    assert_eq!(echo::interpret_escapes("\\0400z"), "z");
    assert_eq!(echo::interpret_escapes("\\09"), "9");
    assert_eq!(echo::interpret_escapes("\\012345"), "S45");
    assert_eq!(echo::interpret_escapes("\\012"), "\n");
}

#[test]
fn escapes_unknown_and_trailing() {
    assert_eq!(echo::interpret_escapes("a\\qb"), "ab");
    assert_eq!(echo::interpret_escapes("end\\"), "end");
    assert_eq!(echo::interpret_escapes("plain text"), "plain text");
}

#[test]
fn echo_joins_words_and_handles_n() {
    assert_eq!(echo.run("hello   world").unwrap(), "hello world");
    assert_eq!(echo.run("-n hi there").unwrap(), "hi there\n");
    assert_eq!(echo.run("'a  b' c\\\\d").unwrap(), "a  b c");
    assert_eq!(echo.run("c\\\\\\\\d").unwrap(), "c\\d");
}

#[test]
fn echo_malformed_quoting_keeps_input() {
    assert_eq!(echo.run("'open").unwrap(), "'open");
}

#[test]
fn grep_matching_lines() {
    let out = grep.run("foo 'a foo\nbar\r\nfood\r\n'").unwrap();
    assert_eq!(out, "a foo\nfood\n");
    assert_eq!(grep::matching("", "x\ny\n"), "x\ny\n");
    assert_eq!(grep::matching("z", "x\ny"), "");
}

#[test]
fn grep_needs_two_words() {
    let err = grep.run("only").unwrap_err();
    assert!(matches!(err, CommandError::GrepArguments));
    assert_eq!(err.message(), "grep command requires exactly 2 arguments");
}

#[test]
fn mv_arguments() {
    assert_eq!(mv::arguments("a 'b c'").unwrap(), ("a".to_string(), "b c".to_string()));
    let err = mv::arguments("a b c").unwrap_err();
    assert_eq!(err.message(), "mv command requires exactly 2 arguments");
}

#[test]
fn cp_arguments() {
    let req = cp::arguments("-p src dst").unwrap();
    assert_eq!(req.source, "src");
    assert_eq!(req.destination, "dst");
    assert!(req.preserve);
    let req = cp::arguments("src dst").unwrap();
    assert!(!req.preserve);
    assert!(matches!(cp::arguments("-p src"), Err(CommandError::CopyArguments)));
}

#[test]
fn rm_arguments() {
    assert_eq!(rm::arguments("dir").unwrap(), "dir");
    let err = rm::arguments("a b").unwrap_err();
    assert_eq!(err.message(), "rm command requires exactly 1 argument");
}

#[test]
fn cd_destination() {
    assert_eq!(cd::destination("/tmp extra", None), "/tmp");
    assert_eq!(cd::destination("-", Some("/home".to_string())), "/home");
    assert_eq!(cd::destination("-", None), "-");
    assert_eq!(cd::destination("", None), "");
}

#[test]
fn ls_request() {
    let r = ls::request("-la /etc");
    assert!(r.list_all);
    assert_eq!(r.path, "/etc");
    let r = ls::request("-la");
    assert!(r.list_all);
    assert_eq!(r.path, ".");
    let r = ls::request("");
    assert!(!r.list_all);
    assert_eq!(r.path, ".");
}

#[test]
fn is_path_checks() {
    assert!(is_path("src", vec!["-la"]));
    assert!(!is_path("-la", vec!["-la"]));
    assert!(!is_path("", vec![]));
}

fn items() -> Vec<DirItem> {
    vec![
        DirItem { name: "./b.txt".to_string(), is_dir: false },
        DirItem { name: "./dir".to_string(), is_dir: true },
        DirItem { name: "./a.txt".to_string(), is_dir: false },
    ]
}

#[test]
fn ls_listing_short_puts_directories_first() {
    assert_eq!(ls::listing(items(), false, None), "./dir ./b.txt ./a.txt ");
}

#[test]
fn ls_listing_long() {
    let info = PathInfo { is_dir: true, readonly: false, len: 4096 };
    assert_eq!(
        ls::listing(items(), true, Some(info)),
        "drwx  4096  ./dir\ndrwx  4096  ./b.txt\ndrwx  4096  ./a.txt"
    );
    let info = PathInfo { is_dir: false, readonly: true, len: 7 };
    assert_eq!(ls::listing(vec![DirItem { name: "f".to_string(), is_dir: false }], true, Some(info)), "-r-x  7  f");
    assert_eq!(ls::listing(Vec::new(), true, None), "");
}

#[test]
fn rfc1035_names() {
    assert_eq!(to_rfc1035("My_Host.local"), "my-host-local");
    assert_eq!(to_rfc1035("-abc-"), "-abc-");
    assert_eq!(to_rfc1035("héllo"), "h-llo");
}

#[test]
fn prompt_format() {
    assert_eq!(prompt(9, 5, 30, "me", "box", "/tmp"), "[09:05:30] - me@box:/tmp\n$ ");
    assert_eq!(prompt(23, 59, 0, "u", "h", "/"), "[23:59:00] - u@h:/\n$ ");
}

#[test]
fn failed_error_keeps_its_message() {
    assert_eq!(CommandError::Failed("disk full".to_string()).message(), "disk full");
    assert_eq!(CommandError::CopyArguments.message(), "cp command requires exactly 2 arguments");
}

#[test]
fn cp_operations() {
    let ops = cp::copy_ops("a", "b", true);
    assert_eq!(ops.len(), 2);
    assert!(matches!(&ops[0], CopyOp::CopyFile { from, to } if from == "a" && to == "b"));
    assert!(matches!(&ops[1], CopyOp::CopyPermissions { from, to } if from == "a" && to == "b"));
    assert_eq!(cp::copy_ops("a", "b", false).len(), 1);
    assert_eq!(cp::child_destination("dest", "f.txt"), "dest/f.txt");
    assert_eq!(cp::child_destination("dest/", "f.txt"), "dest/f.txt");
    assert_eq!(cp::child_destination("", "f.txt"), "f.txt");
    let ops = cp::entry_ops("out", "src/x", Some("x".to_string()), false).unwrap();
    assert!(matches!(&ops[..], [CopyOp::CopyFile { from, to }] if from == "src/x" && to == "out/x"));
    let err = cp::entry_ops("out", "src/..", None, false).unwrap_err();
    assert_eq!(err.message(), "Invalid file name");
}
