//! The commands built into the shell.
//!
//! Each command gets the text that follows its name on the line. The pure
//! ones (`echo`, `grep`) are carried out here; for the ones that touch the
//! file system (`cd`, `ls`, `mv`, `cp`, `rm`) this module decides what to do
//! from the text, and the caller does it.

#![allow(non_camel_case_types)]

use vstd::prelude::*;
use crate::text::{
    chars_of, string_of, strings_view, joined, join, split_char, split_on, char_vecs_view,
    str_eq, chars_eq, lines, lines_of, strip_cr, contains_chars, contains_seq, decimal,
    decimal_string,
};

verus! {

/// Why a command did not run.
#[derive(Debug)]
pub enum CommandError {
    /// `mv` was not given exactly two paths.
    MoveArguments,
    /// `cp` was not given exactly two paths.
    CopyArguments,
    /// `rm` was not given exactly one path.
    RemoveArguments,
    /// `grep` was not given exactly a pattern and a text.
    GrepArguments,
    /// An operation on the system failed; the message says why.
    Failed(String),
}

/// The message of an error.
pub open spec fn error_message(e: CommandError) -> Seq<char> {
    match e {
        CommandError::MoveArguments => "mv command requires exactly 2 arguments"@,
        CommandError::CopyArguments => "cp command requires exactly 2 arguments"@,
        CommandError::RemoveArguments => "rm command requires exactly 1 argument"@,
        CommandError::GrepArguments => "grep command requires exactly 2 arguments"@,
        CommandError::Failed(m) => m@,
    }
}

impl CommandError {
    /// The message of the error.
    pub fn message(&self) -> (r: String)
        ensures
            r@ == error_message(*self),
    {
        match self {
            CommandError::MoveArguments => String::from_str(
                "mv command requires exactly 2 arguments",
            ),
            CommandError::CopyArguments => String::from_str(
                "cp command requires exactly 2 arguments",
            ),
            CommandError::RemoveArguments => String::from_str(
                "rm command requires exactly 1 argument",
            ),
            CommandError::GrepArguments => String::from_str(
                "grep command requires exactly 2 arguments",
            ),
            CommandError::Failed(m) => m.clone(),
        }
    }
}

/// A command of the shell: it takes the text after its name and gives the
/// text to show, or an error.
pub trait Command: Send {
    fn run(&self, input: &str) -> Result<String, CommandError>;
}

/// The words that `shlex::split` finds in `input` with POSIX shell quoting,
/// or `None` where the quoting is unbalanced or a backslash ends the input.
pub uninterp spec fn shlex_words(input: Seq<char>) -> Option<Seq<Seq<char>>>;

/// Calls `shlex::split` on `input`: its result is the one `shlex_words`
/// names for the input. What the words are is not stated here.
#[verifier::external_body]
fn shlex_split(input: &str) -> (r: Option<Vec<String>>)
    ensures
        match shlex_words(input@) {
            Some(ws) => r matches Some(v) && strings_view(v@) == ws,
            None => r is None,
        },
{
    shlex::split(input)
}

/// The words of a command's input: the shell words, or the whole input as one
/// word where its quoting is malformed.
pub open spec fn shell_words_spec(input: Seq<char>) -> Seq<Seq<char>> {
    match shlex_words(input) {
        Some(ws) => ws,
        None => seq![input],
    }
}

/// Splits a command's input into words (see [`shell_words_spec`]).
pub fn shell_words(input: &str) -> (r: Vec<String>)
    ensures
        strings_view(r@) == shell_words_spec(input@),
{
    match shlex_split(input) {
        Some(v) => v,
        None => {
            let mut v: Vec<String> = Vec::new();
            v.push(String::from_str(input));
            assert(strings_view(v@) == seq![input@]);
            v
        },
    }
}

/// Whether a word of `ls` names a path: it is not one of the words the
/// command already used, and it is not empty.
pub open spec fn is_path_spec(s: Seq<char>, used_args: Seq<Seq<char>>) -> bool {
    !used_args.contains(s) && s.len() > 0
}

/// Whether `s` names a path, given the words already used as options.
pub fn is_path(s: &str, used_args: Vec<&str>) -> (r: bool)
    ensures
        r == is_path_spec(s@, used_args@.map_values(|u: &str| u@)),
{
    let ghost used = used_args@.map_values(|u: &str| u@);
    let mut k: usize = 0;
    while k < used_args.len()
        invariant
            k <= used_args@.len(),
            used == used_args@.map_values(|u: &str| u@),
            forall|x: int| 0 <= x < k ==> used[x] != s@,
        decreases used_args@.len() - k,
    {
        if str_eq(used_args[k], s) {
            assert(used[k as int] == s@);
            return false;
        }
        k += 1;
    }
    proof {
        if used.contains(s@) {
            let x = choose|x: int| 0 <= x < used.len() && used[x] == s@;
        }
    }
    s.unicode_len() > 0
}

/// `cd`: changes the working directory.
pub struct cd;

/// The directory that `cd` changes to: the first space-separated field of its
/// input, or, where that field is `-` and a previous directory is known, the
/// previous directory.
pub open spec fn cd_destination(input: Seq<char>, previous: Option<Seq<char>>) -> Seq<char> {
    let first = split_on(input, ' ')[0];
    if first == seq!['-'] && previous is Some {
        previous->0
    } else {
        first
    }
}

impl cd {
    /// The directory to change to (see [`cd_destination`]); `previous` is the
    /// directory that the last `cd` left.
    pub fn destination(input: &str, previous: Option<String>) -> (r: String)
        ensures
            r@ == cd_destination(
                input@,
                match previous {
                    Some(p) => Some(p@),
                    None => None,
                },
            ),
    {
        let cs = chars_of(input);
        let fields = split_char(cs.as_slice(), ' ');
        let first = &fields[0];
        assert(first@ == split_on(input@, ' ')[0]);
        let mut dash: Vec<char> = Vec::new();
        dash.push('-');
        assert(dash@ == seq!['-']);
        if chars_eq(first.as_slice(), dash.as_slice()) {
            match previous {
                Some(p) => {
                    return p;
                },
                None => {},
            }
        }
        string_of(first.as_slice())
    }
}

/// What one `cd` does: the directory it changes to, and the directory it
/// remembers for a later `cd -` (the one it was in).
#[derive(Debug)]
pub struct CdMove {
    pub destination: String,
    pub previous: String,
}

/// The destination and the remembered directory of `cd` run on `input` in
/// the directory `current`, with `previous` remembered from the last `cd`.
pub open spec fn cd_step_spec(input: Seq<char>, previous: Option<Seq<char>>, current: Seq<char>) -> (
    Seq<char>,
    Seq<char>,
) {
    (cd_destination(input, previous), current)
}

impl cd {
    /// What `cd` does on `input` in the directory `current` (see
    /// [`cd_step_spec`]).
    pub fn step(input: &str, previous: Option<String>, current: &str) -> (r: CdMove)
        ensures
            (r.destination@, r.previous@) == cd_step_spec(
                input@,
                match previous {
                    Some(p) => Some(p@),
                    None => None,
                },
                current@,
            ),
    {
        let destination = cd::destination(input, previous);
        CdMove { destination, previous: String::from_str(current) }
    }
}

/// After `cd` from `a` to wherever its input leads, `cd -` leads back to `a`.
pub proof fn lemma_cd_dash_returns(input: Seq<char>, previous: Option<Seq<char>>, a: Seq<char>)
    ensures
        ({
            let (there, remembered) = cd_step_spec(input, previous, a);
            cd_step_spec(seq!['-'], Some(remembered), there).0 == a
        }),
{
    let dash = seq!['-'];
    assert(dash.drop_last() == Seq::<char>::empty());
    assert(split_on(Seq::<char>::empty(), ' ') == seq![Seq::<char>::empty()]);
    assert(split_on(dash, ' ') == seq![seq!['-']]);
}

/// `ls`: lists a directory.
pub struct ls;

/// What `ls` lists: the long form or not, and the directory.
#[derive(Debug)]
pub struct LsRequest {
    pub list_all: bool,
    pub path: String,
}

/// One entry of a directory, as `ls` shows it.
#[derive(Debug)]
pub struct DirItem {
    /// The entry's path as displayed.
    pub name: String,
    pub is_dir: bool,
}

/// What `ls -la` shows of the listed directory on every line.
#[derive(Debug, Clone, Copy)]
pub struct PathInfo {
    pub is_dir: bool,
    pub readonly: bool,
    pub len: u64,
}

/// The mathematical content of a [`DirItem`].
pub struct DirItemView {
    pub name: Seq<char>,
    pub is_dir: bool,
}

impl View for DirItem {
    type V = DirItemView;

    open spec fn view(&self) -> DirItemView {
        DirItemView { name: self.name@, is_dir: self.is_dir }
    }
}

/// The words of `ls`'s input: its space-separated fields.
pub open spec fn ls_words(input: Seq<char>) -> Seq<Seq<char>> {
    split_on(input, ' ')
}

/// `ls` lists in long form when one of its words is `-la`.
pub open spec fn ls_list_all(input: Seq<char>) -> bool {
    ls_words(input).contains(seq!['-', 'l', 'a'])
}

/// `ls` lists its last word when that names a path, else `.`.
pub open spec fn ls_path(input: Seq<char>) -> Seq<char> {
    let last = ls_words(input).last();
    if is_path_spec(last, seq![seq!['-', 'l', 'a']]) {
        last
    } else {
        seq!['.']
    }
}

/// `ls` lists the directory its last word names, whether or not `-la` or
/// other words come before it; after a trailing space it lists `.`.
pub proof fn lemma_ls_path_last_word(before: Seq<char>, w: Seq<char>)
    requires
        w.len() > 0,
        !w.contains(' '),
        w != seq!['-', 'l', 'a'],
    ensures
        ls_path(w) == w,
        ls_path(before.push(' ') + w) == w,
        ls_path(before.push(' ')) == seq!['.'],
{
    crate::text::lemma_split_on_without_sep(w, ' ');
    crate::text::lemma_split_on_joined(before, w, ' ');
    crate::text::lemma_split_on_len(before, ' ');
    assert((split_on(before, ' ') + seq![w]).last() == w);
    assert(before.push(' ').drop_last() == before);
    assert(!seq![seq!['-', 'l', 'a']].contains(w)) by {
        if seq![seq!['-', 'l', 'a']].contains(w) {
            let k = choose|k: int| 0 <= k < 1 && seq![seq!['-', 'l', 'a']][k] == w;
        }
    }
    let empty = Seq::<char>::empty();
    assert(split_on(before.push(' '), ' ').last() == empty);
    assert(empty.len() == 0);
}

/// `ls` lists in long form when `-la` is one of its words, first, last or
/// in between.
pub proof fn lemma_ls_list_all_flag(before: Seq<char>, after: Seq<char>)
    ensures
        ls_list_all(seq!['-', 'l', 'a']),
        ls_list_all(before.push(' ') + seq!['-', 'l', 'a']),
        ls_list_all(seq!['-', 'l', 'a'].push(' ') + after),
        ls_list_all(before.push(' ') + seq!['-', 'l', 'a'].push(' ') + after),
{
    let la = seq!['-', 'l', 'a'];
    assert(!la.contains(' ')) by {
        if la.contains(' ') {
            let k = choose|k: int| 0 <= k < la.len() && la[k] == ' ';
        }
    }
    crate::text::lemma_split_on_without_sep(la, ' ');
    crate::text::lemma_split_on_joined(before, la, ' ');
    crate::text::lemma_split_on_joined(la, after, ' ');
    crate::text::lemma_split_on_joined(before, la.push(' ') + after, ' ');
    crate::text::lemma_split_on_len(before, ' ');
    assert(seq![la][0] == la);
    let pb = split_on(before, ' ');
    let pa = split_on(after, ' ');
    assert((pb + seq![la])[pb.len() as int] == la);
    assert((seq![la] + pa)[0] == la);
    assert(before.push(' ') + (la.push(' ') + after) == before.push(' ') + la.push(' ') + after);
    assert((pb + (seq![la] + pa))[pb.len() as int] == la);
}

/// The directories of `s`, in order.
pub open spec fn dirs_of(s: Seq<DirItemView>) -> Seq<DirItemView>
    decreases s.len(),
{
    if s.len() == 0 {
        seq![]
    } else if s.last().is_dir {
        dirs_of(s.drop_last()).push(s.last())
    } else {
        dirs_of(s.drop_last())
    }
}

/// The entries of `s` that are not directories, in order.
pub open spec fn files_of(s: Seq<DirItemView>) -> Seq<DirItemView>
    decreases s.len(),
{
    if s.len() == 0 {
        seq![]
    } else if !s.last().is_dir {
        files_of(s.drop_last()).push(s.last())
    } else {
        files_of(s.drop_last())
    }
}

/// The entries in the order `ls` shows them: directories first, each group
/// in the given order.
pub open spec fn ls_order(s: Seq<DirItemView>) -> Seq<DirItemView> {
    dirs_of(s) + files_of(s)
}

/// One line of the long form: type, permissions, size of the listed
/// directory, then the entry.
pub open spec fn long_line(info: PathInfo, name: Seq<char>) -> Seq<char> {
    (if info.is_dir {
        seq!['d']
    } else {
        seq!['-']
    }) + (if info.readonly {
        seq!['r', '-']
    } else {
        seq!['r', 'w']
    }) + seq!['x', ' ', ' '] + decimal(info.len as nat) + seq![' ', ' '] + name
}

/// The short form: each entry followed by a space.
pub open spec fn short_listing(s: Seq<DirItemView>) -> Seq<char>
    decreases s.len(),
{
    if s.len() == 0 {
        seq![]
    } else {
        short_listing(s.drop_last()) + s.last().name.push(' ')
    }
}

/// The long form: one line per entry, separated by newlines.
pub open spec fn long_listing(s: Seq<DirItemView>, info: PathInfo) -> Seq<char> {
    joined(s.map_values(|d: DirItemView| long_line(info, d.name)), seq!['\n'])
}

/// What `ls` shows for the entries of a directory.
pub open spec fn ls_listing(s: Seq<DirItemView>, list_all: bool, info: PathInfo) -> Seq<char> {
    if list_all {
        long_listing(ls_order(s), info)
    } else {
        short_listing(ls_order(s))
    }
}

/// The views of a sequence of entries.
pub open spec fn items_view(s: Seq<DirItem>) -> Seq<DirItemView> {
    s.map_values(|d: DirItem| d@)
}

impl ls {
    /// What `ls` lists for its input.
    pub fn request(input: &str) -> (r: LsRequest)
        ensures
            r.list_all == ls_list_all(input@),
            r.path@ == ls_path(input@),
    {
        let cs = chars_of(input);
        let words = split_char(cs.as_slice(), ' ');
        let ghost ws = ls_words(input@);
        let mut la: Vec<char> = Vec::new();
        la.push('-');
        la.push('l');
        la.push('a');
        assert(la@ == seq!['-', 'l', 'a']);
        let mut list_all = false;
        let mut k: usize = 0;
        while k < words.len()
            invariant
                k <= words@.len(),
                char_vecs_view(words@) == ws,
                la@ == seq!['-', 'l', 'a'],
                list_all == exists|x: int| 0 <= x < k && ws[x] == la@,
            decreases words@.len() - k,
        {
            if chars_eq(words[k].as_slice(), la.as_slice()) {
                assert(ws[k as int] == la@);
                list_all = true;
            }
            k += 1;
        }
        proof {
            if list_all {
                let x = choose|x: int| 0 <= x < words@.len() && ws[x] == la@;
                assert(ws.contains(la@));
            }
            if ws.contains(la@) {
                let x = choose|x: int| 0 <= x < ws.len() && ws[x] == la@;
                assert(list_all);
            }
        }
        let last = &words[words.len() - 1];
        assert(last@ == ws.last());
        let last_is_path = if chars_eq(last.as_slice(), la.as_slice()) {
            false
        } else {
            last.len() > 0
        };
        proof {
            let used = seq![seq!['-', 'l', 'a']];
            if used.contains(last@) {
                let x = choose|x: int| 0 <= x < used.len() && used[x] == last@;
                assert(x == 0);
            }
            assert(used[0] == la@);
        }
        let path = if last_is_path {
            string_of(last.as_slice())
        } else {
            let mut dot: Vec<char> = Vec::new();
            dot.push('.');
            assert(dot@ == seq!['.']);
            string_of(dot.as_slice())
        };
        LsRequest { list_all, path }
    }

    /// The text `ls` shows for the entries of the listed directory, given in
    /// the order the directory yields them; `info` describes the listed
    /// directory itself and is needed for the long form of a non-empty
    /// listing.
    pub fn listing(items: Vec<DirItem>, list_all: bool, info: Option<PathInfo>) -> (r: String)
        requires
            list_all && items@.len() > 0 ==> info is Some,
        ensures
            r@ == ls_listing(
                items_view(items@),
                list_all,
                match info {
                    Some(i) => i,
                    None => PathInfo { is_dir: false, readonly: false, len: 0 },
                },
            ),
    {
        let ghost s = items_view(items@);
        let info_or = match info {
            Some(i) => i,
            None => PathInfo { is_dir: false, readonly: false, len: 0 },
        };
        let mut ordered: Vec<&DirItem> = Vec::new();
        let mut k: usize = 0;
        while k < items.len()
            invariant
                k <= items@.len(),
                s == items_view(items@),
                ordered@.map_values(|d: &DirItem| d@) == dirs_of(s.take(k as int)),
            decreases items@.len() - k,
        {
            proof {
                assert(s.take(k + 1).drop_last() == s.take(k as int));
                assert(s.take(k + 1).last() == items@[k as int]@);
            }
            let ghost before = ordered@.map_values(|d: &DirItem| d@);
            if items[k].is_dir {
                ordered.push(&items[k]);
                assert(ordered@.map_values(|d: &DirItem| d@) == before.push(items@[k as int]@));
            }
            k += 1;
        }
        assert(s.take(items@.len() as int) == s);
        let ghost dirs = ordered@.map_values(|d: &DirItem| d@);
        k = 0;
        while k < items.len()
            invariant
                k <= items@.len(),
                s == items_view(items@),
                ordered@.map_values(|d: &DirItem| d@) == dirs + files_of(s.take(k as int)),
            decreases items@.len() - k,
        {
            proof {
                assert(s.take(k + 1).drop_last() == s.take(k as int));
                assert(s.take(k + 1).last() == items@[k as int]@);
            }
            let ghost before = ordered@.map_values(|d: &DirItem| d@);
            if !items[k].is_dir {
                ordered.push(&items[k]);
                assert(ordered@.map_values(|d: &DirItem| d@) == before.push(items@[k as int]@));
            }
            k += 1;
        }
        assert(s.take(items@.len() as int) == s);
        let ghost order = ls_order(s);
        assert(ordered@.map_values(|d: &DirItem| d@) == order);
        let mut out = String::new();
        let mut i: usize = 0;
        if list_all {
            let mut lines_out: Vec<String> = Vec::new();
            while i < ordered.len()
                invariant
                    i <= ordered@.len(),
                    ordered@.map_values(|d: &DirItem| d@) == order,
                    strings_view(lines_out@) == order.take(i as int).map_values(
                        |d: DirItemView| long_line(info_or, d.name),
                    ),
                decreases ordered@.len() - i,
            {
                let line = Self::long_line_of(info_or, &ordered[i].name);
                let ghost before = strings_view(lines_out@);
                lines_out.push(line);
                proof {
                    assert(order[i as int] == ordered@[i as int]@);
                    assert(order.take(i + 1) == order.take(i as int).push(order[i as int]));
                    assert(strings_view(lines_out@) == before.push(
                        long_line(info_or, order[i as int].name),
                    ));
                }
                i += 1;
            }
            assert(order.take(order.len() as int) == order);
            out = join(&lines_out, "\n");
            proof {
                reveal_strlit("\n");
                assert("\n"@ == seq!['\n']);
            }
        } else {
            while i < ordered.len()
                invariant
                    i <= ordered@.len(),
                    ordered@.map_values(|d: &DirItem| d@) == order,
                    out@ == short_listing(order.take(i as int)),
                decreases ordered@.len() - i,
            {
                out.append(ordered[i].name.as_str());
                out.push(' ');
                proof {
                    assert(order[i as int] == ordered@[i as int]@);
                    assert(order.take(i + 1).drop_last() == order.take(i as int));
                }
                i += 1;
            }
            assert(order.take(order.len() as int) == order);
        }
        out
    }

    /// One line of the long form.
    fn long_line_of(info: PathInfo, name: &String) -> (r: String)
        ensures
            r@ == long_line(info, name@),
    {
        let mut r = String::new();
        r.push(if info.is_dir {
            'd'
        } else {
            '-'
        });
        r.push('r');
        r.push(if info.readonly {
            '-'
        } else {
            'w'
        });
        r.push('x');
        r.push(' ');
        r.push(' ');
        let n = decimal_string(info.len);
        r.append(n.as_str());
        r.push(' ');
        r.push(' ');
        r.append(name.as_str());
        r
    }
}

} // verus!

verus! {

/// `echo`: prints its words with backslash escapes interpreted.
pub struct echo;

/// Whether `c` is an octal digit.
pub open spec fn is_octal_digit(c: char) -> bool {
    '0' <= c <= '7'
}

/// How many octal digits, at most three, start `s`.
pub open spec fn octal_run(s: Seq<char>) -> nat {
    if s.len() > 0 && is_octal_digit(s[0]) {
        if s.len() > 1 && is_octal_digit(s[1]) {
            if s.len() > 2 && is_octal_digit(s[2]) {
                3
            } else {
                2
            }
        } else {
            1
        }
    } else {
        0
    }
}

/// The number that the octal digits `ds` write.
pub open spec fn octal_value(ds: Seq<char>) -> nat
    decreases ds.len(),
{
    if ds.len() == 0 {
        0
    } else {
        octal_value(ds.drop_last()) * 8 + ((ds.last() as u32) - ('0' as u32)) as nat
    }
}

/// The character that a one-letter escape stands for.
pub open spec fn escape_char(e: char) -> Option<char> {
    if e == 'a' {
        Some('\x07')
    } else if e == 'b' {
        Some('\x08')
    } else if e == 'f' {
        Some('\x0C')
    } else if e == 'n' {
        Some('\n')
    } else if e == 'r' {
        Some('\r')
    } else if e == 't' {
        Some('\t')
    } else if e == 'v' {
        Some('\x0B')
    } else if e == '\\' {
        Some('\\')
    } else {
        None
    }
}

/// `s` with its escapes interpreted: `\a \b \f \n \r \t \v \\` stand for
/// their characters; `\c` ends the text; `\0` followed by up to three octal
/// digits stands for the character with that code when the digits are there
/// and the code is at most 255, and for nothing otherwise; a backslash before
/// any other character, or at the end, is dropped with that character.
pub open spec fn escapes(s: Seq<char>) -> Seq<char>
    decreases s.len(),
{
    if s.len() == 0 {
        seq![]
    } else if s[0] != '\\' {
        seq![s[0]] + escapes(s.drop_first())
    } else if s.len() == 1 {
        seq![]
    } else {
        let e = s[1];
        let rest = s.skip(2);
        if e == 'c' {
            seq![]
        } else if e == '0' {
            let n = octal_run(rest);
            let v = octal_value(rest.take(n as int));
            (if n > 0 && v <= 255 {
                seq![(v as u8) as char]
            } else {
                seq![]
            }) + escapes(rest.skip(n as int))
        } else {
            match escape_char(e) {
                Some(c) => seq![c] + escapes(rest),
                None => escapes(rest),
            }
        }
    }
}

/// What `echo` prints for its words: each word with escapes interpreted,
/// separated by spaces; when the first word is `-n`, it is left out and a
/// newline is added at the end.
pub open spec fn echo_output(words: Seq<Seq<char>>) -> Seq<char> {
    if words.len() > 0 && words[0] == seq!['-', 'n'] {
        joined(words.drop_first().map_values(|w: Seq<char>| escapes(w)), seq![' ']).push('\n')
    } else {
        joined(words.map_values(|w: Seq<char>| escapes(w)), seq![' '])
    }
}

/// The value of one octal digit.
fn octal_digit_value(c: char) -> (r: u32)
    requires
        is_octal_digit(c),
    ensures
        r == (c as u32) - ('0' as u32),
        r < 8,
{
    (c as u32) - ('0' as u32)
}

/// The character for a one-letter escape.
fn escape_of(e: char) -> (r: Option<char>)
    ensures
        r == escape_char(e),
{
    if e == 'a' {
        Some('\x07')
    } else if e == 'b' {
        Some('\x08')
    } else if e == 'f' {
        Some('\x0C')
    } else if e == 'n' {
        Some('\n')
    } else if e == 'r' {
        Some('\r')
    } else if e == 't' {
        Some('\t')
    } else if e == 'v' {
        Some('\x0B')
    } else if e == '\\' {
        Some('\\')
    } else {
        None
    }
}

impl echo {
    /// `s` with its escapes interpreted (see [`escapes`]).
    pub fn interpret_escapes(s: &str) -> (r: String)
        ensures
            r@ == escapes(s@),
    {
        let cs = chars_of(s);
        let n = cs.len();
        let mut out: Vec<char> = Vec::new();
        let mut i: usize = 0;
        assert(s@.skip(0) == s@);
        while i < n
            invariant
                n == cs@.len(),
                cs@ == s@,
                i <= n,
                escapes(s@) == out@ + escapes(s@.skip(i as int)),
            decreases n - i,
        {
            let ghost t = s@.skip(i as int);
            let c = cs[i];
            assert(t[0] == c);
            if c != '\\' {
                assert(t.drop_first() == s@.skip(i + 1));
                out.push(c);
                i += 1;
            } else if i + 1 == n {
                assert(t.len() == 1);
                i += 1;
                assert(escapes(s@.skip(i as int)) == Seq::<char>::empty());
            } else {
                let e = cs[i + 1];
                assert(t[1] == e);
                let ghost rest = t.skip(2);
                assert(rest == s@.skip(i + 2));
                if e == 'c' {
                    assert(escapes(s@) == out@);
                    return string_of(out.as_slice());
                } else if e == '0' {
                    let mut j = i + 2;
                    let mut value: u32 = 0;
                    let mut count: usize = 0;
                    while count < 3 && j < n && '0' <= cs[j] && cs[j] <= '7'
                        invariant
                            n == cs@.len(),
                            cs@ == s@,
                            rest == s@.skip(i + 2),
                            j == i + 2 + count,
                            count <= 3,
                            j <= n,
                            forall|x: int| 0 <= x < count ==> is_octal_digit(rest[x]),
                            value == octal_value(rest.take(count as int)),
                            count == 0 ==> value == 0,
                            count == 1 ==> value < 8,
                            count == 2 ==> value < 64,
                            value < 512,
                        decreases 3 - count,
                    {
                        let d = octal_digit_value(cs[j]);
                        proof {
                            assert(rest[count as int] == cs@[j as int]);
                            assert(rest.take(count + 1).drop_last() == rest.take(count as int));
                            assert(rest.take(count + 1).last() == rest[count as int]);
                        }
                        value = value * 8 + d;
                        j += 1;
                        count += 1;
                    }
                    proof {
                        assert(count as nat == octal_run(rest));
                        assert(rest.skip(count as int) == s@.skip(j as int));
                    }
                    if count > 0 && value <= 255 {
                        out.push((value as u8) as char);
                    }
                    i = j;
                } else {
                    match escape_of(e) {
                        Some(x) => {
                            out.push(x);
                        },
                        None => {},
                    }
                    i += 2;
                }
            }
        }
        assert(s@.skip(n as int) == Seq::<char>::empty());
        string_of(out.as_slice())
    }

    /// What `echo` prints for `words` (see [`echo_output`]).
    pub fn output_for(words: Vec<String>) -> (r: String)
        ensures
            r@ == echo_output(strings_view(words@)),
    {
        let ghost ws = strings_view(words@);
        let mut words = words;
        let mut add_newline = false;
        if words.len() > 0 {
            let first = chars_of(words[0].as_str());
            let mut flag: Vec<char> = Vec::new();
            flag.push('-');
            flag.push('n');
            assert(flag@ == seq!['-', 'n']);
            if chars_eq(first.as_slice(), flag.as_slice()) {
                add_newline = true;
                words.remove(0);
                assert(strings_view(words@) == ws.drop_first());
            }
        }
        let ghost rest = strings_view(words@);
        let mut texts: Vec<String> = Vec::new();
        let mut k: usize = 0;
        while k < words.len()
            invariant
                k <= words@.len(),
                rest == strings_view(words@),
                strings_view(texts@) == rest.take(k as int).map_values(|w: Seq<char>| escapes(w)),
            decreases words@.len() - k,
        {
            let t = echo::interpret_escapes(words[k].as_str());
            let ghost before = strings_view(texts@);
            texts.push(t);
            proof {
                assert(rest.take(k + 1) == rest.take(k as int).push(rest[k as int]));
                assert(strings_view(texts@) == before.push(escapes(rest[k as int])));
            }
            k += 1;
        }
        assert(rest.take(rest.len() as int) == rest);
        let mut out = join(&texts, " ");
        proof {
            reveal_strlit(" ");
            assert(" "@ == seq![' ']);
        }
        if add_newline {
            out.push('\n');
        }
        out
    }
}

impl Command for echo {
    fn run(&self, input: &str) -> (r: Result<String, CommandError>)
        ensures
            r matches Ok(out) && out@ == echo_output(shell_words_spec(input@)),
    {
        let words = shell_words(input);
        Ok(echo::output_for(words))
    }
}

} // verus!

verus! {

/// `mv`: renames a path.
pub struct mv;

/// `cp`: copies a file, or the files of a directory.
pub struct cp;

/// `rm`: removes a file or a directory tree.
pub struct rm;

/// `grep`: the lines of a text that contain a pattern.
pub struct grep;

/// What `cp` copies.
#[derive(Debug)]
pub struct CopyRequest {
    pub source: String,
    pub destination: String,
    /// Whether the permissions are copied too (`-p`).
    pub preserve: bool,
}

/// The words that are not `-p`, in order.
pub open spec fn without_preserve_flag(ws: Seq<Seq<char>>) -> Seq<Seq<char>>
    decreases ws.len(),
{
    if ws.len() == 0 {
        seq![]
    } else if ws.last() == seq!['-', 'p'] {
        without_preserve_flag(ws.drop_last())
    } else {
        without_preserve_flag(ws.drop_last()).push(ws.last())
    }
}

/// The source and destination of `mv`, when there are exactly two words.
pub open spec fn move_paths(ws: Seq<Seq<char>>) -> Option<(Seq<char>, Seq<char>)> {
    if ws.len() == 2 {
        Some((ws[0], ws[1]))
    } else {
        None
    }
}

/// The source, destination and `-p` flag of `cp`: every `-p` word sets the
/// flag, and exactly two other words must remain.
pub open spec fn copy_paths(ws: Seq<Seq<char>>) -> Option<(Seq<char>, Seq<char>, bool)> {
    let rest = without_preserve_flag(ws);
    if rest.len() == 2 {
        Some((rest[0], rest[1], ws.contains(seq!['-', 'p'])))
    } else {
        None
    }
}

/// The path of `rm`, when there is exactly one word.
pub open spec fn remove_path(ws: Seq<Seq<char>>) -> Option<Seq<char>> {
    if ws.len() == 1 {
        Some(ws[0])
    } else {
        None
    }
}

/// The lines of `text` that contain `pattern`, each followed by a newline.
pub open spec fn matching_lines(pattern: Seq<char>, lines: Seq<Seq<char>>) -> Seq<char>
    decreases lines.len(),
{
    if lines.len() == 0 {
        seq![]
    } else {
        matching_lines(pattern, lines.drop_last()) + if contains_seq(lines.last(), pattern) {
            lines.last().push('\n')
        } else {
            seq![]
        }
    }
}

/// What `grep` shows for its words: with exactly a pattern and a text, the
/// lines of the text that contain the pattern.
pub open spec fn grep_output(ws: Seq<Seq<char>>) -> Option<Seq<char>> {
    if ws.len() == 2 {
        Some(matching_lines(ws[0], lines_of(ws[1])))
    } else {
        None
    }
}

impl mv {
    /// The source and destination among `words` (see [`move_paths`]).
    pub fn from_words(words: Vec<String>) -> (r: Result<(String, String), CommandError>)
        ensures
            match move_paths(strings_view(words@)) {
                Some((src, dest)) => r matches Ok(p) && p.0@ == src && p.1@ == dest,
                None => r matches Err(CommandError::MoveArguments),
            },
    {
        if words.len() != 2 {
            return Err(CommandError::MoveArguments);
        }
        let mut words = words;
        let dest = words.pop().unwrap();
        let src = words.pop().unwrap();
        Ok((src, dest))
    }

    /// The source and destination of `mv` for its input.
    pub fn arguments(input: &str) -> (r: Result<(String, String), CommandError>)
        ensures
            match move_paths(shell_words_spec(input@)) {
                Some((src, dest)) => r matches Ok(p) && p.0@ == src && p.1@ == dest,
                None => r matches Err(CommandError::MoveArguments),
            },
    {
        mv::from_words(shell_words(input))
    }
}

impl cp {
    /// What `cp` copies, from its words (see [`copy_paths`]).
    pub fn from_words(words: Vec<String>) -> (r: Result<CopyRequest, CommandError>)
        ensures
            match copy_paths(strings_view(words@)) {
                Some((src, dest, preserve)) => r matches Ok(q) && q.source@ == src
                    && q.destination@ == dest && q.preserve == preserve,
                None => r matches Err(CommandError::CopyArguments),
            },
    {
        let ghost ws = strings_view(words@);
        let mut flag: Vec<char> = Vec::new();
        flag.push('-');
        flag.push('p');
        assert(flag@ == seq!['-', 'p']);
        let mut rest: Vec<String> = Vec::new();
        let mut preserve = false;
        let mut k: usize = 0;
        while k < words.len()
            invariant
                k <= words@.len(),
                ws == strings_view(words@),
                flag@ == seq!['-', 'p'],
                strings_view(rest@) == without_preserve_flag(ws.take(k as int)),
                preserve == exists|x: int| 0 <= x < k && ws[x] == flag@,
            decreases words@.len() - k,
        {
            let w = chars_of(words[k].as_str());
            proof {
                assert(ws.take(k + 1).drop_last() == ws.take(k as int));
                assert(ws.take(k + 1).last() == ws[k as int]);
                assert(ws[k as int] == words@[k as int]@);
            }
            let ghost before = strings_view(rest@);
            if chars_eq(w.as_slice(), flag.as_slice()) {
                preserve = true;
            } else {
                rest.push(words[k].clone());
                assert(strings_view(rest@) == before.push(ws[k as int]));
            }
            k += 1;
        }
        assert(ws.take(ws.len() as int) == ws);
        proof {
            if preserve {
                let x = choose|x: int| 0 <= x < words@.len() && ws[x] == flag@;
                assert(ws.contains(seq!['-', 'p']));
            }
            if ws.contains(seq!['-', 'p']) {
                let x = choose|x: int| 0 <= x < ws.len() && ws[x] == seq!['-', 'p'];
                assert(preserve);
            }
        }
        if rest.len() != 2 {
            return Err(CommandError::CopyArguments);
        }
        let destination = rest.pop().unwrap();
        let source = rest.pop().unwrap();
        Ok(CopyRequest { source, destination, preserve })
    }

    /// What `cp` copies for its input.
    pub fn arguments(input: &str) -> (r: Result<CopyRequest, CommandError>)
        ensures
            match copy_paths(shell_words_spec(input@)) {
                Some((src, dest, preserve)) => r matches Ok(q) && q.source@ == src
                    && q.destination@ == dest && q.preserve == preserve,
                None => r matches Err(CommandError::CopyArguments),
            },
    {
        cp::from_words(shell_words(input))
    }
}

impl rm {
    /// The path among `words` (see [`remove_path`]).
    pub fn from_words(words: Vec<String>) -> (r: Result<String, CommandError>)
        ensures
            match remove_path(strings_view(words@)) {
                Some(path) => r matches Ok(p) && p@ == path,
                None => r matches Err(CommandError::RemoveArguments),
            },
    {
        if words.len() != 1 {
            return Err(CommandError::RemoveArguments);
        }
        let mut words = words;
        Ok(words.pop().unwrap())
    }

    /// The path of `rm` for its input.
    pub fn arguments(input: &str) -> (r: Result<String, CommandError>)
        ensures
            match remove_path(shell_words_spec(input@)) {
                Some(path) => r matches Ok(p) && p@ == path,
                None => r matches Err(CommandError::RemoveArguments),
            },
    {
        rm::from_words(shell_words(input))
    }
}

impl grep {
    /// The lines of `text` that contain `pattern`, each followed by a newline.
    pub fn matching(pattern: &str, text: &str) -> (r: String)
        ensures
            r@ == matching_lines(pattern@, lines_of(text@)),
    {
        let p = chars_of(pattern);
        let t = chars_of(text);
        let text_lines = lines(t.as_slice());
        let ghost lv = char_vecs_view(text_lines@);
        let mut out = String::new();
        let mut k: usize = 0;
        while k < text_lines.len()
            invariant
                k <= text_lines@.len(),
                lv == char_vecs_view(text_lines@),
                lv == lines_of(text@),
                p@ == pattern@,
                out@ == matching_lines(pattern@, lv.take(k as int)),
            decreases text_lines@.len() - k,
        {
            let line = &text_lines[k];
            proof {
                assert(lv.take(k + 1).drop_last() == lv.take(k as int));
                assert(lv.take(k + 1).last() == line@);
            }
            if contains_chars(line.as_slice(), p.as_slice()) {
                let s = string_of(line.as_slice());
                out.append(s.as_str());
                out.push('\n');
            }
            k += 1;
        }
        assert(lv.take(lv.len() as int) == lv);
        out
    }

    /// What `grep` shows for its words (see [`grep_output`]).
    pub fn from_words(words: Vec<String>) -> (r: Result<String, CommandError>)
        ensures
            match grep_output(strings_view(words@)) {
                Some(out) => r matches Ok(o) && o@ == out,
                None => r matches Err(CommandError::GrepArguments),
            },
    {
        if words.len() != 2 {
            return Err(CommandError::GrepArguments);
        }
        Ok(grep::matching(words[0].as_str(), words[1].as_str()))
    }
}

impl Command for grep {
    fn run(&self, input: &str) -> (r: Result<String, CommandError>)
        ensures
            match grep_output(shell_words_spec(input@)) {
                Some(out) => r matches Ok(o) && o@ == out,
                None => r matches Err(CommandError::GrepArguments),
            },
    {
        grep::from_words(shell_words(input))
    }
}

} // verus!

verus! {

/// `grep` looks at each line on its own: on two runs of lines one after the
/// other it prints what it prints for the first run, then what it prints for
/// the second, so every matching line is printed, repeated ones too.
pub proof fn lemma_matching_lines_append(pattern: Seq<char>, a: Seq<Seq<char>>, b: Seq<Seq<char>>)
    ensures
        matching_lines(pattern, a + b) == matching_lines(pattern, a) + matching_lines(pattern, b),
    decreases b.len(),
{
    if b.len() == 0 {
        assert(a + b == a);
    } else {
        lemma_matching_lines_append(pattern, a, b.drop_last());
        assert((a + b).drop_last() == a + b.drop_last());
        assert((a + b).last() == b.last());
    }
}

/// A line given twice, one under the other, is printed twice when it
/// matches: `grep` on `t`, a newline and `t` again prints what it prints on
/// `t`, two times.
pub proof fn lemma_grep_repeated_line(pattern: Seq<char>, t: Seq<char>)
    requires
        t.len() > 0,
        !t.contains('\n'),
        t.last() != '\r',
    ensures
        matching_lines(pattern, lines_of(t.push('\n') + t)) == matching_lines(
            pattern,
            lines_of(t),
        ) + matching_lines(pattern, lines_of(t)),
{
    crate::text::lemma_split_on_without_sep(t, '\n');
    crate::text::lemma_split_on_joined(t, t, '\n');
    assert(seq![t] + seq![t] == seq![t, t]);
    assert(seq![t].drop_last() == Seq::<Seq<char>>::empty());
    assert(Seq::<Seq<char>>::empty().map_values(|p: Seq<char>| strip_cr(p)) == Seq::<
        Seq<char>,
    >::empty());
    assert(lines_of(t) == seq![t]);
    assert(seq![t, t].drop_last() == seq![t]);
    assert(seq![t].map_values(|p: Seq<char>| strip_cr(p)) == seq![t]);
    assert(lines_of(t.push('\n') + t) == seq![t, t]);
    lemma_matching_lines_append(pattern, seq![t], seq![t]);
}

/// On one line, `grep` prints that line and a newline when it contains the
/// pattern, and nothing otherwise.
pub proof fn lemma_matching_lines_single(pattern: Seq<char>, line: Seq<char>)
    ensures
        matching_lines(pattern, seq![line]) == if contains_seq(line, pattern) {
            line.push('\n')
        } else {
            Seq::<char>::empty()
        },
{
    let tail = if contains_seq(line, pattern) {
        line.push('\n')
    } else {
        Seq::<char>::empty()
    };
    assert(seq![line].drop_last() == Seq::<Seq<char>>::empty());
    assert(seq![line].last() == line);
    assert(matching_lines(pattern, Seq::<Seq<char>>::empty()) == Seq::<char>::empty());
    assert(Seq::<char>::empty() + tail == tail);
}

/// `grep` prints one line per line that contains the pattern: its output has
/// as many newlines as there are such lines, when no line holds a newline.
pub proof fn lemma_matching_lines_count(pattern: Seq<char>, lines: Seq<Seq<char>>)
    requires
        forall|i: int| 0 <= i < lines.len() ==> !(#[trigger] lines[i]).contains('\n'),
    ensures
        newline_count(matching_lines(pattern, lines)) == lines.filter(
            |l: Seq<char>| contains_seq(l, pattern),
        ).len(),
    decreases lines.len(),
{
    if lines.len() > 0 {
        let init = lines.drop_last();
        let l = lines.last();
        lemma_matching_lines_count(pattern, init);
        reveal(Seq::filter);
        assert(lines.drop_last() == init);
        assert(!l.contains('\n'));
        lemma_newline_count_append(matching_lines(pattern, init), if contains_seq(l, pattern) {
            l.push('\n')
        } else {
            Seq::<char>::empty()
        });
        if contains_seq(l, pattern) {
            lemma_newline_count_append(l, seq!['\n']);
            lemma_newline_count_free(l);
            assert(l + seq!['\n'] == l.push('\n'));
            assert(newline_count(seq!['\n']) == 1) by {
                assert(seq!['\n'].drop_last() == Seq::<char>::empty());
                assert(seq!['\n'].last() == '\n');
                assert(newline_count(Seq::<char>::empty()) == 0);
            }
        } else {
            assert(newline_count(Seq::<char>::empty()) == 0);
        }
    }
}

/// How many newlines `s` holds.
pub open spec fn newline_count(s: Seq<char>) -> nat
    decreases s.len(),
{
    if s.len() == 0 {
        0
    } else {
        newline_count(s.drop_last()) + if s.last() == '\n' {
            1nat
        } else {
            0nat
        }
    }
}

/// Newlines of two texts one after the other add up.
proof fn lemma_newline_count_append(a: Seq<char>, b: Seq<char>)
    ensures
        newline_count(a + b) == newline_count(a) + newline_count(b),
    decreases b.len(),
{
    if b.len() == 0 {
        assert(a + b == a);
    } else {
        lemma_newline_count_append(a, b.drop_last());
        assert((a + b).drop_last() == a + b.drop_last());
        assert((a + b).last() == b.last());
    }
}

/// A text without newlines has none.
proof fn lemma_newline_count_free(s: Seq<char>)
    requires
        !s.contains('\n'),
    ensures
        newline_count(s) == 0,
    decreases s.len(),
{
    if s.len() > 0 {
        assert(s.last() == s[s.len() - 1]);
        assert(!s.drop_last().contains('\n')) by {
            if s.drop_last().contains('\n') {
                let k = choose|k: int| 0 <= k < s.drop_last().len() && s.drop_last()[k] == '\n';
                assert(s[k] == '\n');
            }
        }
        lemma_newline_count_free(s.drop_last());
    }
}

/// Text without backslashes is echoed as it is.
pub proof fn lemma_escapes_plain(s: Seq<char>)
    requires
        !s.contains('\\'),
    ensures
        escapes(s) == s,
    decreases s.len(),
{
    if s.len() > 0 {
        assert(s[0] != '\\');
        assert(!s.drop_first().contains('\\')) by {
            if s.drop_first().contains('\\') {
                let k = choose|k: int| 0 <= k < s.drop_first().len() && s.drop_first()[k] == '\\';
                assert(s[k + 1] == '\\');
            }
        }
        lemma_escapes_plain(s.drop_first());
        assert(seq![s[0]] + s.drop_first() == s);
    }
}

} // verus!

verus! {

/// One file operation of `cp`.
#[derive(Debug)]
pub enum CopyOp {
    /// Copy the contents of `from` to `to`.
    CopyFile { from: String, to: String },
    /// Give `to` the permissions of `from`.
    CopyPermissions { from: String, to: String },
}

/// The mathematical content of a [`CopyOp`].
pub enum CopyOpView {
    CopyFile { from: Seq<char>, to: Seq<char> },
    CopyPermissions { from: Seq<char>, to: Seq<char> },
}

impl View for CopyOp {
    type V = CopyOpView;

    open spec fn view(&self) -> CopyOpView {
        match self {
            CopyOp::CopyFile { from, to } => CopyOpView::CopyFile { from: from@, to: to@ },
            CopyOp::CopyPermissions { from, to } => CopyOpView::CopyPermissions {
                from: from@,
                to: to@,
            },
        }
    }
}

/// The views of a sequence of operations.
pub open spec fn copy_ops_view(s: Seq<CopyOp>) -> Seq<CopyOpView> {
    s.map_values(|o: CopyOp| o@)
}

/// The operations that copy one file: its contents, then, with `-p`, its
/// permissions.
pub open spec fn copy_ops_spec(from: Seq<char>, to: Seq<char>, preserve: bool) -> Seq<CopyOpView> {
    if preserve {
        seq![CopyOpView::CopyFile { from, to }, CopyOpView::CopyPermissions { from, to }]
    } else {
        seq![CopyOpView::CopyFile { from, to }]
    }
}

/// The path of the entry `name` inside the directory `dir` (what
/// `Path::join` gives for a plain name): a separator goes between them unless
/// `dir` is empty or already ends with one.
pub open spec fn child_path(dir: Seq<char>, name: Seq<char>) -> Seq<char> {
    if dir.len() == 0 || dir.last() == '/' {
        dir + name
    } else {
        dir + seq!['/'] + name
    }
}

impl cp {
    /// The operations that copy one file (see [`copy_ops_spec`]).
    pub fn copy_ops(from: &str, to: &str, preserve: bool) -> (r: Vec<CopyOp>)
        ensures
            copy_ops_view(r@) == copy_ops_spec(from@, to@, preserve),
    {
        let mut r: Vec<CopyOp> = Vec::new();
        r.push(CopyOp::CopyFile { from: String::from_str(from), to: String::from_str(to) });
        if preserve {
            r.push(
                CopyOp::CopyPermissions { from: String::from_str(from), to: String::from_str(to) },
            );
        }
        assert(copy_ops_view(r@) == copy_ops_spec(from@, to@, preserve));
        r
    }

    /// Where an entry of a copied directory goes (see [`child_path`]).
    pub fn child_destination(dir: &str, name: &str) -> (r: String)
        ensures
            r@ == child_path(dir@, name@),
    {
        let mut r = String::from_str(dir);
        let cs = chars_of(dir);
        if cs.len() > 0 && cs[cs.len() - 1] != '/' {
            r.push('/');
        }
        r.append(name);
        r
    }

    /// The operations for one entry of a copied directory: copied into the
    /// destination under its own name; an entry without a name is an error.
    pub fn entry_ops(destination: &str, entry_path: &str, entry_name: Option<String>, preserve: bool) -> (r:
        Result<Vec<CopyOp>, CommandError>)
        ensures
            match entry_name {
                Some(name) => r matches Ok(ops) && copy_ops_view(ops@) == copy_ops_spec(
                    entry_path@,
                    child_path(destination@, name@),
                    preserve,
                ),
                None => r matches Err(CommandError::Failed(m)) && m@ == "Invalid file name"@,
            },
    {
        match entry_name {
            Some(name) => {
                let to = cp::child_destination(destination, name.as_str());
                Ok(cp::copy_ops(entry_path, to.as_str(), preserve))
            },
            None => Err(CommandError::Failed(String::from_str("Invalid file name"))),
        }
    }
}

} // verus!

verus! {

/// `cd` goes to its first word when that is not `-`, whatever follows it.
pub proof fn lemma_cd_first_word(w: Seq<char>, rest: Seq<char>, previous: Option<Seq<char>>)
    requires
        !w.contains(' '),
        w != seq!['-'],
    ensures
        cd_destination(w, previous) == w,
        cd_destination(w.push(' ') + rest, previous) == w,
{
    crate::text::lemma_split_on_without_sep(w, ' ');
    crate::text::lemma_split_on_joined(w, rest, ' ');
    assert((seq![w] + split_on(rest, ' '))[0] == w);
}

/// `mv` moves its first word to its second.
pub proof fn lemma_move_paths(src: Seq<char>, dest: Seq<char>)
    ensures
        move_paths(seq![src, dest]) == Some((src, dest)),
{
}

/// `rm` removes its only word.
pub proof fn lemma_remove_path(path: Seq<char>)
    ensures
        remove_path(seq![path]) == Some(path),
{
}

/// `cp` copies its first word to its second, and `-p` anywhere among the
/// words asks for the permissions too without counting as a path.
pub proof fn lemma_copy_paths(src: Seq<char>, dest: Seq<char>)
    requires
        src != seq!['-', 'p'],
        dest != seq!['-', 'p'],
    ensures
        copy_paths(seq![src, dest]) == Some((src, dest, false)),
        copy_paths(seq![seq!['-', 'p'], src, dest]) == Some((src, dest, true)),
        copy_paths(seq![src, seq!['-', 'p'], dest]) == Some((src, dest, true)),
        copy_paths(seq![src, dest, seq!['-', 'p']]) == Some((src, dest, true)),
{
    let p = seq!['-', 'p'];
    reveal_with_fuel(without_preserve_flag, 4);
    assert(seq![src, dest].drop_last() == seq![src]);
    assert(seq![src].drop_last() == Seq::<Seq<char>>::empty());
    assert(without_preserve_flag(seq![src]) == seq![src]);
    assert(without_preserve_flag(seq![src, dest]) == seq![src, dest]);
    assert(!seq![src, dest].contains(p)) by {
        if seq![src, dest].contains(p) {
            let k = choose|k: int| 0 <= k < 2 && seq![src, dest][k] == p;
        }
    }
    assert(seq![p, src, dest].drop_last() == seq![p, src]);
    assert(seq![p, src].drop_last() == seq![p]);
    assert(seq![p].drop_last() == Seq::<Seq<char>>::empty());
    assert(without_preserve_flag(seq![p]) == Seq::<Seq<char>>::empty());
    assert(without_preserve_flag(seq![p, src]) == seq![src]);
    assert(without_preserve_flag(seq![p, src, dest]) == seq![src, dest]);
    assert(seq![p, src, dest][0] == p);
    assert(seq![src, p, dest].drop_last() == seq![src, p]);
    assert(seq![src, p].drop_last() == seq![src]);
    assert(without_preserve_flag(seq![src, p]) == seq![src]);
    assert(without_preserve_flag(seq![src, p, dest]) == seq![src, dest]);
    assert(seq![src, p, dest][1] == p);
    assert(seq![src, dest, p].drop_last() == seq![src, dest]);
    assert(without_preserve_flag(seq![src, dest, p]) == seq![src, dest]);
    assert(seq![src, dest, p][2] == p);
}

/// `ls` shows every entry exactly where its group puts it: the directories
/// first, then the other entries, each group in the order given, and
/// nothing is lost or added.
pub proof fn lemma_ls_order(s: Seq<DirItemView>)
    ensures
        ls_order(s).len() == s.len(),
        forall|i: int, j: int|
            0 <= i < j < ls_order(s).len() && (#[trigger] ls_order(s)[j]).is_dir ==> (
            #[trigger] ls_order(s)[i]).is_dir,
        forall|x: DirItemView| #[trigger] ls_order(s).contains(x) <==> s.contains(x),
    decreases s.len(),
{
    lemma_dirs_files(s);
    let d = dirs_of(s);
    let f = files_of(s);
    assert forall|i: int, j: int|
        0 <= i < j < ls_order(s).len() && (#[trigger] ls_order(s)[j]).is_dir implies (
        #[trigger] ls_order(s)[i]).is_dir by {
        if j >= d.len() {
            assert(ls_order(s)[j] == f[j - d.len()]);
        } else {
            assert(ls_order(s)[i] == d[i]);
        }
    }
    assert forall|x: DirItemView| #[trigger] ls_order(s).contains(x) <==> s.contains(x) by {
        if ls_order(s).contains(x) {
            let k = choose|k: int| 0 <= k < ls_order(s).len() && ls_order(s)[k] == x;
            if k < d.len() {
                assert(d[k] == x);
                assert(d.contains(x));
            } else {
                assert(f[k - d.len()] == x);
                assert(f.contains(x));
            }
        }
        if s.contains(x) {
            if x.is_dir {
                assert(d.contains(x));
                let k = choose|k: int| 0 <= k < d.len() && d[k] == x;
                assert(ls_order(s)[k] == x);
            } else {
                assert(f.contains(x));
                let k = choose|k: int| 0 <= k < f.len() && f[k] == x;
                assert(ls_order(s)[d.len() + k] == x);
            }
        }
    }
}

/// The directories are the directory entries, the files the others, and
/// together they are as many as the entries.
proof fn lemma_dirs_files(s: Seq<DirItemView>)
    ensures
        dirs_of(s).len() + files_of(s).len() == s.len(),
        forall|i: int| 0 <= i < dirs_of(s).len() ==> (#[trigger] dirs_of(s)[i]).is_dir,
        forall|i: int| 0 <= i < files_of(s).len() ==> !(#[trigger] files_of(s)[i]).is_dir,
        forall|x: DirItemView| x.is_dir ==> (#[trigger] dirs_of(s).contains(x) <==> s.contains(x)),
        forall|x: DirItemView| !x.is_dir ==> (#[trigger] files_of(s).contains(x) <==> s.contains(x)),
        forall|x: DirItemView| #[trigger] dirs_of(s).contains(x) ==> x.is_dir,
        forall|x: DirItemView| #[trigger] files_of(s).contains(x) ==> !x.is_dir,
    decreases s.len(),
{
    if s.len() > 0 {
        let p = s.drop_last();
        let l = s.last();
        lemma_dirs_files(p);
        assert(s == p.push(l));
        assert forall|x: DirItemView| #[trigger] s.contains(x) <==> (p.contains(x) || x == l) by {
            if s.contains(x) {
                let k = choose|k: int| 0 <= k < s.len() && s[k] == x;
                if k < p.len() {
                    assert(p[k] == x);
                }
            }
            if p.contains(x) {
                let k = choose|k: int| 0 <= k < p.len() && p[k] == x;
                assert(s[k] == x);
            }
            if x == l {
                assert(s[s.len() - 1] == x);
            }
        }
        let dp = dirs_of(p);
        let fp = files_of(p);
        assert forall|x: DirItemView| #[trigger] dp.push(l).contains(x) <==> (dp.contains(x) || x == l) by {
            if dp.push(l).contains(x) {
                let k = choose|k: int| 0 <= k < dp.push(l).len() && dp.push(l)[k] == x;
                if k < dp.len() {
                    assert(dp[k] == x);
                }
            }
            if dp.contains(x) {
                let k = choose|k: int| 0 <= k < dp.len() && dp[k] == x;
                assert(dp.push(l)[k] == x);
            }
            if x == l {
                assert(dp.push(l)[dp.len() as int] == x);
            }
        }
        assert forall|x: DirItemView| #[trigger] fp.push(l).contains(x) <==> (fp.contains(x) || x == l) by {
            if fp.push(l).contains(x) {
                let k = choose|k: int| 0 <= k < fp.push(l).len() && fp.push(l)[k] == x;
                if k < fp.len() {
                    assert(fp[k] == x);
                }
            }
            if fp.contains(x) {
                let k = choose|k: int| 0 <= k < fp.len() && fp[k] == x;
                assert(fp.push(l)[k] == x);
            }
            if x == l {
                assert(fp.push(l)[fp.len() as int] == x);
            }
        }
    }
}

} // verus!

verus! {

/// `echo -n` prints what `echo` prints without the `-n`, followed by a
/// newline.
pub proof fn lemma_echo_n(words: Seq<Seq<char>>)
    requires
        words.len() == 0 || words[0] != seq!['-', 'n'],
    ensures
        echo_output(seq![seq!['-', 'n']] + words) == echo_output(words).push('\n'),
{
    let all = seq![seq!['-', 'n']] + words;
    assert(all[0] == seq!['-', 'n']);
    assert(all.drop_first() == words);
}

/// `\c` ends the text: what comes after it is not printed.
pub proof fn lemma_escape_c_stops(a: Seq<char>, b: Seq<char>)
    requires
        !a.contains('\\'),
    ensures
        escapes(a + seq!['\\', 'c'] + b) == a,
    decreases a.len(),
{
    let s = a + seq!['\\', 'c'] + b;
    if a.len() == 0 {
        assert(s == seq!['\\', 'c'] + b);
        assert(s[0] == '\\');
        assert(s[1] == 'c');
        assert(a == Seq::<char>::empty());
    } else {
        assert(a[0] != '\\');
        assert(!a.drop_first().contains('\\')) by {
            if a.drop_first().contains('\\') {
                let k = choose|k: int| 0 <= k < a.drop_first().len() && a.drop_first()[k] == '\\';
                assert(a[k + 1] == '\\');
            }
        }
        lemma_escape_c_stops(a.drop_first(), b);
        assert(s[0] == a[0]);
        assert(s.drop_first() == a.drop_first() + seq!['\\', 'c'] + b);
        assert(seq![a[0]] + a.drop_first() == a);
    }
}

} // verus!
