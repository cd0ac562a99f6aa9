//! The built-in shell: its language and its commands.

pub mod command;
pub mod lang;
pub mod dispatch;

use vstd::prelude::*;
use crate::text::{chars_of, string_of, decimal, decimal_string};

verus! {

/// Whether `c` is an ASCII letter or digit.
pub open spec fn is_ascii_alnum(c: char) -> bool {
    ('a' <= c <= 'z') || ('A' <= c <= 'Z') || ('0' <= c <= '9')
}

/// `c` with an ASCII capital letter made small.
pub open spec fn ascii_lower(c: char) -> char {
    if 'A' <= c <= 'Z' {
        ((c as u32) + 32) as char
    } else {
        c
    }
}

/// A host name made fit for RFC 1035: letters and digits stay (letters made
/// small), every other character becomes `-`.
pub open spec fn rfc1035_spec(s: Seq<char>) -> Seq<char> {
    s.map_values(|c: char| if is_ascii_alnum(c) { ascii_lower(c) } else { '-' })
}

/// `s` made fit for RFC 1035 (see [`rfc1035_spec`]).
pub fn to_rfc1035(s: &str) -> (r: String)
    ensures
        r@ == rfc1035_spec(s@),
{
    let cs = chars_of(s);
    let mut out: Vec<char> = Vec::new();
    let mut i: usize = 0;
    while i < cs.len()
        invariant
            i <= cs@.len(),
            cs@ == s@,
            out@ == rfc1035_spec(s@.take(i as int)),
        decreases cs@.len() - i,
    {
        let c = cs[i];
        let d = if ('a' <= c && c <= 'z') || ('0' <= c && c <= '9') {
            c
        } else if 'A' <= c && c <= 'Z' {
            ((c as u8) + 32) as char
        } else {
            '-'
        };
        proof {
            if 'A' <= c <= 'Z' {
                assert(((c as u8) + 32) as char == ((c as u32) + 32) as char);
            }
            assert(s@.take(i + 1) == s@.take(i as int).push(c));
        }
        out.push(d);
        i += 1;
    }
    assert(s@.take(s@.len() as int) == s@);
    string_of(out.as_slice())
}

/// `n` written with at least two digits.
pub open spec fn two_digits(n: nat) -> Seq<char> {
    if n < 10 {
        seq!['0'] + decimal(n)
    } else {
        decimal(n)
    }
}

/// The prompt of the shell:
/// `[hh:mm:ss] - user@host:dir` on one line and `$ ` on the next.
pub open spec fn prompt_spec(
    hour: nat,
    minute: nat,
    second: nat,
    username: Seq<char>,
    hostname: Seq<char>,
    pwd: Seq<char>,
) -> Seq<char> {
    seq!['['] + two_digits(hour) + seq![':'] + two_digits(minute) + seq![':'] + two_digits(second)
        + seq![']', ' ', '-', ' '] + username + seq!['@'] + hostname + seq![':'] + pwd + seq![
        '\n',
        '$',
        ' ',
    ]
}

/// `n` with at least two digits.
fn push_two_digits(out: &mut String, n: u32)
    ensures
        final(out)@ == old(out)@ + two_digits(n as nat),
{
    if n < 10 {
        out.push('0');
    }
    let d = decimal_string(n as u64);
    out.append(d.as_str());
}

/// The prompt of the shell (see [`prompt_spec`]).
pub fn prompt(hour: u32, minute: u32, second: u32, username: &str, hostname: &str, pwd: &str) -> (r:
    String)
    ensures
        r@ == prompt_spec(hour as nat, minute as nat, second as nat, username@, hostname@, pwd@),
{
    let mut r = String::new();
    r.push('[');
    push_two_digits(&mut r, hour);
    r.push(':');
    push_two_digits(&mut r, minute);
    r.push(':');
    push_two_digits(&mut r, second);
    r.push(']');
    r.push(' ');
    r.push('-');
    r.push(' ');
    r.append(username);
    r.push('@');
    r.append(hostname);
    r.push(':');
    r.append(pwd);
    r.push('\n');
    r.push('$');
    r.push(' ');
    r
}

} // verus!

verus! {

/// A host name made fit for RFC 1035 keeps its length, holds only small
/// letters, digits and `-`, has `-` exactly where the name had something
/// other than a letter or digit, and agrees with the name up to case
/// elsewhere.
pub proof fn lemma_rfc1035_shape(s: Seq<char>)
    ensures
        rfc1035_spec(s).len() == s.len(),
        forall|i: int|
            0 <= i < s.len() ==> {
                let c = #[trigger] rfc1035_spec(s)[i];
                &&& ('a' <= c <= 'z' || '0' <= c <= '9' || c == '-')
                &&& (c == '-' <==> !is_ascii_alnum(s[i]))
                &&& ('a' <= s[i] <= 'z' || '0' <= s[i] <= '9' ==> c == s[i])
                &&& ('A' <= s[i] <= 'Z' ==> c as u32 == s[i] as u32 + 32)
            },
{
    assert forall|i: int| 0 <= i < s.len() implies {
        let c = #[trigger] rfc1035_spec(s)[i];
        &&& ('a' <= c <= 'z' || '0' <= c <= '9' || c == '-')
        &&& (c == '-' <==> !is_ascii_alnum(s[i]))
        &&& ('a' <= s[i] <= 'z' || '0' <= s[i] <= '9' ==> c == s[i])
        &&& ('A' <= s[i] <= 'Z' ==> c as u32 == s[i] as u32 + 32)
    } by {
        let x = s[i];
        if 'A' <= x <= 'Z' {
            let y = ((x as u32) + 32) as char;
            assert(y as u32 == x as u32 + 32);
            assert('a' <= y <= 'z');
        }
    }
}

} // verus!
