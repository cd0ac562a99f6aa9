//! Character-level helpers shared by the shell and the packer.

use vstd::prelude::*;

verus! {

/// `String::push` appends one character to the end of the string.
pub assume_specification[ String::push ](string: &mut String, ch: char)
    ensures
        final(string)@ == old(string)@.push(ch),
;

/// The characters of `s`, in order.
pub fn chars_of(s: &str) -> (r: Vec<char>)
    ensures
        r@ == s@,
{
    let n = s.unicode_len();
    let mut v: Vec<char> = Vec::new();
    let mut i: usize = 0;
    while i < n
        invariant
            n == s@.len(),
            i <= n,
            v@ == s@.subrange(0, i as int),
        decreases n - i,
    {
        v.push(s.get_char(i));
        i += 1;
    }
    v
}

/// A string made of the characters of `cs`.
pub fn string_of(cs: &[char]) -> (r: String)
    ensures
        r@ == cs@,
{
    let mut s = String::new();
    let mut i: usize = 0;
    while i < cs.len()
        invariant
            i <= cs@.len(),
            s@ == cs@.subrange(0, i as int),
        decreases cs@.len() - i,
    {
        s.push(cs[i]);
        i += 1;
    }
    s
}

} // verus!

verus! {

/// Unicode `White_Space`, the property that `char::is_whitespace` tests.
pub open spec fn is_white_space(c: char) -> bool {
    let u = c as u32;
    ||| 0x9 <= u <= 0xd
    ||| u == 0x20
    ||| u == 0x85
    ||| u == 0xa0
    ||| u == 0x1680
    ||| 0x2000 <= u <= 0x200a
    ||| u == 0x2028
    ||| u == 0x2029
    ||| u == 0x202f
    ||| u == 0x205f
    ||| u == 0x3000
}

/// Whether `c` is Unicode white space.
pub fn is_whitespace(c: char) -> (r: bool)
    ensures
        r == is_white_space(c),
{
    let u = c as u32;
    (0x9 <= u && u <= 0xd) || u == 0x20 || u == 0x85 || u == 0xa0 || u == 0x1680 || (0x2000 <= u
        && u <= 0x200a) || u == 0x2028 || u == 0x2029 || u == 0x202f || u == 0x205f || u
        == 0x3000
}

/// The maximal runs of non-white-space characters of `s`, in order
/// (what `str::split_whitespace` yields).
pub open spec fn ws_words(s: Seq<char>) -> Seq<Seq<char>>
    decreases s.len(),
{
    if s.len() == 0 {
        seq![]
    } else {
        let p = s.drop_last();
        let c = s.last();
        let w = ws_words(p);
        if is_white_space(c) {
            w
        } else if p.len() > 0 && !is_white_space(p.last()) {
            w.drop_last().push(w.last().push(c))
        } else {
            w.push(seq![c])
        }
    }
}

/// The character sequences of a sequence of strings.
pub open spec fn strings_view(v: Seq<String>) -> Seq<Seq<char>> {
    v.map_values(|s: String| s@)
}

/// No word is empty, and no word holds white space.
pub proof fn lemma_ws_words_shape(s: Seq<char>)
    ensures
        forall|i: int| 0 <= i < ws_words(s).len() ==> #[trigger] ws_words(s)[i].len() > 0,
        forall|i: int, j: int|
            0 <= i < ws_words(s).len() && 0 <= j < ws_words(s)[i].len() ==> !is_white_space(
                #[trigger] ws_words(s)[i][j],
            ),
    decreases s.len(),
{
    if s.len() > 0 {
        lemma_ws_words_shape(s.drop_last());
        let w = ws_words(s.drop_last());
        let p = s.drop_last();
        if !is_white_space(s.last()) && p.len() > 0 && !is_white_space(p.last()) {
            lemma_ws_words_nonempty_when_open(p);
            assert forall|i: int, j: int|
                0 <= i < ws_words(s).len() && 0 <= j < ws_words(s)[i].len() implies !is_white_space(
                #[trigger] ws_words(s)[i][j],
            ) by {
                if i < w.len() - 1 {
                    assert(ws_words(s)[i] == w[i]);
                } else {
                    assert(ws_words(s)[i] == w.last().push(s.last()));
                    if j < w.last().len() {
                        assert(ws_words(s)[i][j] == w[w.len() - 1][j]);
                    }
                }
            }
        }
    }
}

/// When the last character is not white space, there is a last word.
pub proof fn lemma_ws_words_nonempty_when_open(s: Seq<char>)
    requires
        s.len() > 0,
        !is_white_space(s.last()),
    ensures
        ws_words(s).len() > 0,
    decreases s.len(),
{
}

/// A copy of the strings of `v`.
pub fn copy_strings(v: &Vec<String>) -> (r: Vec<String>)
    ensures
        strings_view(r@) == strings_view(v@),
{
    let mut r: Vec<String> = Vec::new();
    let mut k: usize = 0;
    while k < v.len()
        invariant
            k <= v@.len(),
            strings_view(r@) == strings_view(v@).take(k as int),
        decreases v@.len() - k,
    {
        let ghost before = strings_view(r@);
        r.push(v[k].clone());
        assert(strings_view(r@) == before.push(v@[k as int]@));
        assert(strings_view(v@).take(k + 1) == strings_view(v@).take(k as int).push(v@[k as int]@));
        k += 1;
    }
    assert(strings_view(v@).take(v@.len() as int) == strings_view(v@));
    r
}

/// Splits `s` at white space, dropping empty pieces (`str::split_whitespace`).
pub fn split_whitespace(s: &str) -> (r: Vec<String>)
    ensures
        strings_view(r@) == ws_words(s@),
{
    let cs = chars_of(s);
    let mut words: Vec<String> = Vec::new();
    let mut cur: Vec<char> = Vec::new();
    let mut i: usize = 0;
    while i < cs.len()
        invariant
            i <= cs@.len(),
            cs@ == s@,
            cur@.len() > 0 <==> (i > 0 && !is_white_space(cs@[i - 1])),
            ws_words(cs@.take(i as int)) == if cur@.len() > 0 {
                strings_view(words@).push(cur@)
            } else {
                strings_view(words@)
            },
        decreases cs@.len() - i,
    {
        let c = cs[i];
        let ghost before = cs@.take(i as int);
        assert(cs@.take(i + 1).drop_last() == before);
        assert(cs@.take(i + 1).last() == c);
        if is_whitespace(c) {
            if cur.len() > 0 {
                let w = string_of(&cur);
                words.push(w);
                cur = Vec::new();
                assert(strings_view(words@) == ws_words(before));
            }
            assert(ws_words(cs@.take(i + 1)) == ws_words(before));
        } else {
            let ghost old_cur = cur@;
            cur.push(c);
            proof {
                let w = ws_words(before);
                if old_cur.len() > 0 {
                    assert(before.last() == cs@[i - 1]);
                    assert(w.drop_last() == strings_view(words@));
                    assert(w.last() == old_cur);
                } else {
                    assert(cur@ == seq![c]);
                }
                assert(ws_words(cs@.take(i + 1)) == strings_view(words@).push(cur@));
            }
        }
        i += 1;
    }
    assert(cs@.take(cs@.len() as int) == cs@);
    if cur.len() > 0 {
        let w = string_of(&cur);
        words.push(w);
    }
    proof {
        assert(strings_view(words@) == ws_words(s@));
    }
    words
}

} // verus!

verus! {

/// `parts` separated by `sep` (what `[String]::join` builds).
pub open spec fn joined(parts: Seq<Seq<char>>, sep: Seq<char>) -> Seq<char>
    decreases parts.len(),
{
    if parts.len() == 0 {
        seq![]
    } else if parts.len() == 1 {
        parts[0]
    } else {
        joined(parts.drop_last(), sep) + sep + parts.last()
    }
}

/// Joins `parts` with `sep` between each two neighbours.
pub fn join(parts: &Vec<String>, sep: &str) -> (r: String)
    ensures
        r@ == joined(strings_view(parts@), sep@),
{
    let mut r = String::new();
    let mut i: usize = 0;
    while i < parts.len()
        invariant
            i <= parts@.len(),
            r@ == joined(strings_view(parts@).take(i as int), sep@),
        decreases parts@.len() - i,
    {
        if i > 0 {
            r.append(sep);
        }
        r.append(parts[i].as_str());
        proof {
            let t = strings_view(parts@).take(i + 1);
            assert(t.drop_last() == strings_view(parts@).take(i as int));
            if i == 0 {
                assert(r@ == t[0]);
            }
        }
        i += 1;
    }
    assert(strings_view(parts@).take(parts@.len() as int) == strings_view(parts@));
    r
}

} // verus!

verus! {

/// The pieces of `s` between occurrences of `sep` (what `str::split` with a
/// character yields); there is always at least one piece.
pub open spec fn split_on(s: Seq<char>, sep: char) -> Seq<Seq<char>>
    decreases s.len(),
{
    if s.len() == 0 {
        seq![seq![]]
    } else {
        let w = split_on(s.drop_last(), sep);
        if s.last() == sep {
            w.push(seq![])
        } else {
            w.drop_last().push(w.last().push(s.last()))
        }
    }
}

/// There is always a piece.
pub proof fn lemma_split_on_len(s: Seq<char>, sep: char)
    ensures
        split_on(s, sep).len() >= 1,
    decreases s.len(),
{
    if s.len() > 0 {
        lemma_split_on_len(s.drop_last(), sep);
    }
}

/// Text without the separator is one piece.
pub proof fn lemma_split_on_without_sep(s: Seq<char>, sep: char)
    requires
        !s.contains(sep),
    ensures
        split_on(s, sep) == seq![s],
    decreases s.len(),
{
    if s.len() > 0 {
        assert(s.last() == s[s.len() - 1]);
        assert(!s.drop_last().contains(sep)) by {
            if s.drop_last().contains(sep) {
                let k = choose|k: int| 0 <= k < s.drop_last().len() && s.drop_last()[k] == sep;
                assert(s[k] == sep);
            }
        }
        lemma_split_on_without_sep(s.drop_last(), sep);
        assert(s.last() != sep);
        assert(s.drop_last().push(s.last()) == s);
        let w = seq![s.drop_last()];
        assert(w.drop_last() == Seq::<Seq<char>>::empty());
        assert(w.last() == s.drop_last());
        assert(Seq::<Seq<char>>::empty().push(s) == seq![s]);
    } else {
        assert(s == Seq::<char>::empty());
    }
}

/// Splitting two texts joined by the separator gives the pieces of the
/// first, then the pieces of the second.
pub proof fn lemma_split_on_joined(a: Seq<char>, b: Seq<char>, sep: char)
    ensures
        split_on(a.push(sep) + b, sep) == split_on(a, sep) + split_on(b, sep),
    decreases b.len(),
{
    if b.len() == 0 {
        assert(a.push(sep) + b == a.push(sep));
        assert(a.push(sep).drop_last() == a);
        assert(split_on(b, sep) == seq![Seq::<char>::empty()]);
    } else {
        let x = a.push(sep) + b;
        lemma_split_on_joined(a, b.drop_last(), sep);
        lemma_split_on_len(b.drop_last(), sep);
        assert(x.drop_last() == a.push(sep) + b.drop_last());
        assert(x.last() == b.last());
        let pa = split_on(a, sep);
        let pb = split_on(b.drop_last(), sep);
        if b.last() == sep {
            assert((pa + pb).push(seq![]) == pa + pb.push(seq![]));
        } else {
            assert((pa + pb).drop_last() == pa + pb.drop_last());
            assert((pa + pb).last() == pb.last());
            assert((pa + pb).drop_last().push((pa + pb).last().push(b.last())) == pa + pb.drop_last().push(
                pb.last().push(b.last()),
            ));
        }
    }
}

/// The character sequences of a sequence of character vectors.
pub open spec fn char_vecs_view(v: Seq<Vec<char>>) -> Seq<Seq<char>> {
    v.map_values(|w: Vec<char>| w@)
}

/// Splits `s` at each `sep`.
pub fn split_char(s: &[char], sep: char) -> (r: Vec<Vec<char>>)
    ensures
        char_vecs_view(r@) == split_on(s@, sep),
        r@.len() >= 1,
{
    let mut pieces: Vec<Vec<char>> = Vec::new();
    let mut cur: Vec<char> = Vec::new();
    let mut i: usize = 0;
    while i < s.len()
        invariant
            i <= s@.len(),
            split_on(s@.take(i as int), sep) == char_vecs_view(pieces@).push(cur@),
        decreases s@.len() - i,
    {
        let c = s[i];
        proof {
            lemma_split_on_len(s@.take(i as int), sep);
            assert(s@.take(i + 1).drop_last() == s@.take(i as int));
            assert(s@.take(i + 1).last() == c);
        }
        let ghost old_pieces = char_vecs_view(pieces@);
        let ghost old_cur = cur@;
        if c == sep {
            pieces.push(cur);
            cur = Vec::new();
            assert(char_vecs_view(pieces@) == old_pieces.push(old_cur));
        } else {
            cur.push(c);
            assert(old_pieces.push(old_cur).drop_last() == old_pieces);
        }
        i += 1;
    }
    assert(s@.take(s@.len() as int) == s@);
    let ghost before = char_vecs_view(pieces@);
    let ghost last = cur@;
    pieces.push(cur);
    assert(char_vecs_view(pieces@) == before.push(last));
    pieces
}

/// Whether two character sequences are equal.
pub fn chars_eq(a: &[char], b: &[char]) -> (r: bool)
    ensures
        r == (a@ == b@),
{
    if a.len() != b.len() {
        return false;
    }
    let mut i: usize = 0;
    while i < a.len()
        invariant
            i <= a@.len(),
            a@.len() == b@.len(),
            a@.take(i as int) == b@.take(i as int),
        decreases a@.len() - i,
    {
        if a[i] != b[i] {
            assert(a@[i as int] != b@[i as int]);
            return false;
        }
        assert(a@.take(i + 1) == a@.take(i as int).push(a@[i as int]));
        assert(b@.take(i + 1) == b@.take(i as int).push(b@[i as int]));
        i += 1;
    }
    assert(a@.take(a@.len() as int) == a@);
    assert(b@.take(b@.len() as int) == b@);
    true
}

/// Whether two strings hold the same characters.
pub fn str_eq(a: &str, b: &str) -> (r: bool)
    ensures
        r == (a@ == b@),
{
    let ac = chars_of(a);
    let bc = chars_of(b);
    chars_eq(ac.as_slice(), bc.as_slice())
}

/// Whether `pattern` occurs in `s` at position `i`.
pub open spec fn occurs_at(s: Seq<char>, pattern: Seq<char>, i: int) -> bool {
    0 <= i && i + pattern.len() <= s.len() && s.subrange(i, i + pattern.len()) == pattern
}

/// Whether `pattern` occurs in `s` (what `str::contains` tests).
pub open spec fn contains_seq(s: Seq<char>, pattern: Seq<char>) -> bool {
    exists|i: int| occurs_at(s, pattern, i)
}

/// Whether `pattern` occurs in `s`.
pub fn contains_chars(s: &[char], pattern: &[char]) -> (r: bool)
    ensures
        r == contains_seq(s@, pattern@),
{
    if pattern.len() == 0 {
        assert(s@.subrange(0, 0) == pattern@);
        assert(occurs_at(s@, pattern@, 0));
        return true;
    }
    if pattern.len() > s.len() {
        proof {
            assert forall|i: int| !occurs_at(s@, pattern@, i) by {}
        }
        return false;
    }
    let mut i: usize = 0;
    let n = s.len();
    let last = s.len() - pattern.len();
    while i <= last
        invariant
            n == s@.len(),
            pattern@.len() >= 1,
            pattern@.len() <= s@.len(),
            last == s@.len() - pattern@.len(),
            i <= last + 1,
            forall|k: int| 0 <= k < i ==> !occurs_at(s@, pattern@, k),
        decreases last + 1 - i,
    {
        let mut j: usize = 0;
        let mut same = true;
        assert(s@.subrange(i as int, i as int) == pattern@.take(0));
        while j < pattern.len()
            invariant
                n == s@.len(),
                i + pattern@.len() <= s@.len(),
                j <= pattern@.len(),
                same == (s@.subrange(i as int, i + j) == pattern@.take(j as int)),
            decreases pattern@.len() - j,
        {
            let ghost before = same;
            let a = s[i + j];
            let b = pattern[j];
            same = same && a == b;
            proof {
                let x = s@.subrange(i as int, i + j + 1);
                let y = pattern@.take(j + 1);
                assert(x == s@.subrange(i as int, i + j).push(a));
                assert(y == pattern@.take(j as int).push(b));
                assert(x.drop_last() == s@.subrange(i as int, i + j));
                assert(y.drop_last() == pattern@.take(j as int));
                if x == y {
                    assert(x.drop_last() == y.drop_last());
                    assert(x.last() == y.last());
                }
            }
            j += 1;
        }
        assert(pattern@.take(pattern@.len() as int) == pattern@);
        if same {
            assert(occurs_at(s@, pattern@, i as int));
            return true;
        }
        i += 1;
    }
    proof {
        assert forall|k: int| !occurs_at(s@, pattern@, k) by {
            if 0 <= k && k + pattern@.len() <= s@.len() {
                assert(k < i);
            }
        }
    }
    false
}

/// The decimal digit of `d`.
pub open spec fn digit_char(d: nat) -> char {
    (('0' as u32) + d) as char
}

/// The decimal representation of `n`.
pub open spec fn decimal(n: nat) -> Seq<char>
    decreases n,
{
    if n < 10 {
        seq![digit_char(n)]
    } else {
        decimal(n / 10).push(digit_char(n % 10))
    }
}

/// `n` written in decimal.
pub fn decimal_string(n: u64) -> (r: String)
    ensures
        r@ == decimal(n as nat),
{
    let mut digits: Vec<char> = Vec::new();
    let mut m = n;
    // digits holds the representation of the part of n already divided off
    while m >= 10
        invariant
            decimal(n as nat) == decimal(m as nat) + digits@,
        decreases m,
    {
        let d = (m % 10) as u8;
        let c = (48u8 + d) as char;
        proof {
            assert(c == digit_char((m % 10) as nat));
            assert(decimal(m as nat) == decimal((m / 10) as nat).push(c));
        }
        let ghost old_digits = digits@;
        digits.insert(0, c);
        assert(decimal(m as nat) + old_digits == decimal((m / 10) as nat) + digits@);
        m = m / 10;
    }
    let c = (48u8 + m as u8) as char;
    assert(c == digit_char(m as nat));
    let ghost old_digits = digits@;
    digits.insert(0, c);
    assert(decimal(m as nat) == seq![c]);
    assert(decimal(n as nat) == digits@);
    string_of(digits.as_slice())
}

} // verus!

verus! {

/// `s` without one final carriage return.
pub open spec fn strip_cr(s: Seq<char>) -> Seq<char> {
    if s.len() > 0 && s.last() == '\r' {
        s.drop_last()
    } else {
        s
    }
}

/// The lines of `s` (what `str::lines` yields): the pieces between newlines,
/// each ended by a newline losing one carriage return before it, and no
/// empty piece after a final newline.
pub open spec fn lines_of(s: Seq<char>) -> Seq<Seq<char>> {
    let ps = split_on(s, '\n');
    let body = ps.drop_last().map_values(|p: Seq<char>| strip_cr(p));
    if ps.last().len() == 0 {
        body
    } else {
        body.push(ps.last())
    }
}

/// `s` without one final carriage return.
pub fn without_cr(s: &Vec<char>) -> (r: Vec<char>)
    ensures
        r@ == strip_cr(s@),
{
    let mut r = s.clone();
    assert(r@ == s@);
    if r.len() > 0 && r[r.len() - 1] == '\r' {
        r.pop();
    }
    r
}

/// The lines of `s`.
pub fn lines(s: &[char]) -> (r: Vec<Vec<char>>)
    ensures
        char_vecs_view(r@) == lines_of(s@),
{
    let pieces = split_char(s, '\n');
    let ghost ps = split_on(s@, '\n');
    let n = pieces.len();
    let mut r: Vec<Vec<char>> = Vec::new();
    let mut i: usize = 0;
    while i + 1 < n
        invariant
            n == pieces@.len(),
            n >= 1,
            char_vecs_view(pieces@) == ps,
            i < n,
            char_vecs_view(r@) == ps.take(i as int).map_values(|p: Seq<char>| strip_cr(p)),
        decreases n - i,
    {
        let line = without_cr(&pieces[i]);
        let ghost before = char_vecs_view(r@);
        r.push(line);
        proof {
            assert(ps[i as int] == pieces@[i as int]@);
            assert(ps.take(i + 1) == ps.take(i as int).push(ps[i as int]));
            assert(char_vecs_view(r@) == before.push(strip_cr(ps[i as int])));
            assert(ps.take(i + 1).map_values(|p: Seq<char>| strip_cr(p)) == ps.take(
                i as int,
            ).map_values(|p: Seq<char>| strip_cr(p)).push(strip_cr(ps[i as int])));
        }
        i += 1;
    }
    assert(ps.take(i as int) == ps.drop_last());
    assert(ps.last() == pieces@[n - 1]@);
    if pieces[n - 1].len() > 0 {
        let last = pieces[n - 1].clone();
        let ghost before = char_vecs_view(r@);
        r.push(last);
        assert(char_vecs_view(r@) == before.push(ps.last()));
    }
    r
}

} // verus!
