//! Paths and file names of the packer.

use vstd::prelude::*;
use crate::text::{chars_of, string_of, split_char, split_on, chars_eq, char_vecs_view};

verus! {

/// Why a path was refused.
#[derive(Debug, Clone, Copy, PartialEq, Eq, Structural)]
pub enum PathError {
    /// "Path does not exist"
    NotFound,
    /// "Invalid output path"
    InvalidInput,
}

impl PathError {
    /// The message of the error.
    pub fn message(&self) -> (r: String)
        ensures
            r@ == match *self {
                PathError::NotFound => "Path does not exist"@,
                PathError::InvalidInput => "Invalid output path"@,
            },
    {
        match self {
            PathError::NotFound => String::from_str("Path does not exist"),
            PathError::InvalidInput => String::from_str("Invalid output path"),
        }
    }
}

/// Whether `suffix` ends `s`.
pub open spec fn has_suffix(s: Seq<char>, suffix: Seq<char>) -> bool {
    suffix.len() <= s.len() && s.subrange(s.len() - suffix.len(), s.len() as int) == suffix
}

/// `filename` without `extension` at its end, or unchanged where it does not
/// end so.
pub open spec fn remove_extension_spec(filename: Seq<char>, extension: Seq<char>) -> Seq<char> {
    if has_suffix(filename, extension) {
        filename.subrange(0, filename.len() - extension.len())
    } else {
        filename
    }
}

/// `filename` without `extension` at its end (see [`remove_extension_spec`]).
pub fn remove_extension(filename: &str, extension: &str) -> (r: String)
    ensures
        r@ == remove_extension_spec(filename@, extension@),
        has_suffix(filename@, extension@) ==> r@ + extension@ == filename@,
        !has_suffix(filename@, extension@) ==> r@ == filename@,
{
    let f = chars_of(filename);
    let e = chars_of(extension);
    if e.len() > f.len() {
        return string_of(f.as_slice());
    }
    let start = f.len() - e.len();
    let mut tail: Vec<char> = Vec::new();
    let mut head: Vec<char> = Vec::new();
    let mut i: usize = 0;
    while i < f.len()
        invariant
            i <= f@.len(),
            start == f@.len() - e@.len(),
            i <= start ==> head@ == f@.take(i as int) && tail@.len() == 0,
            i > start ==> head@ == f@.take(start as int) && tail@ == f@.subrange(
                start as int,
                i as int,
            ),
        decreases f@.len() - i,
    {
        if i < start {
            head.push(f[i]);
            assert(f@.take(i + 1) == f@.take(i as int).push(f@[i as int]));
        } else {
            tail.push(f[i]);
            assert(f@.subrange(start as int, i + 1) == f@.subrange(start as int, i as int).push(
                f@[i as int],
            ));
        }
        i += 1;
    }
    if f.len() == start {
        assert(tail@ == f@.subrange(start as int, f@.len() as int));
    }
    assert(f@.subrange(start as int, f@.len() as int) == tail@);
    if chars_eq(tail.as_slice(), e.as_slice()) {
        assert(head@ + e@ == f@);
        string_of(head.as_slice())
    } else {
        string_of(f.as_slice())
    }
}

/// The path itself where it exists (`exists` tells), else `NotFound`.
pub fn validate_path(path: &str, exists: bool) -> (r: Result<String, PathError>)
    ensures
        exists ==> (r matches Ok(p) && p@ == path@),
        !exists ==> r == Err::<String, PathError>(PathError::NotFound),
{
    if exists {
        Ok(String::from_str(path))
    } else {
        Err(PathError::NotFound)
    }
}

/// A path is a safe place to write to when it is absolute (starts at the
/// root) and no component of it is `..`.
pub open spec fn is_safe_output_path(path: Seq<char>) -> bool {
    path.len() > 0 && path[0] == '/' && !split_on(path, '/').contains(seq!['.', '.'])
}

/// The path itself where it is a safe place to write to (see
/// [`is_safe_output_path`]), else `InvalidInput`.
pub fn sanitize_output_path(output_path: &str) -> (r: Result<String, PathError>)
    ensures
        is_safe_output_path(output_path@) ==> (r matches Ok(p) && p@ == output_path@),
        !is_safe_output_path(output_path@) ==> r == Err::<String, PathError>(
            PathError::InvalidInput,
        ),
{
    let cs = chars_of(output_path);
    if cs.len() == 0 || cs[0] != '/' {
        return Err(PathError::InvalidInput);
    }
    let parts = split_char(cs.as_slice(), '/');
    let ghost ps = char_vecs_view(parts@);
    let mut up: Vec<char> = Vec::new();
    up.push('.');
    up.push('.');
    assert(up@ == seq!['.', '.']);
    let mut k: usize = 0;
    while k < parts.len()
        invariant
            k <= parts@.len(),
            ps == char_vecs_view(parts@),
            ps == split_on(output_path@, '/'),
            up@ == seq!['.', '.'],
            forall|x: int| 0 <= x < k ==> ps[x] != up@,
        decreases parts@.len() - k,
    {
        if chars_eq(parts[k].as_slice(), up.as_slice()) {
            assert(ps[k as int] == up@);
            assert(ps.contains(seq!['.', '.']));
            return Err(PathError::InvalidInput);
        }
        k += 1;
    }
    proof {
        if ps.contains(seq!['.', '.']) {
            let x = choose|x: int| 0 <= x < ps.len() && ps[x] == seq!['.', '.'];
        }
    }
    Ok(String::from_str(output_path))
}

/// The target of the packer: the path itself where it exists, else where
/// it is a safe place to write to (see [`is_safe_output_path`]).
pub fn target_path(target: &str, exists: bool) -> (r: Result<String, PathError>)
    ensures
        exists || is_safe_output_path(target@) ==> (r matches Ok(p) && p@ == target@),
        !exists && !is_safe_output_path(target@) ==> r == Err::<String, PathError>(
            PathError::InvalidInput,
        ),
{
    match validate_path(target, exists) {
        Ok(p) => Ok(p),
        Err(_) => sanitize_output_path(target),
    }
}

} // verus!

verus! {

/// A path with a `..` component is never a safe place to write to, wherever
/// the component stands.
pub proof fn lemma_parent_component_refused(before: Seq<char>, after: Seq<char>)
    ensures
        !is_safe_output_path(before.push('/') + seq!['.', '.']),
        !is_safe_output_path(before.push('/') + seq!['.', '.', '/'] + after),
{
    let up = seq!['.', '.'];
    assert(!up.contains('/')) by {
        if up.contains('/') {
            let k = choose|k: int| 0 <= k < up.len() && up[k] == '/';
        }
    }
    crate::text::lemma_split_on_without_sep(up, '/');
    crate::text::lemma_split_on_joined(before, up, '/');
    crate::text::lemma_split_on_joined(up, after, '/');
    crate::text::lemma_split_on_joined(before, up.push('/') + after, '/');
    crate::text::lemma_split_on_len(before, '/');
    let pb = split_on(before, '/');
    assert((pb + seq![up])[pb.len() as int] == up);
    assert(up.push('/') == seq!['.', '.', '/']);
    assert(before.push('/') + (up.push('/') + after) == before.push('/') + seq!['.', '.', '/']
        + after);
    assert((pb + (seq![up] + split_on(after, '/')))[pb.len() as int] == up);
}

/// A path that does not start at the root is never a safe place to write
/// to; the root followed by a name other than `..` is.
pub proof fn lemma_absolute_paths(path: Seq<char>, name: Seq<char>)
    requires
        !name.contains('/'),
        name != seq!['.', '.'],
    ensures
        path.len() > 0 && path[0] != '/' ==> !is_safe_output_path(path),
        is_safe_output_path(seq!['/'] + name),
{
    crate::text::lemma_split_on_without_sep(name, '/');
    crate::text::lemma_split_on_joined(Seq::<char>::empty(), name, '/');
    assert(Seq::<char>::empty().push('/') + name == seq!['/'] + name);
    assert(split_on(Seq::<char>::empty(), '/') == seq![Seq::<char>::empty()]);
    let parts = seq![Seq::<char>::empty()] + seq![name];
    assert(parts == seq![Seq::<char>::empty(), name]);
    assert(!parts.contains(seq!['.', '.'])) by {
        if parts.contains(seq!['.', '.']) {
            let k = choose|k: int| 0 <= k < parts.len() && parts[k] == seq!['.', '.'];
            assert(k == 0 || k == 1);
        }
    }
    assert((seq!['/'] + name)[0] == '/');
}

} // verus!
