//! Names, extensions and relative forms of paths.

use vstd::prelude::*;

use crate::outside::{path_components, path_parts, path_rest, path_strip, Part, PartModel};
use crate::text::{slice_text, to_chars};

verus! {

/// The name of the file that a path ends in.
pub open spec fn name_of(path: Seq<char>) -> Option<Seq<char>> {
    let parts = path_parts(path);
    if parts.len() == 0 {
        None
    } else {
        match parts.last() {
            PartModel::Name(s) => Some(s),
            _ => None,
        }
    }
}

/// The position of the last dot before `n`.
pub open spec fn last_dot(s: Seq<char>, n: int) -> Option<int>
    decreases n,
{
    if n <= 0 {
        None
    } else if s[n - 1] == '.' {
        Some(n - 1)
    } else {
        last_dot(s, n - 1)
    }
}

/// The part of a name after its last dot. A name whose only dot comes first has
/// none.
pub open spec fn suffix_of(name: Seq<char>) -> Option<Seq<char>> {
    match last_dot(name, name.len() as int) {
        Some(p) => if p == 0 {
            None
        } else {
            Some(name.skip(p + 1))
        },
        None => None,
    }
}

/// The extension of a path's file name.
pub open spec fn extension_of(path: Seq<char>) -> Option<Seq<char>> {
    match name_of(path) {
        Some(name) => suffix_of(name),
        None => None,
    }
}

/// The path relative to a base, or the path itself where it does not lie below.
pub open spec fn relative_to(path: Seq<char>, base: Seq<char>) -> Seq<char> {
    match path_rest(path, base) {
        Some(rest) => rest,
        None => path,
    }
}

/// The name of the file that a path ends in.
pub fn file_name(path: &str) -> (r: Option<String>)
    ensures
        crate::text::opt_text(r) == name_of(path@),
{
    let parts = path_components(path);
    let ghost models = parts@.map_values(|p: Part| p@);
    if parts.len() == 0 {
        return None;
    }
    let n: usize = parts.len() - 1;
    assert(models.last() == parts@[n as int]@);
    match &parts[n] {
        Part::Name(s) => Some(s.clone()),
        _ => None,
    }
}

/// The part of a file name after its last dot, unless that dot comes first.
pub fn suffix(name: &str) -> (r: Option<String>)
    ensures
        crate::text::opt_text(r) == suffix_of(name@),
{
    let b = to_chars(name);
    let mut n: usize = b.len();
    while n > 0
        invariant
            n <= b@.len(),
            b@ == name@,
            last_dot(b@, b@.len() as int) == last_dot(b@, n as int),
        decreases n,
    {
        if b[n - 1] == '.' {
            if n == 1 {
                return None;
            }
            let r = slice_text(b.as_slice(), n, b.len());
            assert(r@ =~= b@.skip(n as int));
            return Some(r);
        }
        n -= 1;
    }
    None
}

/// The extension of a path's file name.
pub fn extension(path: &str) -> (r: Option<String>)
    ensures
        crate::text::opt_text(r) == extension_of(path@),
{
    match file_name(path) {
        Some(name) => suffix(name.as_str()),
        None => None,
    }
}

/// The path relative to a root, for glob matching and reporting.
pub fn relative(path: &str, root: &str) -> (r: String)
    ensures
        r@ == relative_to(path@, root@),
{
    match path_strip(path, root) {
        Some(rest) => rest,
        None => path.to_owned(),
    }
}

} // verus!
