use vstd::prelude::*;
use crate::strutil::{last_index_of, lemma_last_index_of, find_last_char, str_eq};

verus! {

/// The final path component: everything after the last '/', or the whole
/// path when it holds no '/'.
pub open spec fn final_component(p: Seq<char>) -> Seq<char> {
    p.subrange(last_index_of(p, '/') + 1, p.len() as int)
}

/// The extension of a path: the characters after the last '.' of its final
/// component, excluding the dot. A component without a dot has no extension,
/// and neither has one whose only dot is its first character (a hidden file).
pub open spec fn extension_of(p: Seq<char>) -> Option<Seq<char>> {
    let name = final_component(p);
    let d = last_index_of(name, '.');
    if d >= 1 {
        Some(name.subrange(d + 1, name.len() as int))
    } else {
        None
    }
}

/// The parent of a path: everything before the last '/'. A path without
/// a '/' has no parent component.
pub open spec fn parent_of(p: Seq<char>) -> Option<Seq<char>> {
    let d = last_index_of(p, '/');
    if d >= 0 {
        Some(p.subrange(0, d))
    } else {
        None
    }
}

/// Whether `p` lies directly inside directory path `d`: it extends `d` with
/// a '/' and a final component that holds no further '/'.
pub open spec fn is_child_of(p: Seq<char>, d: Seq<char>) -> bool {
    &&& p.len() > d.len()
    &&& p.subrange(0, d.len() as int) == d
    &&& p[d.len() as int] == '/'
    &&& forall|j: int| d.len() < j < p.len() ==> p[j] != '/'
}

/// Inside a directory, the last '/' of a child's path sits right at the end
/// of the directory's path, so the child's final component is everything
/// after that.
pub proof fn lemma_child_final_component(p: Seq<char>, d: Seq<char>)
    requires
        is_child_of(p, d),
    ensures
        last_index_of(p, '/') == d.len() as int,
        final_component(p) == p.subrange(d.len() as int + 1, p.len() as int),
{
    lemma_last_index_of(p, '/');
    let r = last_index_of(p, '/');
    assert(p[d.len() as int] == '/');
    if r == -1 {
        assert(false);
    }
    if r > d.len() {
        assert(p[r] != '/');
        assert(false);
    }
    if r < d.len() {
        assert(p[d.len() as int] != '/');
        assert(false);
    }
}

/// Whether `path` lies directly inside the directory path `dir`.
pub fn is_child_exec(path: &str, dir: &str) -> (r: bool)
    ensures
        r == is_child_of(path@, dir@),
{
    let pl = path.unicode_len();
    let dl = dir.unicode_len();
    if pl <= dl {
        return false;
    }
    let pre = path.substring_char(0, dl);
    if !str_eq(pre, dir) {
        return false;
    }
    if path.get_char(dl) != '/' {
        return false;
    }
    let mut j = dl + 1;
    while j < pl
        invariant
            dl < j <= pl,
            pl == path@.len(),
            dl == dir@.len(),
            forall|m: int| dl < m < j ==> path@[m] != '/',
        decreases pl - j,
    {
        if path.get_char(j) == '/' {
            return false;
        }
        j = j + 1;
    }
    true
}

/// The final component of `path`, as a fresh string.
pub fn final_component_exec(path: &str) -> (r: String)
    ensures
        r@ == final_component(path@),
{
    let n = path.unicode_len();
    match find_last_char(path, '/') {
        Some(i) => {
            let s = path.substring_char(i + 1, n);
            s.to_owned()
        },
        None => {
            proof {
                assert(path@.subrange(0, path@.len() as int) =~= path@);
            }
            path.to_owned()
        },
    }
}

} // verus!
