use vstd::prelude::*;
use crate::paths::{extension_of, final_component, final_component_exec};
use crate::strutil::{contains_seq, contains_sub, find_last_char, str_eq};

verus! {

/// The view of an optional string slice as an optional character sequence.
pub open spec fn opt_str_view(o: Option<&str>) -> Option<Seq<char>> {
    match o {
        Some(s) => Some(s@),
        None => None,
    }
}

/// The view of an optional owned string as an optional character sequence.
pub open spec fn opt_string_view(o: Option<String>) -> Option<Seq<char>> {
    match o {
        Some(s) => Some(s@),
        None => None,
    }
}

/// The filter predicate of the recursive listing. An absent filter always
/// passes; an extension filter demands that the path's extension equal it
/// exactly; a name filter demands that the path's final component contain
/// it as a substring. Both must pass when both are present.
pub open spec fn passes_filters(
    p: Seq<char>,
    ext: Option<Seq<char>>,
    name: Option<Seq<char>>,
) -> bool {
    &&& match ext {
        Some(e) => extension_of(p) == Some(e),
        None => true,
    }
    &&& match name {
        Some(nm) => contains_seq(final_component(p), nm),
        None => true,
    }
}

/// Whether `path` passes the optional extension and name filters.
pub fn apply_filters(path: &str, extension_filter: Option<&str>, name_filter: Option<&str>) -> (r:
    bool)
    ensures
        r == passes_filters(path@, opt_str_view(extension_filter), opt_str_view(name_filter)),
{
    let name = final_component_exec(path);
    let mut ok = true;
    match extension_filter {
        Some(ef) => {
            match find_last_char(name.as_str(), '.') {
                Some(d) => {
                    if d >= 1 {
                        let nlen = name.as_str().unicode_len();
                        let ext = name.as_str().substring_char(d + 1, nlen);
                        ok = str_eq(ext, ef);
                    } else {
                        ok = false;
                    }
                },
                None => {
                    ok = false;
                },
            }
        },
        None => {},
    }
    match name_filter {
        Some(nf) => {
            ok = ok && contains_sub(name.as_str(), nf);
        },
        None => {},
    }
    ok
}

} // verus!
