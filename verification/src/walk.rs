use vstd::prelude::*;
use crate::errors::FsError;
use crate::filter::{apply_filters, opt_str_view, opt_string_view, passes_filters};
use crate::model::{node_is_dir, FsEntry, FsModel};
use crate::paths::{is_child_of, is_child_exec};

verus! {

/// One entry met during a traversal: how deep below the root it sits and
/// its full path.
pub struct VisitedEntry {
    pub depth: nat,
    pub path: Seq<char>,
}

/// The length of the longest entry path.
pub open spec fn max_path_len(s: Seq<FsEntry>) -> int
    decreases s.len(),
{
    if s.len() == 0 {
        0
    } else {
        let rest = max_path_len(s.drop_last());
        let l = s.last().path@.len() as int;
        if l > rest {
            l
        } else {
            rest
        }
    }
}

/// No entry path is longer than `max_path_len`.
pub proof fn lemma_max_path_len(s: Seq<FsEntry>, i: int)
    requires
        0 <= i < s.len(),
    ensures
        s[i].path@.len() <= max_path_len(s),
    decreases s.len(),
{
    if i < s.len() - 1 {
        lemma_max_path_len(s.drop_last(), i);
    }
}

/// How much room for descent is left below directory path `d`: every child
/// has a strictly longer path, and no path is longer than the longest one.
pub open spec fn walk_budget(s: Seq<FsEntry>, d: Seq<char>) -> int {
    if d.len() <= max_path_len(s) {
        max_path_len(s) + 1 - d.len()
    } else {
        0
    }
}

/// The entries a depth-first traversal below directory path `d` meets,
/// starting at entry index `i`: each child of `d` in entry order, and,
/// right after a child directory, everything below it one level deeper.
/// Recursion into a subdirectory does not depend on any filter.
pub open spec fn walk_entries(s: Seq<FsEntry>, d: Seq<char>, i: int, depth: nat) -> Seq<
    VisitedEntry,
>
    decreases walk_budget(s, d), s.len() - i,
    when 0 <= i <= s.len()
    via walk_entries_decreases
{
    if i >= s.len() {
        Seq::empty()
    } else {
        let e = s[i];
        let rest = walk_entries(s, d, i + 1, depth);
        if is_child_of(e.path@, d) {
            seq![VisitedEntry { depth, path: e.path@ }] + (if e.node@ is Directory {
                walk_entries(s, e.path@, 0, depth + 1)
            } else {
                Seq::empty()
            }) + rest
        } else {
            rest
        }
    }
}

#[via_fn]
proof fn walk_entries_decreases(s: Seq<FsEntry>, d: Seq<char>, i: int, depth: nat) {
    if 0 <= i < s.len() && is_child_of(s[i].path@, d) {
        lemma_max_path_len(s, i);
    }
}

/// The indentation of a listing line: two spaces per depth level.
pub open spec fn indent_seq(depth: nat) -> Seq<char> {
    Seq::new(2 * depth, |i: int| ' ')
}

/// The printed line for a visited entry: its indentation, then its path.
pub open spec fn line_of(v: VisitedEntry) -> Seq<char> {
    indent_seq(v.depth) + v.path
}

/// The lines of the filtered recursive listing: exactly the visited entries
/// that pass the filters, in traversal order, each rendered with its
/// indentation. Filters choose what is shown, never what is traversed.
pub open spec fn walk_lines(
    s: Seq<FsEntry>,
    d: Seq<char>,
    i: int,
    depth: nat,
    ext: Option<Seq<char>>,
    name: Option<Seq<char>>,
) -> Seq<Seq<char>> {
    walk_entries(s, d, i, depth).filter(|v: VisitedEntry| passes_filters(v.path, ext, name))
        .map_values(|v: VisitedEntry| line_of(v))
}

/// Filtering and rendering distribute over concatenation of traversals.
proof fn lemma_lines_add(
    a: Seq<VisitedEntry>,
    b: Seq<VisitedEntry>,
    ext: Option<Seq<char>>,
    name: Option<Seq<char>>,
)
    ensures
        (a + b).filter(|v: VisitedEntry| passes_filters(v.path, ext, name)).map_values(
            |v: VisitedEntry| line_of(v),
        ) == a.filter(|v: VisitedEntry| passes_filters(v.path, ext, name)).map_values(
            |v: VisitedEntry| line_of(v),
        ) + b.filter(|v: VisitedEntry| passes_filters(v.path, ext, name)).map_values(
            |v: VisitedEntry| line_of(v),
        ),
{
    let pred = |v: VisitedEntry| passes_filters(v.path, ext, name);
    let f = |v: VisitedEntry| line_of(v);
    Seq::filter_distributes_over_add(a, b, pred);
    assert((a.filter(pred) + b.filter(pred)).map_values(f) =~= a.filter(pred).map_values(f)
        + b.filter(pred).map_values(f));
}

/// An empty traversal renders to no lines.
proof fn lemma_lines_empty(ext: Option<Seq<char>>, name: Option<Seq<char>>)
    ensures
        Seq::<VisitedEntry>::empty().filter(|v: VisitedEntry| passes_filters(v.path, ext, name))
            .map_values(|v: VisitedEntry| line_of(v)) == Seq::<Seq<char>>::empty(),
{
    let pred = |v: VisitedEntry| passes_filters(v.path, ext, name);
    let f = |v: VisitedEntry| line_of(v);
    reveal(Seq::filter);
    assert(Seq::<VisitedEntry>::empty().filter(pred).map_values(f) =~= Seq::<Seq<char>>::empty());
}

/// A single visited entry renders to its line when it passes the filters,
/// and to nothing otherwise.
proof fn lemma_lines_one(v: VisitedEntry, ext: Option<Seq<char>>, name: Option<Seq<char>>)
    ensures
        seq![v].filter(|u: VisitedEntry| passes_filters(u.path, ext, name)).map_values(
            |u: VisitedEntry| line_of(u),
        ) == if passes_filters(v.path, ext, name) {
            seq![line_of(v)]
        } else {
            Seq::<Seq<char>>::empty()
        },
{
    let pred = |u: VisitedEntry| passes_filters(u.path, ext, name);
    let f = |u: VisitedEntry| line_of(u);
    reveal(Seq::filter);
    assert(seq![v].drop_last() =~= Seq::<VisitedEntry>::empty());
    if pred(v) {
        assert(seq![v].filter(pred) =~= seq![v]);
        assert(seq![v].map_values(f) =~= seq![line_of(v)]);
    } else {
        assert(Seq::<VisitedEntry>::empty().filter(pred) =~= Seq::<VisitedEntry>::empty());
        assert(seq![v].last() == v);
        assert(seq![v].filter(pred) == seq![v].drop_last().filter(pred));
        assert(seq![v].filter(pred) =~= Seq::<VisitedEntry>::empty());
        assert(Seq::<VisitedEntry>::empty().map_values(f) =~= Seq::<Seq<char>>::empty());
    }
}

impl FsModel {
    /// Walks the tree below directory path `d`, appending to `out` one line
    /// per visited entry that passes the filters: the entry's full path,
    /// indented two spaces per depth level. Subdirectories are entered
    /// whether or not they pass the filters themselves.
    fn visit_dirs(
        &self,
        d: &str,
        indent: &str,
        Ghost(depth): Ghost<nat>,
        extension_filter: Option<&str>,
        name_filter: Option<&str>,
        out: &mut Vec<String>,
    )
        requires
            self.wf(),
            indent@ == indent_seq(depth),
        ensures
            final(out).deep_view() == old(out).deep_view() + walk_lines(
                self.entries@,
                d@,
                0,
                depth,
                opt_str_view(extension_filter),
                opt_str_view(name_filter),
            ),
        decreases walk_budget(self.entries@, d@),
    {
        let ghost s = self.entries@;
        let ghost ext = opt_str_view(extension_filter);
        let ghost name = opt_str_view(name_filter);
        let mut i: usize = 0;
        while i < self.entries.len()
            invariant
                self.wf(),
                s == self.entries@,
                indent@ == indent_seq(depth),
                ext == opt_str_view(extension_filter),
                name == opt_str_view(name_filter),
                i <= self.entries.len(),
                out.deep_view() + walk_lines(s, d@, i as int, depth, ext, name) == old(
                    out,
                ).deep_view() + walk_lines(s, d@, 0, depth, ext, name),
            decreases self.entries.len() - i,
        {
            let ghost dv0 = out.deep_view();
            let ghost wl_i = walk_lines(s, d@, i as int, depth, ext, name);
            let ghost wl_i1 = walk_lines(s, d@, i + 1, depth, ext, name);
            let e = &self.entries[i];
            if is_child_exec(e.path.as_str(), d) {
                let ghost v = VisitedEntry { depth, path: e.path@ };
                let ghost below = if e.node@ is Directory {
                    walk_entries(s, e.path@, 0, depth + 1)
                } else {
                    Seq::<VisitedEntry>::empty()
                };
                proof {
                    assert(walk_entries(s, d@, i as int, depth) == (seq![v] + below)
                        + walk_entries(s, d@, i + 1, depth));
                    lemma_lines_add(seq![v] + below, walk_entries(s, d@, i + 1, depth), ext, name);
                    lemma_lines_add(seq![v], below, ext, name);
                    lemma_lines_one(v, ext, name);
                }
                if apply_filters(e.path.as_str(), extension_filter, name_filter) {
                    let mut line = indent.to_owned();
                    line.append(e.path.as_str());
                    out.push(line);
                    proof {
                        assert(out.deep_view() =~= dv0.push(line_of(v)));
                    }
                } else {
                    proof {
                        lemma_lines_empty(ext, name);
                    }
                }
                if node_is_dir(&e.node) {
                    let mut ni = indent.to_owned();
                    ni.append("  ");
                    proof {
                        reveal_strlit("  ");
                        assert(ni@ =~= indent_seq(depth + 1));
                        lemma_max_path_len(s, i as int);
                    }
                    self.visit_dirs(
                        e.path.as_str(),
                        ni.as_str(),
                        Ghost(depth + 1),
                        extension_filter,
                        name_filter,
                        out,
                    );
                } else {
                    proof {
                        lemma_lines_empty(ext, name);
                        assert(below =~= Seq::<VisitedEntry>::empty());
                    }
                }
                proof {
                    assert(out.deep_view() + wl_i1 =~= dv0 + wl_i);
                }
            } else {
                proof {
                    assert(walk_entries(s, d@, i as int, depth) == walk_entries(
                        s,
                        d@,
                        i + 1,
                        depth,
                    ));
                }
            }
            i = i + 1;
        }
        proof {
            assert(walk_entries(s, d@, s.len() as int, depth) =~= Seq::<VisitedEntry>::empty());
            lemma_lines_empty(ext, name);
            assert(out.deep_view() + walk_lines(s, d@, s.len() as int, depth, ext, name)
                =~= out.deep_view());
        }
    }

    /// The filtered recursive listing below `dir`: fails with `NotFound`
    /// when `dir` does not exist, before any line is produced; otherwise
    /// returns, in depth-first traversal order, one line per entry below
    /// `dir` that passes the filters, indented two spaces per depth level.
    pub fn list_recursive(
        &self,
        dir: &str,
        extension_filter: Option<String>,
        name_filter: Option<String>,
    ) -> (r: Result<Vec<String>, FsError>)
        requires
            self.wf(),
        ensures
            (match r {
                Ok(lines) => self@.contains_key(dir@) && lines.deep_view() == walk_lines(
                    self.entries@,
                    dir@,
                    0,
                    0,
                    opt_string_view(extension_filter),
                    opt_string_view(name_filter),
                ),
                Err(e) => e == FsError::NotFound && !self@.contains_key(dir@),
            }),
    {
        if !self.contains_path(dir) {
            return Err(FsError::NotFound);
        }
        let ef: Option<&str> = match &extension_filter {
            Some(s) => Some(s.as_str()),
            None => None,
        };
        let nf: Option<&str> = match &name_filter {
            Some(s) => Some(s.as_str()),
            None => None,
        };
        let mut out: Vec<String> = Vec::new();
        let empty_indent = String::new();
        proof {
            assert(empty_indent@ =~= indent_seq(0));
            assert(out.deep_view() =~= Seq::<Seq<char>>::empty());
        }
        self.visit_dirs(dir, empty_indent.as_str(), Ghost(0nat), ef, nf, &mut out);
        proof {
            assert(Seq::<Seq<char>>::empty() + walk_lines(
                self.entries@,
                dir@,
                0,
                0,
                opt_str_view(ef),
                opt_str_view(nf),
            ) =~= walk_lines(self.entries@, dir@, 0, 0, opt_str_view(ef), opt_str_view(nf)));
        }
        Ok(out)
    }
}

} // verus!
