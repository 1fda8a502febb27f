use vstd::prelude::*;
use crate::errors::FsError;
use crate::mode::{octal_value, valid_octal};
use crate::model::{
    chmod_spec,
    copy_spec,
    delete_spec,
    move_spec,
    parent_ok,
    symlink_spec,
    EntryView,
};
use crate::filter::passes_filters;
use crate::walk::{line_of, walk_entries, walk_lines, VisitedEntry};

verus! {

/// Copying an existing regular file to a destination whose parent exists
/// always succeeds, and afterwards the destination holds the source's
/// content and permission bits, byte for byte.
pub proof fn law_copy_preserves_content(
    m: Map<Seq<char>, EntryView>,
    src: Seq<char>,
    dest: Seq<char>,
)
    requires
        m.contains_key(src),
        m[src].node is File,
        parent_ok(m, dest),
    ensures
        copy_spec(m, src, dest) matches Ok(m2) && m2.contains_key(dest) && m2[dest] == m[src],
{
}

/// Moving an existing entry to a different path whose parent exists always
/// succeeds; afterwards the source is gone and the destination holds the
/// source's old entry unchanged.
pub proof fn law_move_transfers_entry(
    m: Map<Seq<char>, EntryView>,
    src: Seq<char>,
    dest: Seq<char>,
)
    requires
        m.contains_key(src),
        parent_ok(m, dest),
        src != dest,
    ensures
        move_spec(m, src, dest) matches Ok(m2) && !m2.contains_key(src) && m2.contains_key(dest)
            && m2[dest] == m[src],
{
}

/// Deleting an existing non-directory succeeds and afterwards the path no
/// longer exists; nothing else changes.
pub proof fn law_delete_removes(m: Map<Seq<char>, EntryView>, p: Seq<char>)
    requires
        m.contains_key(p),
        !(m[p].node is Directory),
    ensures
        delete_spec(m, p) matches Ok(m2) && !m2.contains_key(p) && m2 == m.remove(p),
{
}

/// Deleting a missing path fails with `NotFound`.
pub proof fn law_delete_missing(m: Map<Seq<char>, EntryView>, p: Seq<char>)
    requires
        !m.contains_key(p),
    ensures
        delete_spec(m, p) == Err::<Map<Seq<char>, EntryView>, FsError>(FsError::NotFound),
{
}

/// Creating a symlink whose target does not exist fails with `NotFound`,
/// whatever the link path is.
pub proof fn law_symlink_needs_target(
    m: Map<Seq<char>, EntryView>,
    target: Seq<char>,
    link: Seq<char>,
)
    requires
        !m.contains_key(target),
    ensures
        symlink_spec(m, target, link) == Err::<Map<Seq<char>, EntryView>, FsError>(
            FsError::NotFound,
        ),
{
}

/// Changing permissions of an existing entry with a valid octal mode sets
/// exactly the bits that the octal string names, and keeps the node.
pub proof fn law_chmod_sets_bits(m: Map<Seq<char>, EntryView>, p: Seq<char>, mode_str: Seq<char>)
    requires
        m.contains_key(p),
        valid_octal(mode_str),
    ensures
        chmod_spec(m, p, mode_str) matches Ok(m2) && m2.contains_key(p) && m2[p].mode as nat
            == octal_value(mode_str) && m2[p].node == m[p].node,
{
}

/// An element of a filtered sequence is an element of the sequence.
proof fn lemma_filter_membership<A>(s: Seq<A>, pred: spec_fn(A) -> bool, j: int)
    requires
        0 <= j < s.filter(pred).len(),
    ensures
        s.contains(s.filter(pred)[j]),
    decreases s.len(),
{
    reveal(Seq::filter);
    broadcast use Seq::lemma_filter_len;

    if s.len() > 0 {
        let dl = s.drop_last();
        let fdl = dl.filter(pred);
        if pred(s.last()) && j == fdl.len() {
            assert(s.filter(pred)[j] == s.last());
            assert(s.contains(s.last()));
        } else {
            lemma_filter_membership(dl, pred, j);
            let w = choose|w: int| 0 <= w < dl.len() && dl[w] == fdl[j];
            assert(s[w] == fdl[j]);
        }
    }
}

/// Every line the filtered recursive listing reports renders an entry
/// that the traversal meets and that passes the filters: filtering hides
/// entries and does nothing else.
pub proof fn law_listing_respects_filters(
    s: Seq<crate::model::FsEntry>,
    d: Seq<char>,
    depth: nat,
    ext: Option<Seq<char>>,
    name: Option<Seq<char>>,
    j: int,
)
    requires
        0 <= j < walk_lines(s, d, 0, depth, ext, name).len(),
    ensures
        exists|v: VisitedEntry|
            walk_entries(s, d, 0, depth).contains(v) && #[trigger] passes_filters(v.path, ext, name)
                && walk_lines(s, d, 0, depth, ext, name)[j] == line_of(v),
{
    let pred = |v: VisitedEntry| passes_filters(v.path, ext, name);
    let f = |v: VisitedEntry| line_of(v);
    let we = walk_entries(s, d, 0, depth);
    let fe = we.filter(pred);
    broadcast use Seq::lemma_filter_pred;

    lemma_filter_membership(we, pred, j);
    let v = fe[j];
    assert(pred(v));
    assert(we.contains(v) && passes_filters(v.path, ext, name) && walk_lines(
        s,
        d,
        0,
        depth,
        ext,
        name,
    )[j] == line_of(v));
}

/// With no filters, every entry the traversal meets is reported, in
/// traversal order.
pub proof fn law_unfiltered_reports_all(s: Seq<crate::model::FsEntry>, d: Seq<char>, depth: nat)
    ensures
        walk_lines(s, d, 0, depth, None, None) == walk_entries(s, d, 0, depth).map_values(
            |v: VisitedEntry| line_of(v),
        ),
{
    let pred = |v: VisitedEntry| passes_filters(v.path, None, None);
    let we = walk_entries(s, d, 0, depth);
    lemma_filter_true(we, pred);
}

/// Filtering with a predicate that holds everywhere changes nothing.
proof fn lemma_filter_true<A>(s: Seq<A>, pred: spec_fn(A) -> bool)
    requires
        forall|x: A| #[trigger] pred(x),
    ensures
        s.filter(pred) == s,
    decreases s.len(),
{
    reveal(Seq::filter);
    if s.len() > 0 {
        lemma_filter_true(s.drop_last(), pred);
        assert(s.filter(pred) =~= s);
    } else {
        assert(s.filter(pred) =~= s);
    }
}

} // verus!
