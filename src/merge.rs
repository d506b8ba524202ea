//! The ordered merge of scanned lines into one stream and the symbol table.
use std::collections::BTreeMap;
use vstd::prelude::*;
use crate::entities::{views, FPoint, PointView, Token};

verus! {

broadcast use vstd::std_specs::btree::group_btree_axioms;

/// The table once the symbols of a line are in: a symbol already present
/// keeps its role.
pub open spec fn absorb(table: Map<i16, Token>, syms: Seq<(i16, Token)>) -> Map<i16, Token>
    decreases syms.len(),
{
    if syms.len() == 0 {
        table
    } else {
        let t = absorb(table, syms.drop_last());
        let (k, v) = syms.last();
        if t.contains_key(k) {
            t
        } else {
            t.insert(k, v)
        }
    }
}

/// Merging the scanned lines in order: the output points, the symbol table,
/// and whether a comment is open after the last line.
pub open spec fn merged_lines(lines: Seq<(Vec<FPoint>, Vec<(i16, Token)>, i8)>, table: Map<i16, Token>) -> (Seq<PointView>, Map<i16, Token>, bool)
    decreases lines.len(),
{
    if lines.len() == 0 {
        (Seq::empty(), table, false)
    } else {
        let prev = merged_lines(lines.drop_last(), table);
        let l = lines.last();
        let inside = if l.2 < 0 { false } else { prev.2 };
        let out = if inside { prev.0 } else { prev.0 + views(l.0@) };
        let t = if inside { prev.1 } else { absorb(prev.1, l.1@) };
        (out, t, if l.2 > 0 { true } else { inside })
    }
}

fn absorb_line(table: &mut BTreeMap<i16, Token>, syms: Vec<(i16, Token)>)
    ensures
        final(table)@ == absorb(old(table)@, syms@),
{
    let ghost all = syms@;
    for datum in it: syms
        invariant
            all == it.seq(),
            table@ == absorb(old(table)@, it.seq().take(it.index() as int)),
    {
        let ghost idx = it.index();
        proof {
            assert(it.seq().take(idx + 1).drop_last() =~= it.seq().take(idx as int));
        }
        if !table.contains_key(&datum.0) {
            table.insert(datum.0, datum.1);
        }
    }
    proof {
        assert(all.take(all.len() as int) =~= all);
    }
}

/// Merges scanned lines in line order. A line with a negative
/// delta closes any open comment before it is used; while a comment is open
/// a line contributes nothing; a line with a positive delta opens a comment
/// for the lines after it. Symbols enter the table only where absent.
pub fn merge_lines(scans: Vec<(Vec<FPoint>, Vec<(i16, Token)>, i8)>, token_tree: &mut BTreeMap<i16, Token>) -> (r: Vec<FPoint>)
    ensures
        views(r@) == merged_lines(scans@, old(token_tree)@).0,
        final(token_tree)@ == merged_lines(scans@, old(token_tree)@).1,
{
    let ghost all = scans@;
    let ghost t0 = token_tree@;
    let mut points: Vec<FPoint> = Vec::new();
    let mut in_comment = false;
    for data in it: scans
        invariant
            all == it.seq(),
            ({
                let m = merged_lines(it.seq().take(it.index() as int), t0);
                &&& views(points@) == m.0
                &&& token_tree@ == m.1
                &&& in_comment == m.2
            }),
    {
        let ghost idx = it.index();
        proof {
            assert(it.seq().take(idx + 1).drop_last() =~= it.seq().take(idx as int));
        }
        let (mut pts, syms, delta) = data;
        if delta < 0 {
            in_comment = false;
        }
        if !in_comment {
            let ghost before = views(points@);
            let ghost added = views(pts@);
            points.append(&mut pts);
            proof {
                assert(views(points@) =~= before + added);
            }
            absorb_line(token_tree, syms);
        }
        if delta > 0 {
            in_comment = true;
        }
    }
    proof {
        assert(all.take(all.len() as int) =~= all);
    }
    points
}

} // verus!
