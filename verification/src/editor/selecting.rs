//! Which text a selection holds, and which cells its characters take.
use crate::buffer::Buf;
use crate::display::cluster_width;
use crate::editor::input::visual::{cut_action, cut_cursor};
use crate::editor::{
    char_range, range_offsets, range_text, selection_of, Ed, Mode, RepeatAction,
};
use crate::file_names::control_characters_have_carets;
use crate::lines::{line_content, line_count, offset_of};
use crate::text_index::{cells_at, display_of};
use crate::unicode::char_col_of;
use vstd::prelude::*;

verus! {

/// A place does not lie behind another.
pub open spec fn not_behind(a: (usize, usize), b: (usize, usize)) -> bool {
    a.0 < b.0 || (a.0 == b.0 && a.1 <= b.1)
}

/// The ends of a selection are where it was started and the cursor, the earlier
/// one first; in which direction it was made does not matter. A block reaches
/// from the smaller line and column to the larger ones.
pub proof fn selections_have_ordered_ends(e: Ed, start: (usize, usize))
    requires
        e.input.visual_start == Some(start),
        0 <= e.cur().line() <= usize::MAX,
        0 <= e.cur().col() <= usize::MAX,
    ensures
        ({
            let here = (e.cur().line() as usize, e.cur().col() as usize);
            match selection_of(e) {
                None => false,
                Some((a, b)) => if e.input.mode is VisualBlock {
                    &&& a.0 <= b.0 && a.1 <= b.1
                    &&& (a.0 == start.0 && b.0 == here.0) || (a.0 == here.0 && b.0 == start.0)
                    &&& (a.1 == start.1 && b.1 == here.1) || (a.1 == here.1 && b.1 == start.1)
                } else {
                    &&& not_behind(a, b)
                    &&& (a == start && b == here) || (a == here && b == start)
                },
            }
        }),
        e.input.visual_start is None ==> selection_of(e) is None,
{
}

/// The text of a selection from one place to another reaches from the cluster
/// at its start to the one at its end, both included.
pub proof fn selections_hold_both_ends(t: Seq<char>, start: (usize, usize), end: (usize, usize))
    requires
        end.1 < usize::MAX,
        char_col_of(line_content(t, start.0 as nat), start.1 as nat) <= usize::MAX,
        char_col_of(line_content(t, end.0 as nat), (end.1 + 1) as nat) <= usize::MAX,
    ensures
        ({
            let from = offset_of(
                t,
                start.0 as nat,
                char_col_of(line_content(t, start.0 as nat), start.1 as nat),
            );
            let to = offset_of(
                t,
                end.0 as nat,
                char_col_of(line_content(t, end.0 as nat), (end.1 + 1) as nat),
            );
            &&& range_offsets(t, char_range(t, start, end)) == (from, to)
            &&& range_text(t, char_range(t, start, end)) == if from < to {
                t.subrange(from, to)
            } else {
                Seq::empty()
            }
        }),
{
}

/// After a deletion the cursor is where the selection started; after one of
/// lines, on the line that took their place, or on the last.
pub proof fn deletions_leave_the_cursor_at_the_start(b: Buf, start: (usize, usize))
    ensures
        cut_cursor(b, Mode::Visual, start) == (start.0 as int, start.1 as int),
        start.0 < line_count(b.text) ==> cut_cursor(b, Mode::VisualLine, start) == (
            start.0 as int,
            0int,
        ),
        start.0 >= line_count(b.text) ==> cut_cursor(b, Mode::VisualLine, start) == (
            line_count(b.text) - 1,
            0int,
        ),
        cut_cursor(b, Mode::VisualBlock, start).0 == start.0,
{
}

/// What repeats a deletion deletes as many lines, or lines and columns, as were
/// selected.
pub proof fn repeats_delete_as_much(start: (usize, usize), end: (usize, usize))
    requires
        start.0 <= end.0 < usize::MAX,
        start.1 <= end.1 < usize::MAX,
    ensures
        cut_action(Mode::VisualLine, start, end) == (RepeatAction::DeleteVisualLine {
            line_count: (end.0 - start.0 + 1) as usize,
        }),
        cut_action(Mode::VisualBlock, start, end) == (RepeatAction::DeleteVisualBlock {
            line_count: (end.0 - start.0 + 1) as usize,
            width: (end.1 - start.1 + 1) as usize,
        }),
        start.0 == end.0 ==> cut_action(Mode::Visual, start, end) == (
        RepeatAction::DeleteVisualChar {
            line_delta: 0,
            offset_col: (end.1 - start.1 + 1) as usize,
        }),
{
}

/// How many cells a cluster takes: a tab as many as lead to the next stop, at
/// least one; a control character two; any other as wide as it is.
pub proof fn clusters_take_cells(cluster: Seq<char>, column: int, tab: int)
    requires
        0 <= column,
        0 < tab,
    ensures
        cluster == seq!['\t'] ==> 1 <= cells_at(cluster, column, tab) <= tab && (column + cells_at(
            cluster,
            column,
            tab,
        )) % tab == 0,
        cluster.len() == 1 && cluster[0] != '\t' && ((cluster[0] as u32) < 32 || cluster[0] as u32
            == 127) ==> cells_at(cluster, column, tab) == 2,
        cluster.len() == 1 && (cluster[0] as u32) >= 32 && cluster[0] as u32 != 127 ==> cells_at(
            cluster,
            column,
            tab,
        ) == cluster_width(cluster),
        cluster.len() != 1 ==> cells_at(cluster, column, tab) == cluster_width(cluster),
{
    assert(seq!['\t'].len() == 1 && seq!['\t'][0] == '\t');
    if cluster.len() == 1 && cluster[0] == '\t' {
        assert(cluster =~= seq!['\t']);
    }
    if cluster == seq!['\t'] {
        assert(cluster[0] == '\t');
    }
    if cluster.len() == 1 {
        control_characters_have_carets(cluster[0]);
    }
    let r = column % tab;
    assert(0 <= r < tab) by (nonlinear_arith)
        requires
            r == column % tab,
            tab > 0,
    ;
    let q = column / tab;
    assert(column + tab - r == (q + 1) * tab) by (nonlinear_arith)
        requires
            q == column / tab,
            r == column % tab,
            tab > 0,
    ;
    assert(((q + 1) * tab) % tab == 0) by (nonlinear_arith)
        requires
            tab > 0,
    ;
}

/// Clusters stand one behind the other, from the first column on.
pub proof fn clusters_stand_in_a_row(parts: Seq<Seq<char>>, k: int, tab: int)
    requires
        0 < k <= parts.len(),
    ensures
        display_of(parts, k, tab) == display_of(parts, k - 1, tab) + cells_at(
            parts[k - 1],
            display_of(parts, k - 1, tab) as int,
            tab,
        ),
        display_of(parts, 0, tab) == 0,
{
}

} // verus!
