//! Visual columns: where tabs and indentation stops lie, and what the texts
//! that lead from one column to another measure.
use crate::editor::input::helpers::inherited;
use crate::fmt::repeated;
use crate::indentation::{
    encoded_indent_has_its_width, indent_end, indent_end_is, is_indent, leading_of,
    leading_width_of, width_of, IndentOptions,
};
use vstd::prelude::*;

verus! {

/// A column is a stop: the step divides it.
pub open spec fn is_stop(step: int, column: int) -> bool {
    column % step == 0
}

proof fn next_stop_is(step: int, w: int)
    requires
        step > 0,
        w >= 0,
    ensures
        is_stop(step, w + step - w % step),
        w < w + step - w % step <= w + step,
{
    let q = w / step;
    assert(w == q * step + w % step && 0 <= w % step < step) by (nonlinear_arith)
        requires
            step > 0,
            q == w / step,
    ;
    assert(w + step - w % step == (q + 1) * step) by (nonlinear_arith)
        requires
            w == q * step + w % step,
    ;
    assert(((q + 1) * step) % step == 0) by (nonlinear_arith)
        requires
            step > 0,
    ;
}

/// What characters do to the visual column: a tab goes on to the next stop, at
/// least one column; anything else takes one.
pub proof fn characters_move_the_column(t: Seq<char>, k: int, tab: int)
    requires
        0 < k <= t.len(),
        0 < tab,
        0 <= width_of(t, k - 1, tab),
        width_of(t, k - 1, tab) + tab <= usize::MAX,
    ensures
        ({
            let before = width_of(t, k - 1, tab);
            let after = width_of(t, k, tab);
            if t[k - 1] == '\t' {
                is_stop(tab, after) && before < after <= before + tab
            } else {
                after == before + 1
            }
        }),
        width_of(t, 0, tab) == 0,
{
    next_stop_is(tab, width_of(t, k - 1, tab));
}

/// The next level of indentation is the nearest stop behind a width.
pub proof fn the_next_stop_is_nearest(o: IndentOptions, width: int)
    requires
        o.wf(),
        0 <= width,
        width + o.shift_width <= usize::MAX,
    ensures
        is_stop(o.shift_width as int, o.next_stop(width)),
        width < o.next_stop(width) <= width + o.shift_width,
{
    next_stop_is(o.shift_width as int, width);
}

/// The level before is the nearest stop ahead of a width; there is none ahead
/// of the first column.
pub proof fn the_stop_before_is_nearest(step: int, width: int)
    requires
        0 < step,
        0 <= width,
    ensures
        is_stop(step, IndentOptions::stop_before(step, width)),
        0 <= IndentOptions::stop_before(step, width),
        width > 0 ==> width - step <= IndentOptions::stop_before(step, width) < width,
        width == 0 ==> IndentOptions::stop_before(step, width) == 0,
{
    assert(0int % step == 0) by (nonlinear_arith)
        requires
            step > 0,
    ;
    if width > 0 {
        let w = width - 1;
        let q = w / step;
        assert(w == q * step + w % step && 0 <= w % step < step) by (nonlinear_arith)
            requires
                step > 0,
                q == w / step,
        ;
        assert(q * step >= 0) by (nonlinear_arith)
            requires
                step > 0,
                w >= 0,
                q == w / step,
        ;
        assert((q * step) % step == 0) by (nonlinear_arith)
            requires
                step > 0,
        ;
    }
}

/// Widths are never negative.
proof fn widths_are_positive(t: Seq<char>, k: int, tab: int)
    requires
        0 < tab,
    ensures
        0 <= width_of(t, k, tab) <= usize::MAX,
    decreases k,
{
    if 0 < k <= t.len() {
        widths_are_positive(t, k - 1, tab);
        next_stop_is(tab, width_of(t, k - 1, tab));
    }
}

proof fn blanks_move_on(t: Seq<char>, from: int, k: int, tab: int)
    requires
        0 < tab,
        0 <= from <= k <= t.len(),
        forall|j: int| from <= j < k ==> t[j] == ' ',
        width_of(t, from, tab) + (k - from) <= usize::MAX,
    ensures
        width_of(t, k, tab) == width_of(t, from, tab) + (k - from),
    decreases k - from,
{
    if k > from {
        blanks_move_on(t, from, k - 1, tab);
    }
}

proof fn tabs_move_on(t: Seq<char>, from: int, k: int, tab: int)
    requires
        0 < tab,
        0 <= from < k <= t.len(),
        forall|j: int| from <= j < k ==> t[j] == '\t',
        (width_of(t, from, tab) / tab + (k - from)) * tab <= usize::MAX,
    ensures
        width_of(t, k, tab) == (width_of(t, from, tab) / tab + (k - from)) * tab,
    decreases k - from,
{
    widths_are_positive(t, from, tab);
    let w = width_of(t, from, tab);
    let q = w / tab;
    if k == from + 1 {
        assert(w + tab - w % tab == (q + 1) * tab) by (nonlinear_arith)
            requires
                q == w / tab,
                tab > 0,
        ;
    } else {
        let n = k - 1 - from;
        assert((q + n) * tab + tab == (q + n + 1) * tab) by (nonlinear_arith);
        tabs_move_on(t, from, k - 1, tab);
        assert(((q + n) * tab) % tab == 0) by (nonlinear_arith)
            requires
                tab > 0,
        ;
    }
}

proof fn same_widths(a: Seq<char>, b: Seq<char>, k: int, tab: int)
    requires
        0 <= k <= a.len(),
        k <= b.len(),
        forall|j: int| 0 <= j < k ==> a[j] == b[j],
    ensures
        width_of(a, k, tab) == width_of(b, k, tab),
    decreases k,
{
    if k > 0 {
        same_widths(a, b, k - 1, tab);
    }
}

/// The text that leads from one column to another does: behind a text that
/// ends at the first, it ends at the second. It holds blanks and tabs alone,
/// and blanks alone where tabs are to be expanded.
pub proof fn gaps_lead_from_column_to_column(o: IndentOptions, t: Seq<char>, to: int)
    requires
        o.wf(),
        width_of(t, t.len() as int, o.tab_width as int) <= to <= usize::MAX,
    ensures
        ({
            let tab = o.tab_width as int;
            let from = width_of(t, t.len() as int, tab);
            let all = t + o.gap(from, to);
            &&& width_of(all, all.len() as int, tab) == to
            &&& forall|j: int|
                0 <= j < o.gap(from, to).len() ==> is_indent(#[trigger] o.gap(from, to)[j])
            &&& o.expand_tab ==> forall|j: int|
                0 <= j < o.gap(from, to).len() ==> #[trigger] o.gap(from, to)[j] == ' '
        }),
{
    let tab = o.tab_width as int;
    let n = t.len() as int;
    let from = width_of(t, n, tab);
    let gap = o.gap(from, to);
    let all = t + gap;
    widths_are_positive(t, n, tab);
    same_widths(t, all, n, tab);
    if to <= from {
        assert(all =~= t);
    } else if o.expand_tab || to / tab - from / tab <= 0 {
        assert(gap =~= repeated(' ', to - from)) by {
            if !o.expand_tab {
                assert(!(to / tab - from / tab > 0));
            }
        }
        blanks_move_on(all, n, all.len() as int, tab);
    } else {
        let tabs = to / tab - from / tab;
        let rest = to % tab;
        assert(to == (to / tab) * tab + rest && 0 <= rest < tab) by (nonlinear_arith)
            requires
                rest == to % tab,
                tab > 0,
        ;
        assert(from / tab + tabs == to / tab);
        assert((from / tab + tabs) * tab == to - rest);
        assert forall|j: int| n <= j < n + tabs implies all[j] == '\t' by {
            assert(all[j] == gap[j - n]);
        }
        tabs_move_on(all, n, n + tabs, tab);
        assert(all.len() == n + tabs + rest);
        assert forall|j: int| n + tabs <= j < all.len() implies all[j] == ' ' by {
            assert(all[j] == gap[j - n]);
        }
        blanks_move_on(all, n + tabs, all.len() as int, tab);
    }
}

/// What the tab key inserts: a tab; or, where tabs are to be expanded, blanks
/// up to the nearest stop behind the column.
pub proof fn the_tab_key_goes_to_the_next_stop(o: IndentOptions, column: int)
    requires
        o.wf(),
        0 <= column,
    ensures
        ({
            let step = if o.soft_tab_stop > 0 {
                o.soft_tab_stop as int
            } else {
                o.tab_width as int
            };
            let text = o.tab_at(column);
            if o.expand_tab {
                &&& is_stop(step, column + text.len())
                &&& 0 < text.len() <= step
                &&& forall|j: int| 0 <= j < text.len() ==> #[trigger] text[j] == ' '
            } else {
                text == seq!['\t']
            }
        }),
{
    let step = if o.soft_tab_stop > 0 {
        o.soft_tab_stop as int
    } else {
        o.tab_width as int
    };
    next_stop_is(step, column);
    assert(0 <= column % step < step) by (nonlinear_arith)
        requires
            step > 0,
    ;
}

/// Options in force: a tab is at least one column wide, and a shift width of
/// zero means that of a tab; the others are as they were set.
pub proof fn options_in_force(o: IndentOptions)
    ensures
        o.norm().wf(),
        o.tab_width > 0 ==> o.norm().tab_width == o.tab_width,
        o.tab_width == 0 ==> o.norm().tab_width == 1,
        o.shift_width > 0 ==> o.norm().shift_width == o.shift_width,
        o.shift_width == 0 ==> o.norm().shift_width == o.norm().tab_width,
        o.norm().soft_tab_stop == o.soft_tab_stop,
        o.norm().expand_tab == o.expand_tab,
        o.norm().copy_indent == o.copy_indent,
{
}

proof fn all_lead(t: Seq<char>)
    requires
        forall|j: int| 0 <= j < t.len() ==> is_indent(#[trigger] t[j]),
    ensures
        indent_end(t, 0) == t.len(),
        leading_of(t) == t,
{
    indent_end_is(t, 0);
    if indent_end(t, 0) < t.len() {
        assert(is_indent(t[indent_end(t, 0)]));
    }
    assert(t.take(t.len() as int) =~= t);
}

/// A new line is indented as wide as the line that it follows, or one level
/// wider; and where indentation is to be copied, the characters of the old
/// one lead it.
pub proof fn new_lines_inherit_the_width(line: Seq<char>, extra: bool, o: IndentOptions)
    requires
        o.wf(),
        leading_width_of(line, o.tab_width as int) + o.shift_width <= usize::MAX,
    ensures
        ({
            let tab = o.tab_width as int;
            let new = inherited(line, extra, o);
            &&& leading_width_of(new, tab) == leading_width_of(line, tab) + if extra {
                o.shift_width as int
            } else {
                0
            }
            &&& leading_of(new) == new
            &&& o.copy_indent ==> new.len() >= leading_of(line).len() && new.take(
                leading_of(line).len() as int,
            ) == leading_of(line)
        }),
{
    let tab = o.tab_width as int;
    let lead = leading_of(line);
    indent_end_is(line, 0);
    widths_are_positive(line, indent_end(line, 0), tab);
    let width = leading_width_of(line, tab);
    let target = if extra {
        width + o.shift_width
    } else {
        width
    };
    let new = inherited(line, extra, o);
    if o.copy_indent {
        let n = lead.len() as int;
        same_widths(line, lead, n, tab);
        assert(width_of(lead, n, tab) == width);
        gaps_lead_from_column_to_column(o, lead, target);
        let gap = o.gap(width, target);
        assert(new == lead + gap);
        assert forall|j: int| 0 <= j < new.len() implies is_indent(#[trigger] new[j]) by {
            if j < n {
                assert(new[j] == line[j]);
            } else {
                assert(new[j] == gap[j - n]);
            }
        }
        all_lead(new);
        assert(new.take(n) =~= lead);
    } else {
        encoded_indent_has_its_width(o, target);
    }
}

} // verus!
