//! How a visual column is encoded as tabs and spaces.
use crate::fmt::{repeat_char, repeated};
use crate::text::{chars_of, slice_string};
use vstd::prelude::*;

verus! {

/// How indentation is measured and written.
#[derive(Debug, Clone, Copy, PartialEq, Eq, Structural)]
pub struct IndentOptions {
    pub tab_width: usize,
    pub shift_width: usize,
    pub soft_tab_stop: usize,
    pub expand_tab: bool,
    pub copy_indent: bool,
}

pub open spec fn is_indent(c: char) -> bool {
    c == ' ' || c == '\t'
}

/// The largest machine integer bounds a width.
pub open spec fn bounded(n: int) -> int {
    if n <= usize::MAX {
        n
    } else {
        usize::MAX as int
    }
}

/// How many of the first characters, from the `i`th on, are blanks or tabs.
pub open spec fn indent_end(t: Seq<char>, i: int) -> int
    decreases t.len() - i,
{
    if 0 <= i < t.len() && is_indent(t[i]) {
        indent_end(t, i + 1)
    } else {
        i
    }
}

/// The blanks and tabs that lead a line.
pub open spec fn leading_of(t: Seq<char>) -> Seq<char> {
    t.take(indent_end(t, 0))
}

/// The visual column behind the first `k` characters: a tab goes on to the
/// next tab stop, anything else takes one column.
pub open spec fn width_of(t: Seq<char>, k: int, tab_width: int) -> int
    decreases k,
{
    if k <= 0 || k > t.len() {
        0
    } else {
        let before = width_of(t, k - 1, tab_width);
        if t[k - 1] == '\t' {
            bounded(before + tab_width - before % tab_width)
        } else {
            bounded(before + 1)
        }
    }
}

pub open spec fn leading_width_of(t: Seq<char>, tab_width: int) -> int {
    width_of(t, indent_end(t, 0), tab_width)
}

pub proof fn indent_end_is(t: Seq<char>, i: int)
    requires
        0 <= i <= t.len(),
    ensures
        i <= indent_end(t, i) <= t.len(),
        forall|j: int| i <= j < indent_end(t, i) ==> is_indent(t[j]),
        indent_end(t, i) < t.len() ==> !is_indent(t[indent_end(t, i)]),
    decreases t.len() - i,
{
    if i < t.len() && is_indent(t[i]) {
        indent_end_is(t, i + 1);
    }
}

/// How many blanks and tabs lead a line.
pub fn leading_char_count(line: &str) -> (n: usize)
    ensures
        n == indent_end(line@, 0),
        n <= line@.len(),
{
    let cs = chars_of(line);
    let mut i: usize = 0;
    while i < cs.len() && (cs[i] == ' ' || cs[i] == '\t')
        invariant
            i <= cs.len(),
            cs@ == line@,
            indent_end(line@, i as int) == indent_end(line@, 0),
        decreases cs.len() - i,
    {
        i += 1;
    }
    i
}

/// The blanks and tabs that lead a line.
pub fn leading_str(line: &str) -> (s: String)
    ensures
        s@ == leading_of(line@),
        s@.len() == indent_end(line@, 0),
{
    let n: usize = leading_char_count(line);
    let cs = chars_of(line);
    let s = slice_string(&cs, 0, n);
    proof {
        assert(s@ =~= leading_of(line@));
    }
    s
}

/// The visual column behind a text that starts at column zero.
pub fn visual_width(text: &str, tab_width: usize) -> (w: usize)
    requires
        tab_width > 0,
    ensures
        w == width_of(text@, text@.len() as int, tab_width as int),
{
    let cs = chars_of(text);
    width_of_prefix(&cs, cs.len(), tab_width)
}

fn width_of_prefix(cs: &Vec<char>, n: usize, tab_width: usize) -> (w: usize)
    requires
        tab_width > 0,
        n <= cs.len(),
    ensures
        w == width_of(cs@, n as int, tab_width as int),
{
    let mut w: usize = 0;
    let mut i: usize = 0;
    while i < n
        invariant
            i <= n <= cs.len(),
            tab_width > 0,
            w == width_of(cs@, i as int, tab_width as int),
        decreases n - i,
    {
        if cs[i] == '\t' {
            w = w.saturating_add(tab_width - w % tab_width);
        } else {
            w = w.saturating_add(1);
        }
        i += 1;
    }
    w
}

/// The visual column at which the text of a line starts.
pub fn leading_width(line: &str, tab_width: usize) -> (w: usize)
    requires
        tab_width > 0,
    ensures
        w == leading_width_of(line@, tab_width as int),
{
    let cs = chars_of(line);
    width_of_prefix(&cs, leading_char_count(line), tab_width)
}

impl IndentOptions {
    /// No width is zero; shifting by zero means shifting by a tab.
    pub open spec fn norm(self) -> IndentOptions {
        let tab = if self.tab_width < 1 {
            1
        } else {
            self.tab_width
        };
        IndentOptions {
            tab_width: tab,
            shift_width: if self.shift_width == 0 {
                tab
            } else {
                self.shift_width
            },
            ..self
        }
    }

    pub open spec fn wf(self) -> bool {
        self.tab_width > 0 && self.shift_width > 0
    }

    /// The text of an indentation of a given width.
    pub open spec fn encoded(self, width: int) -> Seq<char> {
        if self.expand_tab {
            repeated(' ', width)
        } else {
            repeated('\t', width / self.tab_width as int) + repeated(
                ' ',
                width % self.tab_width as int,
            )
        }
    }

    /// The text that leads from one visual column to another.
    pub open spec fn gap(self, from: int, to: int) -> Seq<char> {
        if to <= from {
            Seq::empty()
        } else if self.expand_tab {
            repeated(' ', to - from)
        } else {
            let tab = self.tab_width as int;
            let tabs = to / tab - from / tab;
            if tabs > 0 {
                repeated('\t', tabs) + repeated(' ', to % tab)
            } else {
                repeated(' ', to - from)
            }
        }
    }

    /// The next multiple of the shift width.
    pub open spec fn next_stop(self, width: int) -> int {
        bounded(width + self.shift_width - width % self.shift_width as int)
    }

    /// The last multiple of a step below a column.
    pub open spec fn stop_before(step: int, width: int) -> int {
        if width <= 0 || step <= 0 {
            0
        } else {
            (width - 1) / step * step
        }
    }

    pub fn normalized(self) -> (o: IndentOptions)
        ensures
            o == self.norm(),
            o.wf(),
    {
        let tab_width: usize = if self.tab_width < 1 {
            1
        } else {
            self.tab_width
        };
        let shift_width: usize = if self.shift_width == 0 {
            tab_width
        } else {
            self.shift_width
        };
        IndentOptions {
            tab_width,
            shift_width,
            soft_tab_stop: self.soft_tab_stop,
            expand_tab: self.expand_tab,
            copy_indent: self.copy_indent,
        }
    }

    /// The text of an indentation of a given width.
    pub fn encode_indent(self, width: usize) -> (s: String)
        requires
            self.wf(),
        ensures
            s@ == self.encoded(width as int),
    {
        if self.expand_tab {
            repeat_char(' ', width)
        } else {
            let mut s = repeat_char('\t', width / self.tab_width);
            s.append(repeat_char(' ', width % self.tab_width).as_str());
            s
        }
    }

    /// The text that leads from one visual column to another.
    pub fn gap_text(self, from: usize, to: usize) -> (s: String)
        requires
            self.wf(),
        ensures
            s@ == self.gap(from as int, to as int),
    {
        if to <= from {
            return String::new();
        }
        if self.expand_tab {
            return repeat_char(' ', to - from);
        }
        let upper: usize = to / self.tab_width;
        let lower: usize = from / self.tab_width;
        if upper > lower {
            let mut s = repeat_char('\t', upper - lower);
            s.append(repeat_char(' ', to % self.tab_width).as_str());
            s
        } else {
            repeat_char(' ', to - from)
        }
    }

    /// The next multiple of the shift width.
    pub fn next_indent_stop(self, width: usize) -> (w: usize)
        requires
            self.wf(),
        ensures
            w == self.next_stop(width as int),
            w > width || w == usize::MAX,
    {
        width.saturating_add(self.shift_width - width % self.shift_width)
    }

    /// The last multiple of the shift width below a column.
    pub fn previous_indent_stop(self, width: usize) -> (w: usize)
        requires
            self.wf(),
        ensures
            w == Self::stop_before(self.shift_width as int, width as int),
            w <= width,
    {
        previous_stop(self.shift_width, width)
    }

    /// The last soft tab stop below a column.
    pub fn previous_soft_tab_stop(self, width: usize) -> (w: usize)
        ensures
            w == Self::stop_before(self.soft_tab_stop as int, width as int),
            w <= width,
    {
        previous_stop(self.soft_tab_stop, width)
    }

    /// What the tab key inserts at a visual column: a tab, or blanks up to
    /// the next soft tab stop (or tab stop, where there is none).
    pub open spec fn tab_at(self, column: int) -> Seq<char> {
        if self.expand_tab {
            let step = if self.soft_tab_stop > 0 {
                self.soft_tab_stop as int
            } else {
                self.tab_width as int
            };
            repeated(' ', step - column % step)
        } else {
            seq!['\t']
        }
    }

    pub fn tab_text(self, column: usize) -> (s: String)
        requires
            self.wf(),
        ensures
            s@ == self.tab_at(column as int),
    {
        if self.expand_tab {
            let step: usize = if self.soft_tab_stop > 0 {
                self.soft_tab_stop
            } else {
                self.tab_width
            };
            repeat_char(' ', step - column % step)
        } else {
            let s = repeat_char('\t', 1);
            proof {
                assert(s@ =~= seq!['\t']);
            }
            s
        }
    }
}

fn previous_stop(step: usize, width: usize) -> (w: usize)
    ensures
        w == IndentOptions::stop_before(step as int, width as int),
        w <= width,
{
    if width == 0 || step == 0 {
        return 0;
    }
    let n: usize = (width - 1) / step;
    proof {
        assert(n * step <= width - 1) by (nonlinear_arith)
            requires
                n == (width - 1) / (step as int),
                step > 0,
                width > 0,
        ;
    }
    n * step
}

proof fn tabs_measure(t: Seq<char>, k: int, tab_width: int)
    requires
        0 <= k <= t.len(),
        tab_width > 0,
        forall|j: int| 0 <= j < k ==> t[j] == '\t',
        k * tab_width <= usize::MAX,
    ensures
        width_of(t, k, tab_width) == k * tab_width,
    decreases k,
{
    if k > 0 {
        assert((k - 1) * tab_width + tab_width == k * tab_width) by (nonlinear_arith);
        tabs_measure(t, k - 1, tab_width);
        assert(((k - 1) * tab_width) % tab_width == 0) by (nonlinear_arith)
            requires
                tab_width > 0,
        ;
    } else {
        assert(0 * tab_width == 0) by (nonlinear_arith);
    }
}

proof fn blanks_measure(t: Seq<char>, from: int, k: int, tab_width: int)
    requires
        0 <= from <= k <= t.len(),
        forall|j: int| from <= j < k ==> t[j] == ' ',
        width_of(t, from, tab_width) + (k - from) <= usize::MAX,
        width_of(t, from, tab_width) >= 0,
    ensures
        width_of(t, k, tab_width) == width_of(t, from, tab_width) + (k - from),
    decreases k - from,
{
    if k > from {
        blanks_measure(t, from, k - 1, tab_width);
    }
}

/// An indentation that was written for a width measures that width.
pub proof fn encoded_indent_has_its_width(o: IndentOptions, width: int)
    requires
        o.wf(),
        0 <= width <= usize::MAX,
    ensures
        leading_width_of(o.encoded(width), o.tab_width as int) == width,
        leading_of(o.encoded(width)) == o.encoded(width),
{
    let t = o.encoded(width);
    let tab = o.tab_width as int;
    indent_end_is(t, 0);
    let end = indent_end(t, 0);
    assert(end == t.len()) by {
        if end < t.len() {
            assert(is_indent(t[end]));
        }
    }
    assert(t.take(end) =~= t);
    if o.expand_tab {
        blanks_measure(t, 0, t.len() as int, tab);
    } else {
        let tabs = width / tab;
        assert(tabs * tab + width % tab == width) by (nonlinear_arith)
            requires
                tabs == width / tab,
                tab > 0,
        ;
        assert(tabs >= 0) by (nonlinear_arith)
            requires
                tabs == width / tab,
                tab > 0,
                width >= 0,
        ;
        assert(0 <= width % tab < tab);
        tabs_measure(t, tabs, tab);
        blanks_measure(t, tabs, t.len() as int, tab);
    }
}

} // verus!
