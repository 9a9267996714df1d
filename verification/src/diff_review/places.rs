//! Where a review leads and what its small texts say.
use crate::ai::tool_input::decimal_value;
use crate::buffer::Buf;
use crate::diff_review::highlight::Mark;
use crate::diff_review::render::{
    age_text, best_group, button_at, highest_number, letter_of, marker_of, number_columns,
    number_text, plural_of, text_columns, tint_of, trimmed, DiffLayout, ReviewCell, ReviewRow,
};
use crate::diff_review::{
    apart, file_index, first_behind, hunk_below, last_before, nearest_row, next_of, next_row,
    row_info, shown_line, stat_file, target_at, Place, Review,
};
use crate::editor::review::{review_widths, source_line, unsaved_files};
use crate::editor::Ed;
use crate::fmt::digits;
use crate::native_diff::{DiffFile, PatchLine, PatchLineKind};
use crate::unicode::whitespace;
use std::ops::Range;
use vstd::prelude::*;

verus! {

/// A written number reads back: its digits are those of the decimal system,
/// without a needless zero before them.
pub proof fn numbers_read_back(n: nat)
    ensures
        decimal_value(digits(n), digits(n).len() as int) == Some(n),
        digits(n).len() > 0,
        digits(n)[0] == '0' ==> n == 0,
    decreases n,
{
    let d = digits(n);
    if n < 10 {
        reveal_with_fuel(decimal_value, 2);
        assert(d.len() == 1);
        assert(d[0] as int == 48 + n);
    } else {
        let m = n / 10;
        let r = n % 10;
        numbers_read_back(m);
        let head = digits(m);
        assert(d =~= head.push((48 + r) as char));
        same_value(head, d, head.len() as int);
        assert(d[d.len() - 1] as int == 48 + r);
        assert(10 * m + r == n);
    }
}

proof fn same_value(a: Seq<char>, b: Seq<char>, k: int)
    requires
        0 <= k <= a.len(),
        k <= b.len(),
        forall|i: int| 0 <= i < k ==> a[i] == b[i],
    ensures
        decimal_value(a, k) == decimal_value(b, k),
    decreases k,
{
    if k > 0 {
        same_value(a, b, k - 1);
    }
}

/// White space alone.
pub open spec fn white(t: Seq<char>) -> bool {
    forall|i: int| 0 <= i < t.len() ==> whitespace(#[trigger] t[i])
}

proof fn trims_to(t: Seq<char>, from: int, to: int)
    requires
        0 <= from < to <= t.len(),
        !whitespace(t[from]),
        !whitespace(t[to - 1]),
        forall|i: int| 0 <= i < from ==> whitespace(#[trigger] t[i]),
        forall|i: int| to <= i < t.len() ==> whitespace(#[trigger] t[i]),
    ensures
        trimmed(t) == t.subrange(from, to),
    decreases t.len(),
{
    if from > 0 {
        let u = t.drop_first();
        assert(whitespace(t[0]));
        assert(u[from - 1] == t[from]);
        assert(u[to - 2] == t[to - 1]);
        trims_to(u, from - 1, to - 1);
        assert(u.subrange(from - 1, to - 1) =~= t.subrange(from, to));
    } else if to < t.len() {
        let u = t.drop_last();
        assert(whitespace(t.last()));
        assert(u[0] == t[0]);
        trims_to(u, from, to);
        assert(u.subrange(from, to) =~= t.subrange(from, to));
    } else {
        assert(t.subrange(0, t.len() as int) =~= t);
    }
}

/// A text without the white space around it starts and ends with something
/// else, and loses nothing but white space.
pub proof fn trimming_takes_white_space(a: Seq<char>, m: Seq<char>, b: Seq<char>)
    requires
        white(a),
        white(b),
        m.len() > 0,
        !whitespace(m[0]),
        !whitespace(m.last()),
    ensures
        trimmed(a + m + b) == m,
{
    let t = a + m + b;
    let from = a.len() as int;
    let to = from + m.len();
    assert(t[from] == m[0]);
    assert(t[to - 1] == m.last());
    assert forall|i: int| 0 <= i < from implies whitespace(#[trigger] t[i]) by {
        assert(t[i] == a[i]);
    }
    assert forall|i: int| to <= i < t.len() implies whitespace(#[trigger] t[i]) by {
        assert(t[i] == b[i - to]);
    }
    trims_to(t, from, to);
    assert(t.subrange(from, to) =~= m);
}

/// Of white space nothing is left.
pub proof fn white_space_trims_to_nothing(t: Seq<char>)
    requires
        white(t),
    ensures
        trimmed(t) == Seq::<char>::empty(),
    decreases t.len(),
{
    if t.len() > 0 {
        assert(whitespace(t[0]));
        let u = t.drop_first();
        assert forall|i: int| 0 <= i < u.len() implies whitespace(#[trigger] u[i]) by {
            assert(u[i] == t[i + 1]);
        }
        white_space_trims_to_nothing(u);
    } else {
        assert(t =~= Seq::<char>::empty());
    }
}

/// The part of a row that a column belongs to: one whose text covers the
/// column, the old side first; else the new side where it starts before the
/// column; else whichever side there is.
pub proof fn columns_belong_to_cells(row: ReviewRow, col: int)
    ensures
        match row.cell_for(col) {
            Some(c) => row.left == Some(c) || row.right == Some(c),
            None => row.left is None && row.right is None,
        },
        (row.left matches Some(l) && l.text_col <= col && col < l.text_col + l.text_len)
            ==> row.cell_for(col) == row.left,
        (row.right matches Some(r) && r.text_col <= col && (row.left matches Some(l) ==> col
            >= l.text_col + l.text_len && (l.text_len > 0 || col > l.text_col))) ==> row.cell_for(
            col,
        ) == row.right,
        row.left is Some && (row.right matches Some(r) ==> col < r.text_col) ==> row.cell_for(col)
            == row.left,
{
}

/// Added lines are tinted as added and removed ones as removed, over the bytes
/// that their part of the row takes; nothing else is tinted.
pub proof fn changed_lines_are_tinted(c: ReviewCell)
    ensures
        c.info.kind is Added ==> tint_of(Some(c)) == seq![(c.bytes_start, c.bytes_end, true)],
        c.info.kind is Removed ==> tint_of(Some(c)) == seq![(c.bytes_start, c.bytes_end, false)],
        !(c.info.kind is Added) && !(c.info.kind is Removed) ==> tint_of(Some(c)).len() == 0,
        tint_of(None).len() == 0,
        marker_of(PatchLineKind::Added) == '+',
        marker_of(PatchLineKind::Removed) == '-',
        marker_of(PatchLineKind::Context) == ' ',
{
}

/// A click reaches the first button whose columns hold it, and otherwise none.
pub proof fn clicks_reach_their_button(
    buttons: Seq<(Range<usize>, DiffLayout)>,
    k: int,
    i: int,
    col: int,
)
    requires
        0 <= k <= i < buttons.len(),
        buttons[i].0.start <= col < buttons[i].0.end,
        forall|j: int|
            k <= j < i ==> !((#[trigger] buttons[j]).0.start <= col < buttons[j].0.end),
    ensures
        button_at(buttons, k, col) == Some(buttons[i].1),
    decreases i - k,
{
    if k < i {
        clicks_reach_their_button(buttons, k + 1, i, col);
    }
}

pub proof fn clicks_beside_buttons(buttons: Seq<(Range<usize>, DiffLayout)>, k: int, col: int)
    requires
        0 <= k,
        forall|j: int|
            k <= j < buttons.len() ==> !((#[trigger] buttons[j]).0.start <= col
                < buttons[j].0.end),
    ensures
        button_at(buttons, k, col) is None,
    decreases buttons.len() - k,
{
    if k < buttons.len() {
        clicks_beside_buttons(buttons, k + 1, col);
    }
}

/// The next line in a direction is one of the lines, in that direction, and
/// there is none only where no line lies in that direction.
pub proof fn steps_go_to_lines(lines: Seq<usize>, line: int)
    ensures
        match next_of(lines, line, true) {
            Some(n) => lines.contains(n) && n > line,
            None => forall|i: int| 0 <= i < lines.len() ==> (#[trigger] lines[i]) <= line,
        },
        match next_of(lines, line, false) {
            Some(n) => lines.contains(n) && n < line,
            None => forall|i: int| 0 <= i < lines.len() ==> (#[trigger] lines[i]) >= line,
        },
{
    first_behind_is(lines, line, 0);
    last_before_is(lines, line, lines.len() as int);
}

proof fn first_behind_is(lines: Seq<usize>, line: int, k: int)
    requires
        0 <= k <= lines.len(),
    ensures
        match first_behind(lines, line, k) {
            Some(n) => lines.contains(n) && n > line,
            None => forall|i: int| k <= i < lines.len() ==> (#[trigger] lines[i]) <= line,
        },
    decreases lines.len() - k,
{
    if k < lines.len() && lines[k] <= line {
        first_behind_is(lines, line, k + 1);
    }
}

proof fn last_before_is(lines: Seq<usize>, line: int, k: int)
    requires
        0 <= k <= lines.len(),
    ensures
        match last_before(lines, line, k) {
            Some(n) => lines.contains(n) && n < line,
            None => forall|i: int| 0 <= i < k ==> (#[trigger] lines[i]) >= line,
        },
    decreases k,
{
    if k > 0 && lines[k - 1] >= line {
        last_before_is(lines, line, k - 1);
    }
}

/// Where a line of the review leads: to the line of the new file that it
/// shows; a line without one, to the first hunk of its file below it, on rows
/// that all show the patch; else to the start of the file.
pub proof fn lines_lead_to_their_source(rows: Seq<ReviewRow>, line: int, info: PatchLine, file: usize)
    requires
        0 <= line,
    ensures
        info.file is None ==> target_at(rows, line, info) is None,
        info.file == Some(file) ==> target_at(rows, line, info) == Some(
            (
                file,
                match (info.new_line, hunk_below(rows, line + 1, file)) {
                    (Some(own), _) => own,
                    (None, Some(p)) => match p.new_line {
                        Some(own) => own,
                        None => 1,
                    },
                    (None, None) => 1,
                },
            ),
        ),
{
}

/// The hunk below a row: the first header of a hunk of the file, with nothing
/// that is not of the patch between.
pub proof fn the_hunk_below_is_first(rows: Seq<ReviewRow>, k: int, file: usize, i: int)
    requires
        0 <= k <= i < rows.len(),
        forall|j: int| k <= j < i ==> row_info(#[trigger] rows[j]) is Some && !(row_info(
            rows[j],
        )->0.kind is HunkHeader && row_info(rows[j])->0.file == Some(file)),
        row_info(rows[i]) matches Some(p) && p.kind is HunkHeader && p.file == Some(file),
    ensures
        hunk_below(rows, k, file) == row_info(rows[i]),
    decreases i - k,
{
    if k < i {
        assert(row_info(rows[k]) is Some);
        the_hunk_below_is_first(rows, k + 1, file, i);
    }
}

/// The row that shows the same text of a file nearest to a line: none of the
/// rows with that text is nearer, and none of those as near stands before it.
pub proof fn the_same_text_is_nearest(
    rows: Seq<ReviewRow>,
    lines: Seq<Seq<char>>,
    file: int,
    text: Seq<char>,
    line: usize,
    k: int,
)
    requires
        0 <= k <= rows.len(),
        k <= lines.len(),
    ensures
        match nearest_row(rows, lines, file, text, line, k) {
            Some((i, n)) => {
                &&& 0 <= i < k
                &&& lines[i] == text
                &&& shown_line(rows, i, file) == Some(n)
                &&& forall|j: int, m: usize|
                    0 <= j < k && #[trigger] shown_line(rows, j, file) == Some(m) && lines[j]
                        == text ==> apart(n, line) <= #[trigger] apart(m, line) && (j < i ==> apart(
                        n,
                        line,
                    ) < apart(m, line))
            },
            None => forall|j: int|
                0 <= j < k && lines[j] == text ==> #[trigger] shown_line(rows, j, file) is None,
        },
        forall|a: usize, b: usize|
            #[trigger] apart(a, b) >= 0 && (a + apart(a, b) == b || b + apart(a, b) == a),
    decreases k,
{
    if k > 0 {
        the_same_text_is_nearest(rows, lines, file, text, line, k - 1);
    }
}

/// The first row at or behind a line of a file: no row shows a line between.
pub proof fn the_row_behind_is_nearest(rows: Seq<ReviewRow>, file: int, line: usize, k: int)
    requires
        0 <= k <= rows.len(),
    ensures
        match next_row(rows, file, line, k) {
            Some((i, n)) => {
                &&& 0 <= i < k
                &&& n >= line
                &&& shown_line(rows, i, file) == Some(n)
                &&& forall|j: int|
                    0 <= j < k ==> (#[trigger] shown_line(rows, j, file) matches Some(m) ==> m < line
                        || m > n || (m == n && i <= j))
            },
            None => forall|j: int|
                0 <= j < k ==> (#[trigger] shown_line(rows, j, file) matches Some(m) ==> m < line),
        },
    decreases k,
{
    if k > 0 {
        the_row_behind_is_nearest(rows, file, line, k - 1);
    }
}

/// What a row shows of a file: the line of the new side, unless it is the
/// header of a file or belongs to another.
pub proof fn rows_show_lines_of_their_file(rows: Seq<ReviewRow>, k: int, file: int)
    requires
        0 <= k < rows.len(),
        0 <= file <= usize::MAX,
    ensures
        shown_line(rows, k, file) == match row_info(rows[k]) {
            Some(p) => if p.file == Some(file as usize) && !(p.kind is FileHeader) {
                p.new_line
            } else {
                None
            },
            None => None,
        },
        rows[k].left matches Some(c) ==> row_info(rows[k]) == Some(c.info),
        rows[k].left is None && rows[k].right is Some ==> row_info(rows[k]) == Some(
            rows[k].right->0.info,
        ),
{
}

/// Where a place is shown: by the same text where it still stands, else by the
/// first line at or behind it, else by the start of its file.
pub proof fn places_are_found_again(r: Review, place: Place, file: int)
    requires
        file_index(r.patch.files@, 0, place.path) == Some(file),
    ensures
        ({
            let n = r.page.rows.len() as int;
            let behind = next_row(r.page.rows, file, place.line, n);
            let found = r.line_of(place);
            &&& (place.text matches Some(text) ==> nearest_row(
                r.page.rows,
                r.page.lines,
                file,
                text,
                place.line,
                n,
            ) matches Some((i, m)) ==> found == Some(i as usize))
            &&& place.text is None && behind is Some ==> found == Some((behind->0).0 as usize)
            &&& place.text is None && behind is None && file < r.page.file_lines.len() ==> found
                == Some(r.page.file_lines[file])
        }),
{
}

/// A file is found by its path, the first of its name.
pub proof fn files_are_found_by_path(files: Seq<DiffFile>, k: int, path: Seq<char>)
    requires
        0 <= k <= files.len(),
    ensures
        match file_index(files, k, path) {
            Some(i) => k <= i < files.len() && files[i].path@ == path && forall|j: int|
                k <= j < i ==> (#[trigger] files[j]).path@ != path,
            None => forall|j: int| k <= j < files.len() ==> (#[trigger] files[j]).path@ != path,
        },
    decreases files.len() - k,
{
    if k < files.len() && files[k].path@ != path {
        files_are_found_by_path(files, k + 1, path);
    }
}

/// A row of the summary leads to its file.
pub proof fn summary_rows_lead_to_files(stat_rows: Seq<(usize, usize)>, k: int, line: int)
    requires
        0 <= k <= stat_rows.len(),
    ensures
        match stat_file(stat_rows, k, line) {
            Some(f) => exists|i: int|
                k <= i < stat_rows.len() && (#[trigger] stat_rows[i]).0 == line && stat_rows[i].1
                    == f,
            None => forall|j: int|
                k <= j < stat_rows.len() ==> (#[trigger] stat_rows[j]).0 != line,
        },
    decreases stat_rows.len() - k,
{
    if k < stat_rows.len() && stat_rows[k].0 != line {
        summary_rows_lead_to_files(stat_rows, k + 1, line);
    } else if k < stat_rows.len() {
        assert(stat_rows[k].0 == line);
    }
}

/// Lines of a file are counted from one in a patch and from zero in a buffer.
pub proof fn lines_are_counted_from_zero(line: usize)
    ensures
        line > 0 ==> source_line(line) + 1 == line,
        source_line(0) == 0,
{
}

/// How long ago: the number of whole minutes, hours or days that have passed,
/// in the largest unit of which about one and a half have.
pub proof fn ages_are_rounded_down(seconds: nat)
    ensures
        seconds < 90 ==> age_text(seconds) == "just now"@,
        90 <= seconds < 5400 ==> exists|n: nat|
            60 * n <= seconds < 60 * n + 60 && age_text(seconds) == #[trigger] digits(n)
                + " min ago"@,
        5400 <= seconds < 129600 ==> exists|n: nat|
            3600 * n <= seconds < 3600 * n + 3600 && age_text(seconds) == #[trigger] digits(n)
                + " h ago"@,
        129600 <= seconds ==> exists|n: nat|
            86400 * n <= seconds < 86400 * n + 86400 && age_text(seconds) == #[trigger] digits(n)
                + " d ago"@,
{
    if 90 <= seconds < 5400 {
        let n = seconds / 60;
        assert(age_text(seconds) == digits(n) + " min ago"@);
    } else if 5400 <= seconds < 129600 {
        let n = seconds / 3600;
        assert(age_text(seconds) == digits(n) + " h ago"@);
    } else if 129600 <= seconds {
        let n = seconds / 86400;
        assert(age_text(seconds) == digits(n) + " d ago"@);
    }
}

/// Each status of a file has a letter of its own.
pub proof fn statuses_have_letters()
    ensures
        letter_of("added"@) == 'A',
        letter_of("deleted"@) == 'D',
        letter_of("renamed"@) == 'R',
        letter_of("copied"@) == 'C',
        letter_of("typechanged"@) == 'T',
        letter_of("conflicted"@) == 'U',
        letter_of("modified"@) == 'M',
{
    reveal_strlit("added");
    reveal_strlit("deleted");
    reveal_strlit("renamed");
    reveal_strlit("copied");
    reveal_strlit("typechanged");
    reveal_strlit("conflicted");
    reveal_strlit("modified");
    assert("deleted"@[0] == 'd' && "added"@[0] == 'a' && "renamed"@[0] == 'r' && "copied"@[0] == 'c'
        && "typechanged"@[0] == 't' && "conflicted"@[0] == 'c' && "modified"@[0] == 'm');
    assert("copied"@[2] == 'p' && "conflicted"@[2] == 'n');
}

/// A count has its noun in the plural unless it is one.
pub proof fn counts_have_their_noun(n: nat, noun: Seq<char>)
    ensures
        n == 1 ==> plural_of(n, noun) == "1 "@ + noun,
        n != 1 ==> plural_of(n, noun) == digits(n) + " "@ + noun + "s"@,
{
}

/// A line number stands flush right in its columns, and a blank behind it.
pub proof fn numbers_stand_flush_right(n: usize, width: int)
    requires
        0 <= width,
        digits(n as nat).len() <= width,
    ensures
        ({
            let t = number_text(Some(n), width);
            let d = digits(n as nat);
            &&& t.len() == width + 1
            &&& t.subrange(width - d.len(), width) == d
            &&& t[width] == ' '
            &&& forall|i: int| 0 <= i < width - d.len() ==> #[trigger] t[i] == ' '
            &&& number_text(None, width).len() == width + 1
        }),
{
    reveal_strlit(" ");
    let t = number_text(Some(n), width);
    let d = digits(n as nat);
    assert(t.subrange(width - d.len(), width) =~= d);
}

proof fn highest_is(lines: Seq<PatchLine>, k: int)
    requires
        0 <= k <= lines.len(),
    ensures
        forall|i: int| 0 <= i < k ==> ((#[trigger] lines[i]).old_line matches Some(n)
            ==> (highest_number(lines, k) matches Some(h) && n <= h)),
        forall|i: int| 0 <= i < k ==> ((#[trigger] lines[i]).new_line matches Some(n)
            ==> (highest_number(lines, k) matches Some(h) && n <= h)),
    decreases k,
{
    if k > 0 {
        highest_is(lines, k - 1);
    }
}

/// Every line number of a patch fits its columns, as far as they have seven
/// digits; there are three columns at least.
pub proof fn line_numbers_fit(lines: Seq<PatchLine>, i: int, n: usize)
    requires
        0 <= i < lines.len(),
        lines[i].old_line == Some(n) || lines[i].new_line == Some(n),
        digits(n as nat).len() <= 7,
    ensures
        3 <= number_columns(lines) <= 7,
        digits(n as nat).len() <= number_columns(lines),
{
    highest_is(lines, lines.len() as int);
    let h = highest_number(lines, lines.len() as int)->0;
    longer_numbers(n as nat, h);
}

proof fn longer_numbers(m: nat, n: nat)
    requires
        m <= n,
    ensures
        digits(m).len() <= digits(n).len(),
        digits(m).len() > 0,
    decreases n,
{
    if m >= 10 {
        longer_numbers(m / 10, n / 10);
    } else {
        has_digits(n);
    }
}

proof fn has_digits(n: nat)
    ensures
        digits(n).len() > 0,
    decreases n,
{
    if n >= 10 {
        has_digits(n / 10);
    }
}

/// The two sides of a row, with their gutters and what separates them, fit the
/// width, and use all of it but for one column, unless it is too narrow for
/// eight columns of text on each side.
pub proof fn sides_share_the_width(number_width: int, width: int)
    requires
        0 <= number_width,
        width >= 3 + 2 * (number_width + 3) + 16,
    ensures
        ({
            let used = 2 * text_columns(number_width, width) + 2 * (number_width + 3) + 3;
            width - 1 <= used <= width
        }),
{
}

/// The text of a review stops one column short of the room that there is, and
/// has twenty columns at least.
pub proof fn reviews_fit_their_window(e: Ed)
    ensures
        ({
            let (area, text, gutter) = e.ui.widths;
            let width = review_widths(e).1;
            &&& area is Some ==> width >= 20
            &&& area is Some && text > 21 ==> width == text - 1
            &&& area matches Some(a) ==> text == 0 && a > gutter + 21 ==> width == a - gutter - 1
            &&& area matches Some(a) ==> review_widths(e).0 == a
        }),
{
}

/// The narrowest highlight that covers a byte is shown, the first of those as
/// narrow.
pub proof fn the_narrowest_highlight_is_shown(code: Seq<Mark>, k: int, src: int)
    requires
        0 <= k <= code.len(),
    ensures
        match best_group(code, k, src) {
            Some((group, len)) => {
                &&& exists|i: int|
                    0 <= i < k && (#[trigger] code[i]).2 == group && code[i].1 - code[i].0 == len
                        && code[i].0 <= src < code[i].1
                &&& forall|j: int|
                    0 <= j < k && (#[trigger] code[j]).0 <= src < code[j].1 ==> len <= code[j].1
                        - code[j].0
            },
            None => forall|j: int|
                0 <= j < k ==> !((#[trigger] code[j]).0 <= src < code[j].1),
        },
    decreases k,
{
    if k > 0 {
        the_narrowest_highlight_is_shown(code, k - 1, src);
        let (start, end, group) = code[k - 1];
        let before = best_group(code, k - 1, src);
        if start <= src < end && (before is None || end - start < (before->0).1) {
            assert(code[k - 1].2 == group);
        }
    }
}

/// Changed files that are not saved are counted, each once; buffers without a
/// file, or without changes, are not.
pub proof fn unsaved_files_are_counted(bufs: Seq<Buf>, k: int)
    requires
        0 < k <= bufs.len(),
    ensures
        bufs[k - 1].modified && bufs[k - 1].path is Some ==> unsaved_files(bufs, k) == unsaved_files(
            bufs,
            k - 1,
        ) + 1,
        !bufs[k - 1].modified || bufs[k - 1].path is None ==> unsaved_files(bufs, k)
            == unsaved_files(bufs, k - 1),
        unsaved_files(bufs, 0) == 0,
{
}

} // verus!
