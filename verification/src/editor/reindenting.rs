//! Giving lines their structural indentation changes their leading blanks
//! alone, and a second time nothing.
use crate::auto_indent::{
    delimiters_of, desired_indent, has_code_of, is_blank, is_planned, leading_closers_of, lex,
    profile_for, profile_of, state_at, Class, Context, PlannedIndent, ProfileModel,
};
use crate::buffer::{inserted, removed, Buf};
use crate::editor::input::helpers::{is_plan, least, planned_changes, with_plan, with_planned};
use crate::fmt::opt_view;
use crate::indentation::{indent_end, is_indent, leading_of, IndentOptions};
use crate::lexing_moves::{
    indentation_means_nothing, lexing_keeps_marks, marked_context, marked_profile,
};
use crate::line_edits::{line_alone_changes, respliced};
use crate::lines::{
    breaks_from, line_break_is, line_content, line_count, line_start, line_start_is, offset_of,
    raw_line_count,
};
use crate::syntax::Language;
use vstd::prelude::*;

verus! {

proof fn profiles_are_marked(language: Option<Language>)
    ensures
        marked_profile(profile_of(language)),
{
    reveal_strlit("/*");
    reveal_strlit("*/");
    reveal_strlit("--[[");
    reveal_strlit("]]");
    reveal_strlit("<!--");
    reveal_strlit("-->");
}

/// Blanks and tabs only.
spec fn indents(t: Seq<char>) -> bool {
    forall|j: int| 0 <= j < t.len() ==> is_indent(#[trigger] t[j])
}

proof fn lead_is(t: Seq<char>, i: int)
    requires
        0 <= i <= t.len(),
    ensures
        i <= indent_end(t, i) <= t.len(),
        forall|j: int| i <= j < indent_end(t, i) ==> is_indent(#[trigger] t[j]),
        indent_end(t, i) < t.len() ==> !is_indent(t[indent_end(t, i)]),
    decreases t.len() - i,
{
    if i < t.len() && is_indent(t[i]) {
        lead_is(t, i + 1);
    }
}

/// What stands behind the blanks of a line.
pub open spec fn behind_lead(t: Seq<char>) -> Seq<char> {
    t.skip(leading_of(t).len() as int)
}

proof fn line_is_lead_and_rest(t: Seq<char>)
    ensures
        t == leading_of(t) + behind_lead(t),
        indents(leading_of(t)),
        behind_lead(t).len() > 0 ==> !is_indent(behind_lead(t)[0]),
        leading_of(t).len() <= t.len(),
{
    lead_is(t, 0);
    assert(t =~= leading_of(t) + behind_lead(t));
    assert forall|j: int| 0 <= j < leading_of(t).len() implies is_indent(
        #[trigger] leading_of(t)[j],
    ) by {
        assert(is_indent(t[j]));
    }
}

proof fn lead_of_joined(lead: Seq<char>, rest: Seq<char>, i: int)
    requires
        indents(lead),
        rest.len() > 0 ==> !is_indent(rest[0]),
        0 <= i <= lead.len(),
    ensures
        indent_end(lead + rest, i) == lead.len(),
    decreases lead.len() - i,
{
    let t = lead + rest;
    if i < lead.len() {
        assert(t[i] == lead[i]);
        lead_of_joined(lead, rest, i + 1);
    } else if i < t.len() {
        assert(t[i] == rest[0]);
    }
}

/// A line was given other blanks, or left as it was. Lines that are content
/// are left.
spec fn line_relaid(a: Seq<char>, b: Seq<char>, ctx: Context, p: ProfileModel) -> bool {
    b == a || (!(ctx is Literal) && has_code_of(lex(a, 0, p, ctx).0) && exists|lead: Seq<char>|
        indents(lead) && b == #[trigger] (lead + behind_lead(a)))
}

proof fn relaid_line_means_the_same(a: Seq<char>, b: Seq<char>, ctx: Context, p: ProfileModel)
    requires
        line_relaid(a, b, ctx, p),
        marked_context(ctx),
    ensures
        delimiters_of(lex(a, 0, p, ctx).0) == delimiters_of(lex(b, 0, p, ctx).0),
        lex(a, 0, p, ctx).1 == lex(b, 0, p, ctx).1,
        a == b || behind_lead(a).len() > 0 ==> leading_closers_of(lex(a, 0, p, ctx).0)
            == leading_closers_of(lex(b, 0, p, ctx).0) && has_code_of(lex(a, 0, p, ctx).0)
            == has_code_of(lex(b, 0, p, ctx).0),
{
    if a != b {
        let lead = choose|lead: Seq<char>| indents(lead) && b == #[trigger] (lead + behind_lead(a));
        line_is_lead_and_rest(a);
        indentation_means_nothing(leading_of(a), lead, behind_lead(a), p, ctx);
    }
}

/// Every line of the second text is one of the first that was relaid, in the
/// context that it has in the first.
spec fn lines_relaid(t: Seq<char>, u: Seq<char>, p: ProfileModel) -> bool {
    forall|n: nat|
        line_relaid(line_content(t, n), #[trigger] line_content(u, n), state_at(t, p, n).0, p)
}

proof fn states_agree(t: Seq<char>, u: Seq<char>, p: ProfileModel, k: nat)
    requires
        lines_relaid(t, u, p),
        marked_profile(p),
    ensures
        state_at(u, p, k) == state_at(t, p, k),
        marked_context(state_at(t, p, k).0),
    decreases k,
{
    if k > 0 {
        let n = (k - 1) as nat;
        states_agree(t, u, p, n);
        let ctx = state_at(t, p, n).0;
        assert(line_relaid(line_content(t, n), line_content(u, n), ctx, p));
        relaid_line_means_the_same(line_content(t, n), line_content(u, n), ctx, p);
        lexing_keeps_marks(line_content(t, n), 0, p, ctx);
    }
}

/// A line that was given the indentation it is to have keeps it.
proof fn desired_stays(
    t: Seq<char>,
    u: Seq<char>,
    p: ProfileModel,
    o: IndentOptions,
    k: nat,
)
    requires
        lines_relaid(t, u, p),
        marked_profile(p),
        line_content(u, k) == desired_indent(t, p, o, k) + behind_lead(line_content(t, k)),
    ensures
        desired_indent(u, p, o, k) == leading_of(line_content(u, k)),
{
    let a = line_content(t, k);
    let b = line_content(u, k);
    let ctx = state_at(t, p, k).0;
    states_agree(t, u, p, k);
    assert(line_relaid(a, b, ctx, p));
    relaid_line_means_the_same(a, b, ctx, p);
    line_is_lead_and_rest(a);
    let desired = desired_indent(t, p, o, k);
    let classes = lex(a, 0, p, ctx).0;
    if !has_code_of(classes) || ctx is Literal {
        assert(b == a);
    } else {
        assert(indents(desired));
        lead_of_joined(desired, behind_lead(a), 0);
        assert(leading_of(b) =~= desired);
        if behind_lead(a).len() == 0 && a != b {
            assert(b =~= desired);
            assert(leading_of(b) =~= b);
            blanks_have_no_closers(a, p, ctx);
            blanks_have_no_closers(b, p, ctx);
        }
    }
}

/// A line of blanks has no closers.
proof fn blanks_have_no_closers(a: Seq<char>, p: ProfileModel, ctx: Context)
    requires
        indents(a),
        !(ctx is Literal),
        marked_context(ctx),
    ensures
        leading_closers_of(lex(a, 0, p, ctx).0) == 0,
{
    assert(a + Seq::<char>::empty() =~= a);
    match ctx {
        Context::Code => {
            crate::lexing_moves::leading_blanks(a, a.len() as int, 0, p);
            let none = lex(a, a.len() as int, p, ctx).0;
            crate::lexing_moves::blanks_mean_nothing(a.len() as int, none);
        },
        Context::Comment { start, end, depth } => {
            crate::lexing_moves::blanks_in_comments(a, a.len() as int, 0, start, end, depth);
            crate::lexing_moves::only_a_comment(a, p, start, end, depth);
        },
        Context::Literal { end } => {},
    }
}

/// The edit of one line of a plan.
proof fn planned_line(b: Buf, line: nat, leading: nat, new: Seq<char>)
    requires
        !b.read_only,
        line < raw_line_count(b.text),
        leading <= line_content(b.text, line).len(),
        forall|k: int| 0 <= k < new.len() ==> new[k] != '\n',
    ensures
        ({
            let u = with_planned(b, line, leading, new);
            &&& !u.read_only
            &&& u.path == b.path
            &&& raw_line_count(u.text) == raw_line_count(b.text)
            &&& line_content(u.text, line) == new + line_content(b.text, line).skip(leading as int)
            &&& forall|n: nat| n != line ==> #[trigger] line_content(u.text, n) == line_content(
                b.text,
                n,
            )
        }),
{
    let t = b.text;
    let from = line_start(t, line);
    line_start_is(t, line);
    let none = Seq::<char>::empty();
    line_alone_changes(t, line, leading as int, none);
    let b1 = if leading > 0 {
        b.without(offset_of(t, line, 0), offset_of(t, line, leading))
    } else {
        b
    };
    assert(b1.text =~= respliced(t, from, from + leading, none)) by {
        if leading > 0 {
            assert(removed(t, from, from + leading) =~= respliced(t, from, from + leading, none));
        } else {
            assert(t =~= respliced(t, from, from, none));
        }
    }
    let rest = line_content(t, line).skip(leading as int);
    assert(none + rest =~= rest);
    line_start_is(b1.text, line);
    line_alone_changes(b1.text, line, 0, new);
    assert(rest.skip(0) =~= rest);
    if new.len() > 0 {
        assert(inserted(b1.text, from, new) =~= respliced(b1.text, from, from, new));
    } else {
        assert(b1.text =~= respliced(b1.text, from, from, new));
    }
    let u = with_planned(b, line, leading, new);
    assert(u.text =~= respliced(b1.text, from, from, new));
}

/// The lines after the first `k` of a plan.
proof fn plan_lays_lines(b: Buf, plan: Seq<PlannedIndent>, start: int, end: int, o: IndentOptions, k: int)
    requires
        !b.read_only,
        0 <= start,
        is_plan(plan, b, start, end, o),
        0 <= k <= plan.len(),
    ensures
        ({
            let u = with_plan(b, plan, k);
            let p = profile_for(b.path);
            &&& !u.read_only
            &&& u.path == b.path
            &&& raw_line_count(u.text) == raw_line_count(b.text)
            &&& forall|n: nat|
                #[trigger] line_content(u.text, n) == if start <= n < start + k {
                    desired_indent(b.text, p, o, n) + behind_lead(line_content(b.text, n))
                } else {
                    line_content(b.text, n)
                }
        }),
    decreases k,
{
    let p = profile_for(b.path);
    if k > 0 {
        plan_lays_lines(b, plan, start, end, o, k - 1);
        let before = with_plan(b, plan, k - 1);
        let u = with_plan(b, plan, k);
        let planned = plan[k - 1];
        let line = (start + k - 1) as nat;
        assert(is_planned(planned, b.text, p, o, (start + (k - 1)) as nat));
        let a = line_content(b.text, line);
        let desired = desired_indent(b.text, p, o, line);
        line_is_lead_and_rest(a);
        assert(line_content(before.text, line) == a);
        assert(desired_has_no_breaks(desired)) by {
            assert(indents(desired));
        }
        match planned.replacement {
            Some(new) => {
                assert(new@ == desired);
                planned_line(before, line, planned.leading_chars as nat, new@);
            },
            None => {
                assert(desired == leading_of(a));
            },
        }
        assert forall|n: nat| #[trigger] line_content(u.text, n) == if start <= n < start + k {
            desired_indent(b.text, p, o, n) + behind_lead(line_content(b.text, n))
        } else {
            line_content(b.text, n)
        } by {
            assert(line_content(before.text, n) == if start <= n < start + (k - 1) {
                desired_indent(b.text, p, o, n) + behind_lead(line_content(b.text, n))
            } else {
                line_content(b.text, n)
            });
        }
    }
}

spec fn desired_has_no_breaks(t: Seq<char>) -> bool {
    forall|k: int| 0 <= k < t.len() ==> t[k] != '\n'
}

/// Lines that were given their structural indentation have it: giving it to
/// them again changes nothing.
pub proof fn reindenting_again_changes_nothing(
    b: Buf,
    plan: Seq<PlannedIndent>,
    again: Seq<PlannedIndent>,
    start: int,
    end: int,
    o: IndentOptions,
)
    requires
        !b.read_only,
        0 <= start,
        is_plan(plan, b, start, end, o),
        is_plan(again, with_plan(b, plan, plan.len() as int), start, end, o),
    ensures
        with_plan(
            with_plan(b, plan, plan.len() as int),
            again,
            again.len() as int,
        ) == with_plan(b, plan, plan.len() as int),
        forall|i: int| 0 <= i < again.len() ==> (#[trigger] again[i]).replacement is None,
{
    let u = with_plan(b, plan, plan.len() as int);
    let p = profile_for(b.path);
    plan_lays_lines(b, plan, start, end, o, plan.len() as int);
    profiles_are_marked(
        match b.path {
            Some(path) => crate::syntax::language_of(crate::syntax::extension_of(path)),
            None => None,
        },
    );
    assert(marked_profile(p));
    assert forall|n: nat| line_relaid(
        line_content(b.text, n),
        #[trigger] line_content(u.text, n),
        state_at(b.text, p, n).0,
        p,
    ) by {
        let a = line_content(b.text, n);
        if start <= n < start + plan.len() {
            line_is_lead_and_rest(a);
            let desired = desired_indent(b.text, p, o, n);
            if has_code_of(lex(a, 0, p, state_at(b.text, p, n).0).0) && !(state_at(b.text, p, n).0
                is Literal) {
                assert(indents(desired));
                assert(line_content(u.text, n) == desired + behind_lead(a));
            }
        }
    }
    assert(line_content(u.text, (raw_line_count(b.text) - 1) as nat) == if start
        <= raw_line_count(b.text) - 1 < start + plan.len() {
        desired_indent(b.text, p, o, (raw_line_count(b.text) - 1) as nat) + behind_lead(
            line_content(b.text, (raw_line_count(b.text) - 1) as nat),
        )
    } else {
        line_content(b.text, (raw_line_count(b.text) - 1) as nat)
    });
    counts_do_not_grow(b.text, u.text);
    assert forall|i: int| 0 <= i < again.len() implies (#[trigger] again[i]).replacement is None by {
        let n = (start + i) as nat;
        assert(is_planned(again[i], u.text, p, o, n));
        desired_stays(b.text, u.text, p, o, n);
        assert(opt_view(again[i].replacement) is None);
    }
    nothing_planned(u, again, again.len() as int);
}

/// A text that keeps its line feeds, and the empty stretch behind the last of
/// them, shows no more lines.
proof fn counts_do_not_grow(t: Seq<char>, u: Seq<char>)
    requires
        raw_line_count(u) == raw_line_count(t),
        t.len() > 0 && t.last() == '\n' ==> line_content(u, (raw_line_count(t) - 1) as nat)
            == line_content(t, (raw_line_count(t) - 1) as nat),
    ensures
        line_count(u) <= line_count(t),
{
    let n = (raw_line_count(t) - 1) as nat;
    line_start_is(t, n);
    line_start_is(u, n);
    line_break_is(t, line_start(t, n));
    line_break_is(u, line_start(u, n));
    if t.len() > 0 && t.last() == '\n' {
        if n == 0 {
            assert(breaks_from(t, 0) == 0);
            line_break_is(t, 0);
            assert(t[t.len() - 1] != '\n');
        }
        if line_start(t, n) < t.len() {
            assert(t[t.len() - 1] != '\n');
        }
        assert(line_content(t, n).len() == 0);
        assert(line_start(u, n) == u.len());
        assert(u[line_start(u, n) - 1] == '\n');
    }
}

proof fn nothing_planned(b: Buf, plan: Seq<PlannedIndent>, k: int)
    requires
        0 <= k <= plan.len(),
        forall|i: int| 0 <= i < plan.len() ==> (#[trigger] plan[i]).replacement is None,
    ensures
        with_plan(b, plan, k) == b,
    decreases k,
{
    if k > 0 {
        nothing_planned(b, plan, k - 1);
    }
}

/// Nothing but white space.
pub open spec fn blank_line(t: Seq<char>) -> bool {
    forall|i: int| 0 <= i < t.len() ==> is_blank(#[trigger] t[i])
}

proof fn blank_lines_have_no_code(t: Seq<char>, i: int, p: ProfileModel)
    requires
        blank_line(t),
        0 <= i <= t.len(),
    ensures
        !has_code_of(lex(t, i, p, Context::Code).0),
    decreases t.len() - i,
{
    if i < t.len() {
        assert(is_blank(t[i]));
        blank_lines_have_no_code(t, i + 1, p);
        let rest = lex(t, i + 1, p, Context::Code).0;
        let all = lex(t, i, p, Context::Code).0;
        assert(all == seq![Class::Blank] + rest);
        assert forall|k: int| 0 <= k < all.len() implies #[trigger] all[k] is Blank by {
            if k > 0 {
                assert(all[k] == rest[k - 1]);
            }
        }
    }
}

/// How many of `k` lines from `start` on have other leading blanks in the
/// second text.
pub open spec fn leads_changed(t: Seq<char>, u: Seq<char>, start: int, k: int) -> nat
    decreases k,
{
    if k <= 0 {
        0
    } else {
        let n = (start + k - 1) as nat;
        leads_changed(t, u, start, k - 1) + if leading_of(line_content(u, n)) != leading_of(
            line_content(t, n),
        ) {
            1nat
        } else {
            0nat
        }
    }
}

/// Line `n` of a text is content and not layout: it begins inside a literal,
/// or it is blank outside comments.
pub open spec fn is_content(t: Seq<char>, p: ProfileModel, n: nat) -> bool {
    match state_at(t, p, n).0 {
        Context::Code => blank_line(line_content(t, n)),
        Context::Comment { start, end, depth } => line_content(t, n).len() == 0,
        Context::Literal { end } => true,
    }
}

proof fn content_is_kept(t: Seq<char>, p: ProfileModel, o: IndentOptions, n: nat)
    requires
        is_content(t, p, n),
    ensures
        desired_indent(t, p, o, n) == leading_of(line_content(t, n)),
{
    if state_at(t, p, n).0 is Code {
        blank_lines_have_no_code(line_content(t, n), 0, p);
    }
}

/// A line that a plan lays has the leading blanks it is to have, and behind
/// them what it had.
proof fn laid_line(t: Seq<char>, u: Seq<char>, p: ProfileModel, o: IndentOptions, n: nat)
    requires
        line_content(u, n) == desired_indent(t, p, o, n) + behind_lead(line_content(t, n)),
    ensures
        leading_of(line_content(u, n)) == desired_indent(t, p, o, n),
        behind_lead(line_content(u, n)) == behind_lead(line_content(t, n)),
        is_content(t, p, n) ==> line_content(u, n) == line_content(t, n),
{
    let a = line_content(t, n);
    let b = line_content(u, n);
    let desired = desired_indent(t, p, o, n);
    line_is_lead_and_rest(a);
    assert(indents(desired));
    lead_of_joined(desired, behind_lead(a), 0);
    assert(leading_of(b) =~= desired);
    assert(behind_lead(b) =~= behind_lead(a));
    if is_content(t, p, n) {
        content_is_kept(t, p, o, n);
    }
}

proof fn changes_are_counted(
    b: Buf,
    plan: Seq<PlannedIndent>,
    u: Seq<char>,
    start: int,
    end: int,
    o: IndentOptions,
    k: int,
)
    requires
        0 <= start,
        0 <= k <= plan.len(),
        is_plan(plan, b, start, end, o),
        forall|n: nat|
            start <= n < start + plan.len() ==> leading_of(#[trigger] line_content(u, n))
                == desired_indent(b.text, profile_for(b.path), o, n),
    ensures
        planned_changes(plan, k) == leads_changed(b.text, u, start, k),
    decreases k,
{
    if k > 0 {
        changes_are_counted(b, plan, u, start, end, o, k - 1);
        let n = (start + k - 1) as nat;
        assert(is_planned(plan[k - 1], b.text, profile_for(b.path), o, (start + (k - 1)) as nat));
        assert(leading_of(line_content(u, n)) == desired_indent(
            b.text,
            profile_for(b.path),
            o,
            n,
        ));
        assert(plan[k - 1].replacement is Some == (opt_view(plan[k - 1].replacement) is Some));
    }
}

/// Giving lines their structural indentation changes nothing but the blanks
/// that lead them. The lines outside the range stay, and so do, inside it,
/// lines that are content and not layout; each other line has the indentation
/// that its place calls for, and behind it what it had. The number that comes
/// back is that of the lines whose leading blanks changed, and a second time it
/// is zero.
pub proof fn reindenting_changes_leading_blanks_alone(
    b: Buf,
    plan: Seq<PlannedIndent>,
    again: Seq<PlannedIndent>,
    start: int,
    end: int,
    o: IndentOptions,
)
    requires
        !b.read_only,
        0 <= start,
        is_plan(plan, b, start, end, o),
        is_plan(again, with_plan(b, plan, plan.len() as int), start, end, o),
    ensures
        ({
            let u = with_plan(b, plan, plan.len() as int).text;
            let p = profile_for(b.path);
            let last = least(end, line_count(b.text) as int);
            &&& raw_line_count(u) == raw_line_count(b.text)
            &&& forall|n: nat|
                if start <= n < last {
                    &&& leading_of(#[trigger] line_content(u, n)) == desired_indent(b.text, p, o, n)
                    &&& behind_lead(line_content(u, n)) == behind_lead(line_content(b.text, n))
                    &&& is_content(b.text, p, n) ==> line_content(u, n) == line_content(b.text, n)
                } else {
                    line_content(u, n) == line_content(b.text, n)
                }
            &&& planned_changes(plan, plan.len() as int) == leads_changed(
                b.text,
                u,
                start,
                last - start,
            )
            &&& planned_changes(again, again.len() as int) == 0
        }),
{
    let p = profile_for(b.path);
    let u = with_plan(b, plan, plan.len() as int).text;
    let last = least(end, line_count(b.text) as int);
    plan_lays_lines(b, plan, start, end, o, plan.len() as int);
    reindenting_again_changes_nothing(b, plan, again, start, end, o);
    nothing_counted(again, again.len() as int);
    assert forall|n: nat|
        if start <= n < last {
            &&& leading_of(#[trigger] line_content(u, n)) == desired_indent(b.text, p, o, n)
            &&& behind_lead(line_content(u, n)) == behind_lead(line_content(b.text, n))
            &&& is_content(b.text, p, n) ==> line_content(u, n) == line_content(b.text, n)
        } else {
            line_content(u, n) == line_content(b.text, n)
        } by {
        if start <= n < last {
            laid_line(b.text, u, p, o, n);
        }
    }
    changes_are_counted(b, plan, u, start, end, o, plan.len() as int);
}

proof fn nothing_counted(plan: Seq<PlannedIndent>, k: int)
    requires
        0 <= k <= plan.len(),
        forall|i: int| 0 <= i < plan.len() ==> (#[trigger] plan[i]).replacement is None,
    ensures
        planned_changes(plan, k) == 0,
    decreases k,
{
    if k > 0 {
        nothing_counted(plan, k - 1);
    }
}

/// Each line of a plan is the next of the range, and where the cursor is put
/// on it is where its text then starts.
pub proof fn the_cursor_goes_to_the_text(
    b: Buf,
    plan: Seq<PlannedIndent>,
    start: int,
    end: int,
    o: IndentOptions,
    i: int,
)
    requires
        !b.read_only,
        0 <= start,
        is_plan(plan, b, start, end, o),
        0 <= i < plan.len(),
    ensures
        plan[i].line == start + i,
        plan[i].cursor_col == leading_of(
            line_content(with_plan(b, plan, plan.len() as int).text, (start + i) as nat),
        ).len(),
        plan.len() == if start < least(end, line_count(b.text) as int) {
            least(end, line_count(b.text) as int) - start
        } else {
            0
        },
{
    let p = profile_for(b.path);
    let u = with_plan(b, plan, plan.len() as int).text;
    let n = (start + i) as nat;
    plan_lays_lines(b, plan, start, end, o, plan.len() as int);
    assert(is_planned(plan[i], b.text, p, o, n));
    assert(line_content(u, n) == desired_indent(b.text, p, o, n) + behind_lead(
        line_content(b.text, n),
    ));
    laid_line(b.text, u, p, o, n);
}

} // verus!
