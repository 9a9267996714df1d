//! What a user approves is what they read: every value of an input stands in
//! the summary.
use crate::ai::approval::{
    details, filled, indent_of, input_details, item_details, label_of, member_details, plain_text,
    rest_details, sections_of, shown_above,
};
use crate::diff_review::render::trimmed;
use crate::fmt::{digits, joined};
use crate::json::Js;
use crate::lines::{line_content, line_start, line_start_is, raw_line_count};
use vstd::prelude::*;

verus! {

/// A text stands somewhere in another.
pub open spec fn occurs(s: Seq<char>, x: Seq<char>) -> bool {
    exists|at: int| occurs_at(s, x, at)
}

pub open spec fn occurs_at(s: Seq<char>, x: Seq<char>, at: int) -> bool {
    0 <= at && at + x.len() <= s.len() && s.subrange(at, at + x.len()) == x
}

/// Lines stand among others, one behind the other.
pub open spec fn stands_among(all: Seq<Seq<char>>, lines: Seq<Seq<char>>) -> bool {
    exists|at: int| stands_at(all, lines, at)
}

pub open spec fn stands_at(all: Seq<Seq<char>>, lines: Seq<Seq<char>>, at: int) -> bool {
    0 <= at && at + lines.len() <= all.len() && all.subrange(at, at + lines.len()) == lines
}

/// The value that indices lead to, through the members of objects and the
/// items of lists.
pub open spec fn value_at(v: Js, path: Seq<int>) -> Option<Js>
    decreases path.len(),
{
    if path.len() == 0 {
        Some(v)
    } else {
        let i = path[0];
        match v {
            Js::Object(fields) => if 0 <= i < fields.len() {
                value_at(fields[i].1, path.drop_first())
            } else {
                None
            },
            Js::List(items) => if 0 <= i < items.len() {
                value_at(items[i], path.drop_first())
            } else {
                None
            },
            _ => None,
        }
    }
}

/// A value without parts.
pub open spec fn is_leaf(v: Js) -> bool {
    match v {
        Js::Object(fields) => fields.len() == 0,
        Js::List(items) => items.len() == 0,
        _ => true,
    }
}

/// What a reader is to see of a value without parts.
pub open spec fn leaf_text(v: Js) -> Seq<char> {
    match v {
        Js::Null => "Not supplied"@,
        Js::Bool(true) => "true"@,
        Js::Bool(false) => "false"@,
        Js::Number(n) => n,
        Js::Text(t) => t,
        _ => "Empty"@,
    }
}

/// A line of a text; the text itself where it has no line feed.
pub open spec fn line_of(t: Seq<char>, n: nat) -> Seq<char> {
    if t.contains('\n') {
        line_content(t, n)
    } else {
        t
    }
}

pub open spec fn lines_of(t: Seq<char>) -> nat {
    if t.contains('\n') {
        raw_line_count(t)
    } else {
        1
    }
}

proof fn occurs_between(a: Seq<char>, x: Seq<char>, b: Seq<char>)
    ensures
        occurs(a + x + b, x),
{
    let s = a + x + b;
    assert(s.subrange(a.len() as int, (a.len() + x.len()) as int) =~= x);
    assert(occurs_at(s, x, a.len() as int));
}

proof fn occurs_within(s: Seq<char>, y: Seq<char>, x: Seq<char>)
    requires
        occurs(s, y),
        occurs(y, x),
    ensures
        occurs(s, x),
{
    let at = choose|at: int| occurs_at(s, y, at);
    let within = choose|within: int| occurs_at(y, x, within);
    assert(s.subrange(at + within, at + within + x.len()) =~= x) by {
        assert(y.subrange(within, within + x.len()) =~= s.subrange(
            at + within,
            at + within + x.len(),
        ));
    }
    assert(occurs_at(s, x, at + within));
}

proof fn joined_holds(parts: Seq<Seq<char>>, k: int, sep: Seq<char>, i: int)
    requires
        0 <= i < k <= parts.len(),
    ensures
        occurs(joined(parts, k, sep), parts[i]),
    decreases k,
{
    let s = joined(parts, k, sep);
    let none = Seq::<char>::empty();
    if k == 1 {
        assert(none + parts[0] + none =~= s);
        occurs_between(none, parts[0], none);
    } else if i == k - 1 {
        let before = joined(parts, k - 1, sep) + sep;
        assert(before + parts[i] + none =~= s);
        occurs_between(before, parts[i], none);
    } else {
        let before = joined(parts, k - 1, sep);
        joined_holds(parts, k - 1, sep, i);
        assert(none + before + (sep + parts[k - 1]) =~= s);
        occurs_between(none, before, sep + parts[k - 1]);
        occurs_within(s, before, parts[i]);
    }
}

proof fn stands_behind(a: Seq<Seq<char>>, x: Seq<Seq<char>>, b: Seq<Seq<char>>)
    ensures
        stands_among(a + x + b, x),
{
    let all = a + x + b;
    assert(all.subrange(a.len() as int, (a.len() + x.len()) as int) =~= x);
    assert(stands_at(all, x, a.len() as int));
}

proof fn stands_within(all: Seq<Seq<char>>, y: Seq<Seq<char>>, x: Seq<Seq<char>>)
    requires
        stands_among(all, y),
        stands_among(y, x),
    ensures
        stands_among(all, x),
{
    let at = choose|at: int| stands_at(all, y, at);
    let within = choose|within: int| stands_at(y, x, within);
    assert(all.subrange(at + within, at + within + x.len()) =~= x) by {
        assert(y.subrange(within, within + x.len()) =~= all.subrange(
            at + within,
            at + within + x.len(),
        ));
    }
    assert(stands_at(all, x, at + within));
}

proof fn item_stands(v: Js, k: int, depth: nat, i: int)
    requires
        v matches Js::List(items) && 0 <= i < k <= items.len(),
    ensures
        stands_among(
            item_details(v, k, depth),
            details(digits((i + 1) as nat), v->List_0[i], depth),
        ),
    decreases k,
{
    let items = v->List_0;
    let before = item_details(v, k - 1, depth);
    let last = details(digits(k as nat), items[k - 1], depth);
    let none = Seq::<Seq<char>>::empty();
    if i == k - 1 {
        assert(before + last + none =~= item_details(v, k, depth));
        stands_behind(before, last, none);
    } else {
        item_stands(v, k - 1, depth, i);
        assert(none + before + last =~= item_details(v, k, depth));
        stands_behind(none, before, last);
        stands_within(
            item_details(v, k, depth),
            before,
            details(digits((i + 1) as nat), items[i], depth),
        );
    }
}

proof fn member_stands(v: Js, k: int, depth: nat, i: int)
    requires
        v matches Js::Object(fields) && 0 <= i < k <= fields.len(),
    ensures
        stands_among(
            member_details(v, k, depth),
            details(label_of(v->Object_0[i].0), v->Object_0[i].1, depth),
        ),
    decreases k,
{
    let fields = v->Object_0;
    let before = member_details(v, k - 1, depth);
    let last = details(label_of(fields[k - 1].0), fields[k - 1].1, depth);
    let none = Seq::<Seq<char>>::empty();
    if i == k - 1 {
        assert(before + last + none =~= member_details(v, k, depth));
        stands_behind(before, last, none);
    } else {
        member_stands(v, k - 1, depth, i);
        assert(none + before + last =~= member_details(v, k, depth));
        stands_behind(none, before, last);
        stands_within(
            member_details(v, k, depth),
            before,
            details(label_of(fields[i].0), fields[i].1, depth),
        );
    }
}

/// Every item of a list is shown: the lines that show item `i` under its
/// number, counted from one, stand among the lines that show the list, behind
/// the line of the list's label.
pub proof fn every_item_is_shown(label: Seq<char>, items: Seq<Js>, i: int, depth: nat)
    requires
        0 <= i < items.len(),
    ensures
        details(label, Js::List(items), depth)[0] == indent_of(depth) + label + ":"@,
        stands_among(
            details(label, Js::List(items), depth).skip(1),
            details(digits((i + 1) as nat), items[i], depth + 1),
        ),
{
    let v = Js::List(items);
    let all = details(label, v, depth);
    item_stands(v, items.len() as int, depth + 1, i);
    assert(all.skip(1) =~= item_details(v, items.len() as int, depth + 1));
}

/// Every member of an object is shown: the lines that show it under its key
/// stand among the lines that show the object, behind the line of the
/// object's label.
pub proof fn every_member_is_shown(
    label: Seq<char>,
    fields: Seq<(Seq<char>, Js)>,
    i: int,
    depth: nat,
)
    requires
        0 <= i < fields.len(),
    ensures
        details(label, Js::Object(fields), depth)[0] == indent_of(depth) + label + ":"@,
        stands_among(
            details(label, Js::Object(fields), depth).skip(1),
            details(label_of(fields[i].0), fields[i].1, depth + 1),
        ),
{
    let v = Js::Object(fields);
    let all = details(label, v, depth);
    member_stands(v, fields.len() as int, depth + 1, i);
    assert(all.skip(1) =~= member_details(v, fields.len() as int, depth + 1));
}

/// A key is shown with blanks for its underscores, and otherwise as it is.
pub proof fn labels_are_keys(key: Seq<char>)
    ensures
        label_of(key).len() == key.len(),
        forall|i: int|
            0 <= i < key.len() ==> #[trigger] label_of(key)[i] == if key[i] == '_' {
                ' '
            } else {
                key[i]
            },
{
}

/// A line of some lines holds a text.
pub open spec fn some_line_holds(lines: Seq<Seq<char>>, x: Seq<char>) -> bool {
    exists|j: int| 0 <= j < lines.len() && occurs(#[trigger] lines[j], x)
}

proof fn holds_among(all: Seq<Seq<char>>, part: Seq<Seq<char>>, x: Seq<char>)
    requires
        stands_among(all, part),
        some_line_holds(part, x),
    ensures
        some_line_holds(all, x),
{
    let at = choose|at: int| stands_at(all, part, at);
    let j = choose|j: int| 0 <= j < part.len() && occurs(#[trigger] part[j], x);
    assert(all.subrange(at, at + part.len())[j] == all[at + j]);
    assert(occurs(all[at + j], x));
}

proof fn leaf_is_shown(label: Seq<char>, v: Js, depth: nat, n: nat)
    requires
        is_leaf(v),
        n < lines_of(leaf_text(v)),
    ensures
        some_line_holds(details(label, v, depth), line_of(leaf_text(v), n)),
{
    let text = leaf_text(v);
    let all = details(label, v, depth);
    let none = Seq::<char>::empty();
    let x = line_of(text, n);
    assert(plain_text(v) == text);
    if text.contains('\n') {
        let before = indent_of(depth) + "  "@;
        assert(all[1 + n as int] == before + x);
        assert(before + x + none =~= before + x);
        occurs_between(before, x, none);
        assert(occurs(all[1 + n as int], x));
    } else {
        let before = indent_of(depth) + label + ": "@;
        assert(all[0] == before + text);
        assert(before + x + none =~= before + x);
        occurs_between(before, x, none);
        assert(occurs(all[0], x));
    }
}

/// Each line of each value without parts, however deep it lies in a value,
/// stands in the lines that show the value.
pub proof fn every_leaf_is_shown(label: Seq<char>, v: Js, depth: nat, path: Seq<int>, n: nat)
    requires
        value_at(v, path) matches Some(leaf) && is_leaf(leaf) && n < lines_of(leaf_text(leaf)),
    ensures
        some_line_holds(details(label, v, depth), line_of(leaf_text(value_at(v, path)->0), n)),
    decreases path.len(),
{
    let leaf = value_at(v, path)->0;
    let x = line_of(leaf_text(leaf), n);
    if path.len() == 0 {
        leaf_is_shown(label, v, depth, n);
    } else {
        let i = path[0];
        let all = details(label, v, depth);
        let none = Seq::<Seq<char>>::empty();
        match v {
            Js::Object(fields) => {
                let name = label_of(fields[i].0);
                every_leaf_is_shown(name, fields[i].1, depth + 1, path.drop_first(), n);
                every_member_is_shown(label, fields, i, depth);
                holds_among(all.skip(1), details(name, fields[i].1, depth + 1), x);
            },
            Js::List(items) => {
                let name = digits((i + 1) as nat);
                every_leaf_is_shown(name, items[i], depth + 1, path.drop_first(), n);
                every_item_is_shown(label, items, i, depth);
                holds_among(all.skip(1), details(name, items[i], depth + 1), x);
            },
            _ => {},
        }
        assert(seq![all[0]] + all.skip(1) + none =~= all);
        stands_behind(seq![all[0]], all.skip(1), none);
        holds_among(all, all.skip(1), x);
    }
}

proof fn rest_holds(input: Js, k: int, i: int)
    requires
        input matches Js::Object(fields) && 0 <= i < k <= fields.len(),
        !shown_above(input, input->Object_0[i].0),
    ensures
        stands_among(
            rest_details(input, k),
            details(label_of(input->Object_0[i].0), input->Object_0[i].1, 0),
        ),
    decreases k,
{
    let fields = input->Object_0;
    let before = rest_details(input, k - 1);
    let now = rest_details(input, k);
    let none = Seq::<Seq<char>>::empty();
    let lines = details(label_of(fields[i].0), fields[i].1, 0);
    if i == k - 1 {
        assert(before + lines + none =~= now);
        stands_behind(before, lines, none);
    } else {
        rest_holds(input, k - 1, i);
        let more = now.skip(before.len() as int);
        assert(none + before + more =~= now);
        stands_behind(none, before, more);
        stands_within(now, before, lines);
    }
}

/// The text of a section stands in the summary.
proof fn section_is_shown(sections: Seq<Seq<char>>, j: int, x: Seq<char>)
    requires
        0 <= j < sections.len(),
        occurs(sections[j], x),
    ensures
        occurs(joined(sections, sections.len() as int, "\n\n"@), x),
{
    joined_holds(sections, sections.len() as int, "\n\n"@, j);
    occurs_within(joined(sections, sections.len() as int, "\n\n"@), sections[j], x);
}

/// A text ends with another.
pub open spec fn ends_with(s: Seq<char>, x: Seq<char>) -> bool {
    s.len() >= x.len() && s.skip(s.len() - x.len()) == x
}

proof fn joined_starts_and_ends(parts: Seq<Seq<char>>, k: int, sep: Seq<char>)
    requires
        1 <= k <= parts.len(),
    ensures
        joined(parts, k, sep).len() >= parts[0].len(),
        joined(parts, k, sep).take(parts[0].len() as int) == parts[0],
        ends_with(joined(parts, k, sep), parts[k - 1]),
    decreases k,
{
    let s = joined(parts, k, sep);
    if k == 1 {
        assert(s.take(parts[0].len() as int) =~= parts[0]);
        assert(s.skip(0) =~= s);
    } else {
        joined_starts_and_ends(parts, k - 1, sep);
        let before = joined(parts, k - 1, sep);
        assert(s.take(parts[0].len() as int) =~= before.take(parts[0].len() as int));
        assert(s.skip(s.len() - parts[k - 1].len()) =~= parts[k - 1]);
    }
}

/// Every part of the summary: it starts with who asks for what, and ends with
/// what the approval is good for; the description, the whole command and the
/// reason stand in it, the reason unless it is the description again.
pub proof fn summaries_say_what_is_asked(
    agent: Seq<char>,
    name: Seq<char>,
    input: Js,
    reason: Seq<char>,
)
    ensures
        ({
            let sections = sections_of(agent, name, input, reason);
            let s = joined(sections, sections.len() as int, "\n\n"@);
            let head = agent + ": "@ + name;
            &&& s.len() >= head.len() && s.take(head.len() as int) == head
            &&& ends_with(s, "Approval applies to this invocation only."@)
            &&& (input.member("description"@) matches Some(Js::Text(t)) ==> trimmed(t).len() > 0
                ==> occurs(s, t))
            &&& (input.member("command"@) matches Some(Js::Text(t)) ==> trimmed(t).len() > 0
                ==> occurs(s, "Command:\n"@ + t))
            &&& trimmed(reason).len() > 0 ==> occurs(s, reason)
        }),
{
    let sections = sections_of(agent, name, input, reason);
    let n = sections.len() as int;
    let s = joined(sections, n, "\n\n"@);
    let none = Seq::<char>::empty();
    joined_starts_and_ends(sections, n, "\n\n"@);
    assert(sections[0] == agent + ": "@ + name);
    assert(sections[n - 1] == "Approval applies to this invocation only."@);
    let description = filled(input, "description"@);
    if let Some(d) = description {
        assert(sections[1] == d);
        joined_holds(sections, n, "\n\n"@, 1);
    }
    let at: int = if description is Some {
        2
    } else {
        1
    };
    let command = filled(input, "command"@);
    if let Some(c) = command {
        assert(sections[at] == "Command:\n"@ + c);
        joined_holds(sections, n, "\n\n"@, at);
    }
    if trimmed(reason).len() > 0 && description != Some(reason) {
        let j: int = if command is Some {
            at + 1
        } else {
            at
        };
        assert(sections[j] == "Reason: "@ + reason);
        assert("Reason: "@ + reason + none =~= sections[j]);
        occurs_between("Reason: "@, reason, none);
        section_is_shown(sections, j, reason);
    }
}

proof fn line_occurs(t: Seq<char>, n: nat)
    requires
        n < lines_of(t),
    ensures
        occurs(t, line_of(t, n)),
{
    if t.contains('\n') {
        line_start_is(t, n);
        assert(occurs_at(t, line_content(t, n), line_start(t, n)));
    } else {
        assert(t.subrange(0, t.len() as int) =~= t);
        assert(occurs_at(t, t, 0));
    }
}

/// Nothing is hidden from the user who approves: each line of each value
/// without parts, however deep it lies in the input, stands in the summary.
/// Of members with the same key, the first is meant.
pub proof fn every_value_is_in_the_summary(
    agent: Seq<char>,
    name: Seq<char>,
    input: Js,
    reason: Seq<char>,
    path: Seq<int>,
    n: nat,
)
    requires
        value_at(input, path) matches Some(leaf) && is_leaf(leaf) && n < lines_of(leaf_text(leaf)),
        input is Object ==> path.len() > 0 && input.member(input->Object_0[path[0]].0) == Some(
            input->Object_0[path[0]].1,
        ),
    ensures
        ({
            let sections = sections_of(agent, name, input, reason);
            let s = joined(sections, sections.len() as int, "\n\n"@);
            let x = line_of(leaf_text(value_at(input, path)->0), n);
            occurs(s, x)
        }),
{
    let sections = sections_of(agent, name, input, reason);
    let leaf = value_at(input, path)->0;
    let x = line_of(leaf_text(leaf), n);
    let lines = input_details(input);
    summaries_say_what_is_asked(agent, name, input, reason);
    match input {
        Js::Object(fields) => {
            let i = path[0];
            if shown_above(input, fields[i].0) {
                reveal_with_fuel(value_at, 2);
                assert(fields[i].1 is Text);
                assert(path.drop_first().len() == 0);
                assert(leaf == fields[i].1);
                let t = leaf_text(leaf);
                let none = Seq::<char>::empty();
                if fields[i].0 == "command"@ && filled(input, "command"@) is Some {
                    let s = joined(sections, sections.len() as int, "\n\n"@);
                    assert("Command:\n"@ + t + none =~= "Command:\n"@ + t);
                    occurs_between("Command:\n"@, t, none);
                    occurs_within(s, "Command:\n"@ + t, t);
                }
                line_occurs(t, n);
                occurs_within(joined(sections, sections.len() as int, "\n\n"@), t, x);
            } else {
                every_leaf_is_shown(label_of(fields[i].0), fields[i].1, 0, path.drop_first(), n);
                rest_holds(input, fields.len() as int, i);
                holds_among(lines, details(label_of(fields[i].0), fields[i].1, 0), x);
                details_are_in_the_summary(agent, name, input, reason, x);
            }
        },
        _ => {
            every_leaf_is_shown("Input"@, input, 0, path, n);
            details_are_in_the_summary(agent, name, input, reason, x);
        },
    }
}

proof fn details_are_in_the_summary(
    agent: Seq<char>,
    name: Seq<char>,
    input: Js,
    reason: Seq<char>,
    x: Seq<char>,
)
    requires
        some_line_holds(input_details(input), x),
    ensures
        ({
            let sections = sections_of(agent, name, input, reason);
            occurs(joined(sections, sections.len() as int, "\n\n"@), x)
        }),
{
    let sections = sections_of(agent, name, input, reason);
    let lines = input_details(input);
    let j = choose|j: int| 0 <= j < lines.len() && occurs(#[trigger] lines[j], x);
    let text = joined(lines, lines.len() as int, "\n"@);
    joined_holds(lines, lines.len() as int, "\n"@, j);
    occurs_within(text, lines[j], x);
    let last = sections.len() - 2;
    assert(sections[last] == text);
    section_is_shown(sections, last, x);
}

/// A text stands behind blanks, two for each level.
pub open spec fn stands_at_level(line: Seq<char>, depth: nat, text: Seq<char>) -> bool {
    &&& line.len() == 2 * depth + text.len()
    &&& forall|i: int| 0 <= i < 2 * depth ==> line[i] == ' '
    &&& line.skip(2 * depth as int) == text
}

proof fn level_is(depth: nat, text: Seq<char>)
    ensures
        stands_at_level(indent_of(depth) + text, depth, text),
{
    let line = indent_of(depth) + text;
    assert(line.skip(2 * depth as int) =~= text);
}

/// How a value without parts is shown under its label: behind it on one line,
/// two blanks in for each level; and where it has line feeds, line by line
/// below it, one level further in.
pub proof fn values_stand_under_their_labels(label: Seq<char>, v: Js, depth: nat, n: nat)
    requires
        is_leaf(v),
        n < lines_of(leaf_text(v)),
    ensures
        ({
            let text = leaf_text(v);
            let all = details(label, v, depth);
            if text.contains('\n') {
                &&& all.len() == 1 + raw_line_count(text)
                &&& stands_at_level(all[0], depth, label + ":"@)
                &&& stands_at_level(all[1 + n as int], depth + 1, line_content(text, n))
            } else {
                all.len() == 1 && stands_at_level(all[0], depth, label + ": "@ + text)
            }
        }),
{
    let text = leaf_text(v);
    let all = details(label, v, depth);
    assert(plain_text(v) == text);
    reveal_strlit("  ");
    if text.contains('\n') {
        level_is(depth, label + ":"@);
        assert(all[0] =~= indent_of(depth) + (label + ":"@));
        let x = line_content(text, n);
        level_is(depth + 1, x);
        assert(all[1 + n as int] =~= indent_of(depth + 1) + x);
    } else {
        level_is(depth, label + ": "@ + text);
        assert(all[0] =~= indent_of(depth) + (label + ": "@ + text));
    }
}

/// The parts of a summary stand in their order: who asks for what, what for,
/// the command, the reason, every other argument, and what the approval is
/// good for.
pub proof fn summaries_are_in_order(
    agent: Seq<char>,
    name: Seq<char>,
    input: Js,
    reason: Seq<char>,
    description: Seq<char>,
    command: Seq<char>,
)
    requires
        input.member("description"@) == Some(Js::Text(description)),
        input.member("command"@) == Some(Js::Text(command)),
        trimmed(description).len() > 0,
        trimmed(command).len() > 0,
        trimmed(reason).len() > 0,
        reason != description,
        input_details(input).len() > 0,
    ensures
        sections_of(agent, name, input, reason) == seq![
            agent + ": "@ + name,
            description,
            "Command:\n"@ + command,
            "Reason: "@ + reason,
            joined(input_details(input), input_details(input).len() as int, "\n"@),
            "Approval applies to this invocation only."@,
        ],
{
    assert(sections_of(agent, name, input, reason) =~= seq![
        agent + ": "@ + name,
        description,
        "Command:\n"@ + command,
        "Reason: "@ + reason,
        joined(input_details(input), input_details(input).len() as int, "\n"@),
        "Approval applies to this invocation only."@,
    ]);
}

/// A reason that is the description again, or is blank, is not repeated; a
/// blank description or command is no part of its own.
pub proof fn nothing_is_said_twice(agent: Seq<char>, name: Seq<char>, input: Js, reason: Seq<char>)
    requires
        input.member("command"@) is None,
        input_details(input).len() == 0,
    ensures
        input.member("description"@) == Some(Js::Text(reason)) && trimmed(reason).len() > 0
            ==> sections_of(agent, name, input, reason).len() == 3,
        input.member("description"@) is None && trimmed(reason).len() == 0 ==> sections_of(
            agent,
            name,
            input,
            reason,
        ).len() == 2,
{
}

} // verus!
