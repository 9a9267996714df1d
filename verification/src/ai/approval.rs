//! What a user reads before they approve a tool call.
use crate::diff_review::render::{trim_text, trimmed};
use crate::fmt::{decimal, digits, join, joined, repeated, split_breaks};
use crate::json::{field_is_smaller, item_is_smaller, Js, Json};
use crate::lines::{line_content, raw_line_count};
use crate::text::{chars_of, same_text};
use crate::unicode::views;
use vstd::prelude::*;

verus! {

/// A key as a label.
pub open spec fn label_of(key: Seq<char>) -> Seq<char> {
    key.map_values(
        |c: char|
            if c == '_' {
                ' '
            } else {
                c
            },
    )
}

pub open spec fn indent_of(depth: nat) -> Seq<char> {
    repeated(' ', 2 * depth as int)
}

/// A value that has no parts, as a text.
pub open spec fn plain_text(v: Js) -> Seq<char> {
    match v {
        Js::Text(t) => t,
        Js::Null => "Not supplied"@,
        Js::Object(_) | Js::List(_) => "Empty"@,
        Js::Bool(b) => if b {
            "true"@
        } else {
            "false"@
        },
        Js::Number(n) => n,
    }
}

/// The lines that show a value under a label.
pub open spec fn details(label: Seq<char>, v: Js, depth: nat) -> Seq<Seq<char>>
    decreases v, 1int, 0int,
{
    let head = seq![indent_of(depth) + label + ":"@];
    match v {
        Js::Object(fields) if fields.len() > 0 => head + member_details(
            v,
            fields.len() as int,
            depth + 1,
        ),
        Js::List(items) if items.len() > 0 => head + item_details(
            v,
            items.len() as int,
            depth + 1,
        ),
        _ => {
            let text = plain_text(v);
            if text.contains('\n') {
                head + Seq::new(
                    raw_line_count(text),
                    |n: int| indent_of(depth) + "  "@ + line_content(text, n as nat),
                )
            } else {
                seq![indent_of(depth) + label + ": "@ + text]
            }
        },
    }
}

/// The lines that show the first `k` members of an object.
pub open spec fn member_details(v: Js, k: int, depth: nat) -> Seq<Seq<char>>
    decreases v, 0int, k,
{
    match v {
        Js::Object(fields) => if k <= 0 || k > fields.len() {
            Seq::empty()
        } else {
            member_details(v, k - 1, depth) + details(
                label_of(fields[k - 1].0),
                fields[k - 1].1,
                depth,
            )
        },
        _ => Seq::empty(),
    }
}

/// The lines that show the first `k` items of a list.
pub open spec fn item_details(v: Js, k: int, depth: nat) -> Seq<Seq<char>>
    decreases v, 0int, k,
{
    match v {
        Js::List(items) => if k <= 0 || k > items.len() {
            Seq::empty()
        } else {
            item_details(v, k - 1, depth) + details(digits(k as nat), items[k - 1], depth)
        },
        _ => Seq::empty(),
    }
}

/// A text with something in it, under a key.
pub open spec fn filled(input: Js, key: Seq<char>) -> Option<Seq<char>> {
    match input.member(key) {
        Some(Js::Text(t)) if trimmed(t).len() > 0 => Some(t),
        _ => None,
    }
}

/// The member is shown above the details.
pub open spec fn shown_above(input: Js, key: Seq<char>) -> bool {
    (key == "description"@ && filled(input, "description"@) is Some) || (key == "command"@
        && filled(input, "command"@) is Some)
}

/// The lines that show the first `k` members that are not shown above.
pub open spec fn rest_details(input: Js, k: int) -> Seq<Seq<char>>
    decreases k,
{
    match input {
        Js::Object(fields) => if k <= 0 || k > fields.len() {
            Seq::empty()
        } else {
            let before = rest_details(input, k - 1);
            if shown_above(input, fields[k - 1].0) {
                before
            } else {
                before + details(label_of(fields[k - 1].0), fields[k - 1].1, 0)
            }
        },
        _ => Seq::empty(),
    }
}

/// The lines that show what is not shown above.
pub open spec fn input_details(input: Js) -> Seq<Seq<char>> {
    match input {
        Js::Object(fields) => rest_details(input, fields.len() as int),
        _ => details("Input"@, input, 0),
    }
}

/// The sections of the summary.
pub open spec fn sections_of(agent: Seq<char>, name: Seq<char>, input: Js, reason: Seq<char>) -> Seq<Seq<char>> {
    let s = seq![agent + ": "@ + name];
    let description = filled(input, "description"@);
    let s = match description {
        Some(d) => s.push(d),
        None => s,
    };
    let s = match filled(input, "command"@) {
        Some(c) => s.push("Command:\n"@ + c),
        None => s,
    };
    let s = if trimmed(reason).len() > 0 && description != Some(reason) {
        s.push("Reason: "@ + reason)
    } else {
        s
    };
    let lines = input_details(input);
    let s = if lines.len() > 0 {
        s.push(joined(lines, lines.len() as int, "\n"@))
    } else {
        s
    };
    s.push("Approval applies to this invocation only."@)
}

fn to_label(key: &str) -> (s: String)
    ensures
        s@ == label_of(key@),
{
    let cs = chars_of(key);
    let mut s = String::new();
    let mut k: usize = 0;
    while k < cs.len()
        invariant
            k <= cs.len(),
            cs@ == key@,
            s@ == label_of(key@).take(k as int),
        decreases cs.len() - k,
    {
        s.push(
            if cs[k] == '_' {
                ' '
            } else {
                cs[k]
            },
        );
        k += 1;
        proof {
            assert(s@ =~= label_of(key@).take(k as int));
        }
    }
    proof {
        assert(label_of(key@).take(k as int) =~= label_of(key@));
    }
    s
}

fn has_break(text: &str) -> (res: bool)
    ensures
        res == text@.contains('\n'),
{
    let cs = chars_of(text);
    let mut k: usize = 0;
    while k < cs.len()
        invariant
            k <= cs.len(),
            cs@ == text@,
            forall|i: int| 0 <= i < k ==> cs@[i] != '\n',
        decreases cs.len() - k,
    {
        if cs[k] == '\n' {
            proof {
                assert(text@[k as int] == '\n');
            }
            return true;
        }
        k += 1;
    }
    false
}

fn deeper(indent: &str, Ghost(depth): Ghost<nat>) -> (s: String)
    requires
        indent@ == indent_of(depth),
    ensures
        s@ == indent_of(depth + 1),
{
    let mut s = indent.to_owned();
    s.append("  ");
    proof {
        reveal_strlit("  ");
        assert(s@ =~= indent_of(depth + 1));
    }
    s
}

fn push_line(lines: &mut Vec<String>, line: String)
    ensures
        views(final(lines)@) == views(old(lines)@).push(line@),
{
    let ghost before = views(lines@);
    lines.push(line);
    proof {
        assert(views(lines@) =~= before.push(line@));
    }
}

fn push_head(lines: &mut Vec<String>, indent: &str, label: &str)
    ensures
        views(final(lines)@) == views(old(lines)@).push(indent@ + label@ + ":"@),
{
    let mut head = indent.to_owned();
    head.append(label);
    head.append(":");
    push_line(lines, head);
}

fn append_plain(lines: &mut Vec<String>, label: &str, text: &str, indent: &str)
    ensures
        views(final(lines)@) == views(old(lines)@) + if text@.contains('\n') {
            seq![indent@ + label@ + ":"@] + Seq::new(
                raw_line_count(text@),
                |n: int| indent@ + "  "@ + line_content(text@, n as nat),
            )
        } else {
            seq![indent@ + label@ + ": "@ + text@]
        },
{
    let ghost before = views(lines@);
    if has_break(text) {
        push_head(lines, indent, label);
        let parts = split_breaks(text);
        let ghost all = Seq::new(
            raw_line_count(text@),
            |n: int| indent@ + "  "@ + line_content(text@, n as nat),
        );
        let ghost head = before.push(indent@ + label@ + ":"@);
        let mut k: usize = 0;
        proof {
            assert(views(lines@) =~= head + all.take(0));
        }
        while k < parts.len()
            invariant
                k <= parts.len() == all.len(),
                all == Seq::new(
                    raw_line_count(text@),
                    |n: int| indent@ + "  "@ + line_content(text@, n as nat),
                ),
                forall|n: int|
                    0 <= n < parts.len() ==> (#[trigger] parts@[n])@ == line_content(
                        text@,
                        n as nat,
                    ),
                views(lines@) == head + all.take(k as int),
            decreases parts.len() - k,
        {
            let mut line = indent.to_owned();
            line.append("  ");
            line.append(parts[k].as_str());
            push_line(lines, line);
            k += 1;
            proof {
                assert(views(lines@) =~= head + all.take(k as int));
            }
        }
        proof {
            assert(all.take(k as int) =~= all);
            assert(views(lines@) =~= before + (seq![indent@ + label@ + ":"@] + all));
        }
    } else {
        let mut line = indent.to_owned();
        line.append(label);
        line.append(": ");
        line.append(text);
        push_line(lines, line);
        proof {
            assert(views(lines@) =~= before + seq![indent@ + label@ + ": "@ + text@]);
        }
    }
}

/// Adds the lines that show a value under a label.
fn append_detail(
    lines: &mut Vec<String>,
    label: &str,
    value: &Json,
    indent: &str,
    Ghost(depth): Ghost<nat>,
)
    requires
        indent@ == indent_of(depth),
    ensures
        views(final(lines)@) == views(old(lines)@) + details(label@, value.model(), depth),
    decreases *value,
{
    let ghost before = views(lines@);
    let ghost model = value.model();
    match value {
        Json::Object(fields) => {
            if fields.len() == 0 {
                append_plain(lines, label, "Empty", indent);
                proof {
                    assert(model->Object_0.len() == 0);
                    reveal_strlit("Empty");
                }
                return;
            }
            push_head(lines, indent, label);
            let ghost head = views(lines@);
            let inner = deeper(indent, Ghost(depth));
            let mut k: usize = 0;
            proof {
                assert(head + member_details(model, 0, depth + 1) =~= head);
            }
            while k < fields.len()
                invariant
                    k <= fields.len(),
                    *value == Json::Object(*fields),
                    model == value.model(),
                    inner@ == indent_of(depth + 1),
                    views(lines@) == head + member_details(model, k as int, depth + 1),
                decreases fields.len() - k,
            {
                let field = &fields[k];
                let name = to_label(field.0.as_str());
                let ghost now = views(lines@);
                proof {
                    field_is_smaller(*value, k as int);
                    assert(model->Object_0[k as int] == (field.0@, field.1.model()));
                }
                append_detail(lines, name.as_str(), &field.1, inner.as_str(), Ghost(depth + 1));
                k += 1;
                proof {
                    assert(views(lines@) =~= head + member_details(model, k as int, depth + 1));
                }
            }
            proof {
                assert(model->Object_0.len() == fields.len());
                assert(views(lines@) =~= before + details(label@, model, depth));
            }
        },
        Json::List(items) => {
            if items.len() == 0 {
                append_plain(lines, label, "Empty", indent);
                proof {
                    assert(model->List_0.len() == 0);
                    reveal_strlit("Empty");
                }
                return;
            }
            push_head(lines, indent, label);
            let ghost head = views(lines@);
            let inner = deeper(indent, Ghost(depth));
            let mut k: usize = 0;
            proof {
                assert(head + item_details(model, 0, depth + 1) =~= head);
            }
            while k < items.len()
                invariant
                    k <= items.len(),
                    *value == Json::List(*items),
                    model == value.model(),
                    inner@ == indent_of(depth + 1),
                    views(lines@) == head + item_details(model, k as int, depth + 1),
                decreases items.len() - k,
            {
                let item = &items[k];
                let name = decimal(k as u64 + 1);
                proof {
                    item_is_smaller(*value, k as int);
                    assert(model->List_0[k as int] == item.model());
                }
                append_detail(lines, name.as_str(), item, inner.as_str(), Ghost(depth + 1));
                k += 1;
                proof {
                    assert(views(lines@) =~= head + item_details(model, k as int, depth + 1));
                }
            }
            proof {
                assert(model->List_0.len() == items.len());
                assert(views(lines@) =~= before + details(label@, model, depth));
            }
        },
        Json::Text(t) => append_plain(lines, label, t.as_str(), indent),
        Json::Null => append_plain(lines, label, "Not supplied", indent),
        Json::Bool(b) => append_plain(
            lines,
            label,
            if *b {
                "true"
            } else {
                "false"
            },
            indent,
        ),
        Json::Number(n) => append_plain(lines, label, n.as_str(), indent),
    }
}

fn filled_text<'a>(input: &'a Json, key: &str) -> (res: Option<&'a str>)
    ensures
        match (res, filled(input.model(), key@)) {
            (Some(s), Some(t)) => s@ == t,
            (None, None) => true,
            _ => false,
        },
{
    match input.get(key) {
        Some(v) => match v.as_text() {
            Some(t) => {
                let s = trim_text(t);
                if s.as_str().unicode_len() > 0 {
                    Some(t)
                } else {
                    None
                }
            },
            None => None,
        },
        None => None,
    }
}

/// What a user reads before they approve a tool call of an agent: what it is
/// for, its command, why it needs approval, and every other argument.
pub fn permission_summary(agent: &str, name: &str, input: &Json, reason: &str) -> (s: String)
    ensures
        ({
            let sections = sections_of(agent@, name@, input.model(), reason@);
            s@ == joined(sections, sections.len() as int, "\n\n"@)
        }),
{
    let ghost model = input.model();
    let description = filled_text(input, "description");
    let command = filled_text(input, "command");
    let mut sections: Vec<String> = Vec::new();
    let mut first = agent.to_owned();
    first.append(": ");
    first.append(name);
    push_line(&mut sections, first);
    proof {
        assert(views(sections@) =~= seq![agent@ + ": "@ + name@]);
    }
    if let Some(d) = description {
        push_line(&mut sections, d.to_owned());
    }
    if let Some(c) = command {
        let mut line = "Command:\n".to_owned();
        line.append(c);
        push_line(&mut sections, line);
    }
    let same = match description {
        Some(d) => same_text(d, reason),
        None => false,
    };
    if trim_text(reason).as_str().unicode_len() > 0 && !same {
        let mut line = "Reason: ".to_owned();
        line.append(reason);
        push_line(&mut sections, line);
    }
    let lines = rest_of_input(input, description.is_some(), command.is_some());
    if lines.len() > 0 {
        push_line(&mut sections, join(&lines, "\n"));
    }
    push_line(&mut sections, "Approval applies to this invocation only.".to_owned());
    join(&sections, "\n\n")
}

fn rest_of_input(input: &Json, description: bool, command: bool) -> (lines: Vec<String>)
    requires
        description == (filled(input.model(), "description"@) is Some),
        command == (filled(input.model(), "command"@) is Some),
    ensures
        views(lines@) == input_details(input.model()),
        lines.len() == input_details(input.model()).len(),
{
    let ghost model = input.model();
    let mut lines: Vec<String> = Vec::new();
    proof {
        assert(views(lines@) =~= Seq::empty());
        assert(repeated(' ', 0) =~= Seq::empty());
        reveal_strlit("");
        assert(""@ =~= indent_of(0));
    }
    match input {
        Json::Object(fields) => {
            let mut k: usize = 0;
            while k < fields.len()
                invariant
                    k <= fields.len(),
                    *input == Json::Object(*fields),
                    model == input.model(),
                    ""@ == indent_of(0),
                    description == (filled(model, "description"@) is Some),
                    command == (filled(model, "command"@) is Some),
                    views(lines@) == rest_details(model, k as int),
                decreases fields.len() - k,
            {
                let field = &fields[k];
                proof {
                    assert(model->Object_0[k as int] == (field.0@, field.1.model()));
                }
                let above = (same_text(field.0.as_str(), "description") && description) || (
                same_text(field.0.as_str(), "command") && command);
                if !above {
                    let name = to_label(field.0.as_str());
                    append_detail(&mut lines, name.as_str(), &field.1, "", Ghost(0));
                }
                k += 1;
            }
            proof {
                assert(model->Object_0.len() == fields.len());
            }
        },
        _ => {
            append_detail(&mut lines, "Input", input, "", Ghost(0));
            proof {
                assert(Seq::<Seq<char>>::empty() + details("Input"@, model, 0) =~= details(
                    "Input"@,
                    model,
                    0,
                ));
            }
        },
    }
    proof {
        assert(views(lines@).len() == lines.len());
    }
    lines
}

/// Nothing of what is to be approved is hidden: a member that is not shown
/// above has all of its lines among the details.
pub proof fn every_argument_is_shown(input: Js, i: int, k: int)
    requires
        input matches Js::Object(fields) && 0 <= i < k <= fields.len(),
        !shown_above(input, input->Object_0[i].0),
    ensures
        exists|at: int|
            0 <= at && at + details(
                label_of(input->Object_0[i].0),
                input->Object_0[i].1,
                0,
            ).len() <= rest_details(input, k).len() && #[trigger] rest_details(input, k).subrange(
                at,
                at + details(label_of(input->Object_0[i].0), input->Object_0[i].1, 0).len(),
            ) == details(label_of(input->Object_0[i].0), input->Object_0[i].1, 0),
    decreases k,
{
    let fields = input->Object_0;
    let lines = details(label_of(fields[i].0), fields[i].1, 0);
    let before = rest_details(input, k - 1);
    let now = rest_details(input, k);
    if i == k - 1 {
        let at = before.len() as int;
        assert(now.subrange(at, at + lines.len()) =~= lines);
    } else {
        every_argument_is_shown(input, i, k - 1);
        let at = choose|at: int|
            0 <= at && at + lines.len() <= before.len() && #[trigger] before.subrange(
                at,
                at + lines.len(),
            ) == lines;
        assert(now.subrange(at, at + lines.len()) =~= before.subrange(at, at + lines.len()));
    }
}

} // verus!
