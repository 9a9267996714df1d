//! What an agent's tools are called with. An input is read as the schema of its
//! tool describes it; one that is not so described is refused, with the name
//! of the member that is wrong.
use crate::ai::custom_diff::{ReadDiffArgs, SectionSides, ShowCustomDiffArgs};
use crate::ai::diff_pages::{page_limit, MAX_PAGE_SIZE};
use crate::fmt::{copy_option, opt_view};
use crate::json::{Js, Json};
use crate::text::{chars_of, same_text};
use vstd::prelude::*;

verus! {

/// How many characters a cursor has at most.
pub const MAX_CURSOR_LENGTH: usize = 512;

/// How many characters a title or a label has at most.
pub const MAX_TITLE_LENGTH: usize = 200;

/// How many sections a rearranged review has at most.
pub const MAX_SECTIONS: usize = 1000;

/// Lines of a block of a comparison.
#[derive(Debug)]
pub struct BlockReference {
    pub block_id: String,
    /// The first line, counted from zero
    pub offset: Option<usize>,
    /// How many lines
    pub count: Option<usize>,
}

/// A section of a rearranged review.
#[derive(Debug)]
pub struct DiffPairing {
    pub label: Option<String>,
    /// Removed lines
    pub old: Option<BlockReference>,
    /// Added lines
    pub new: Option<BlockReference>,
    /// Lines of another section that explain this one
    pub related_to: Option<BlockReference>,
}

/// A request for a rearranged review.
#[derive(Debug)]
pub struct ShowCustomDiffInput {
    pub snapshot_id: String,
    pub title: String,
    pub pairings: Vec<DiffPairing>,
}

pub ghost struct Reference {
    pub id: Seq<char>,
    pub offset: Option<usize>,
    pub count: Option<usize>,
}

pub ghost struct Pairing {
    pub label: Option<Seq<char>>,
    pub old: Option<Reference>,
    pub new: Option<Reference>,
    pub related_to: Option<Reference>,
}

impl BlockReference {
    pub open spec fn model(self) -> Reference {
        Reference { id: self.block_id@, offset: self.offset, count: self.count }
    }
}

pub open spec fn reference_model(r: Option<BlockReference>) -> Option<Reference> {
    match r {
        Some(r) => Some(r.model()),
        None => None,
    }
}

impl DiffPairing {
    pub open spec fn model(self) -> Pairing {
        Pairing {
            label: opt_view(self.label),
            old: reference_model(self.old),
            new: reference_model(self.new),
            related_to: reference_model(self.related_to),
        }
    }
}

pub open spec fn pairing_models(list: Seq<DiffPairing>) -> Seq<Pairing> {
    list.map_values(|p: DiffPairing| p.model())
}

/// One of four names.
pub open spec fn is_one_of(
    key: Seq<char>,
    names: (Seq<char>, Seq<char>, Seq<char>, Seq<char>),
) -> bool {
    key == names.0 || key == names.1 || key == names.2 || key == names.3
}

/// The first member, from the `k`th on, that has none of four names.
pub open spec fn unknown_member(
    fields: Seq<(Seq<char>, Js)>,
    names: (Seq<char>, Seq<char>, Seq<char>, Seq<char>),
    k: int,
) -> Option<Seq<char>>
    decreases fields.len() - k,
{
    if k < 0 || k >= fields.len() {
        None
    } else if !is_one_of(fields[k].0, names) {
        Some(fields[k].0)
    } else {
        unknown_member(fields, names, k + 1)
    }
}

/// A text of some length.
pub open spec fn text_within(v: Js, least: int, most: int) -> Option<Seq<char>> {
    match v {
        Js::Text(t) => if least <= t.len() <= most {
            Some(t)
        } else {
            None
        },
        _ => None,
    }
}

/// The number that the first `k` characters write in decimal digits.
pub open spec fn decimal_value(t: Seq<char>, k: int) -> Option<nat>
    decreases k,
{
    if k <= 0 || k > t.len() {
        Some(0)
    } else {
        match decimal_value(t, k - 1) {
            Some(n) => if '0' <= t[k - 1] <= '9' {
                Some((10 * n + (t[k - 1] as int - '0' as int)) as nat)
            } else {
                None
            },
            None => None,
        }
    }
}

/// A whole number between two, as far as one can be counted.
pub open spec fn count_within(v: Js, least: int, most: int) -> Option<usize> {
    match v {
        Js::Number(t) => match decimal_value(t, t.len() as int) {
            Some(n) => if t.len() > 0 && least <= n <= most && n <= usize::MAX {
                Some(n as usize)
            } else {
                None
            },
            None => None,
        },
        _ => None,
    }
}

/// A member that may be missing, but is a text of some length where it is
/// there.
pub open spec fn text_member(v: Js, key: Seq<char>, least: int, most: int) -> Option<
    Option<Seq<char>>,
> {
    match v.member(key) {
        None => Some(None),
        Some(m) => match text_within(m, least, most) {
            Some(t) => Some(Some(t)),
            None => None,
        },
    }
}

/// A member that may be missing, but is a whole number between two where it is
/// there.
pub open spec fn count_member(v: Js, key: Seq<char>, least: int, most: int) -> Option<
    Option<usize>,
> {
    match v.member(key) {
        None => Some(None),
        Some(m) => match count_within(m, least, most) {
            Some(n) => Some(Some(n)),
            None => None,
        },
    }
}

/// What a request for a page holds, or the member that is wrong.
pub open spec fn read_diff_input(v: Js) -> Result<
    (Option<Seq<char>>, Option<usize>, Option<Seq<char>>),
    Seq<char>,
> {
    let names = ("snapshot_id"@, "limit"@, "cursor"@, "cursor"@);
    if !(v is Object) {
        Err("object"@)
    } else if unknown_member(v->Object_0, names, 0) is Some {
        Err(unknown_member(v->Object_0, names, 0)->0)
    } else {
        match (
            text_member(v, "snapshot_id"@, 1, usize::MAX as int),
            count_member(v, "limit"@, 1, MAX_PAGE_SIZE as int),
            text_member(v, "cursor"@, 1, MAX_CURSOR_LENGTH as int),
        ) {
            (None, _, _) => Err("snapshot_id"@),
            (_, None, _) => Err("limit"@),
            (_, _, None) => Err("cursor"@),
            (Some(id), Some(limit), Some(cursor)) => Ok((id, limit, cursor)),
        }
    }
}

/// Lines of a block, if a value names some.
pub open spec fn reference_of(v: Js) -> Option<Reference> {
    let names = ("block_id"@, "offset"@, "count"@, "count"@);
    if !(v is Object) || unknown_member(v->Object_0, names, 0) is Some {
        None
    } else {
        match (
            text_member(v, "block_id"@, 1, usize::MAX as int),
            count_member(v, "offset"@, 0, usize::MAX as int),
            count_member(v, "count"@, 1, usize::MAX as int),
        ) {
            (Some(Some(id)), Some(offset), Some(count)) => Some(Reference { id, offset, count }),
            _ => None,
        }
    }
}

/// A member that may be missing, but names lines of a block where it is there.
pub open spec fn reference_member(v: Js, key: Seq<char>) -> Option<Option<Reference>> {
    match v.member(key) {
        None => Some(None),
        Some(m) => match reference_of(m) {
            Some(r) => Some(Some(r)),
            None => None,
        },
    }
}

/// A section, if a value is one: it takes removed lines, added lines or both.
pub open spec fn pairing_of(v: Js) -> Option<Pairing> {
    let names = ("label"@, "old"@, "new"@, "related_to"@);
    if !(v is Object) || unknown_member(v->Object_0, names, 0) is Some {
        None
    } else {
        match (
            text_member(v, "label"@, 0, MAX_TITLE_LENGTH as int),
            reference_member(v, "old"@),
            reference_member(v, "new"@),
            reference_member(v, "related_to"@),
        ) {
            (Some(label), Some(old), Some(new), Some(related_to)) => if old is Some || new is Some {
                Some(Pairing { label, old, new, related_to })
            } else {
                None
            },
            _ => None,
        }
    }
}

/// The first `k` sections, if they all are sections.
pub open spec fn pairings_to(items: Seq<Js>, k: int) -> Option<Seq<Pairing>>
    decreases k,
{
    if k <= 0 || k > items.len() {
        Some(Seq::empty())
    } else {
        match (pairings_to(items, k - 1), pairing_of(items[k - 1])) {
            (Some(list), Some(p)) => Some(list.push(p)),
            _ => None,
        }
    }
}

pub open spec fn pairings_of(v: Option<Js>) -> Option<Seq<Pairing>> {
    match v {
        Some(Js::List(items)) => if items.len() <= MAX_SECTIONS {
            pairings_to(items, items.len() as int)
        } else {
            None
        },
        _ => None,
    }
}

/// What a request for a rearranged review holds, or the member that is wrong.
pub open spec fn show_custom_diff_input(v: Js) -> Result<
    (Seq<char>, Seq<char>, Seq<Pairing>),
    Seq<char>,
> {
    let names = ("snapshot_id"@, "title"@, "pairings"@, "pairings"@);
    if !(v is Object) {
        Err("object"@)
    } else if unknown_member(v->Object_0, names, 0) is Some {
        Err(unknown_member(v->Object_0, names, 0)->0)
    } else {
        match (
            text_member(v, "snapshot_id"@, 1, usize::MAX as int),
            text_member(v, "title"@, 1, MAX_TITLE_LENGTH as int),
            pairings_of(v.member("pairings"@)),
        ) {
            (Some(Some(id)), Some(Some(title)), Some(pairings)) => Ok((id, title, pairings)),
            (Some(Some(_)), Some(Some(_)), None) => Err("pairings"@),
            (Some(Some(_)), _, _) => Err("title"@),
            _ => Err("snapshot_id"@),
        }
    }
}

/// The first member of an object that has none of four names.
fn find_unknown(v: &Json, a: &str, b: &str, c: &str, d: &str) -> (res: Option<String>)
    requires
        v is Object,
    ensures
        opt_view(res) == unknown_member(v.model()->Object_0, (a@, b@, c@, d@), 0),
{
    if let Json::Object(fields) = v {
        let ghost all = v.model()->Object_0;
        let ghost names = (a@, b@, c@, d@);
        let mut k: usize = 0;
        while k < fields.len()
            invariant
                k <= fields.len(),
                *v == Json::Object(*fields),
                all == v.model()->Object_0,
                names == (a@, b@, c@, d@),
                unknown_member(all, names, k as int) == unknown_member(all, names, 0),
            decreases fields.len() - k,
        {
            let key = fields[k].0.as_str();
            proof {
                assert(all[k as int].0 == key@);
            }
            if !(same_text(key, a) || same_text(key, b) || same_text(key, c) || same_text(key, d)) {
                return Some(key.to_owned());
            }
            k += 1;
        }
    }
    None
}

fn find_text(v: &Json, key: &str, least: usize, most: usize) -> (res: Option<Option<String>>)
    ensures
        match (res, text_member(v.model(), key@, least as int, most as int)) {
            (Some(a), Some(b)) => opt_view(a) == b,
            (None, None) => true,
            _ => false,
        },
{
    match v.get(key) {
        None => Some(None),
        Some(m) => match m.as_text() {
            Some(t) => {
                let n: usize = t.unicode_len();
                if least <= n && n <= most {
                    Some(Some(t.to_owned()))
                } else {
                    None
                }
            },
            None => None,
        },
    }
}

proof fn digits_only(t: Seq<char>, k: int, n: int)
    requires
        0 <= k <= n <= t.len(),
        decimal_value(t, n) is Some,
    ensures
        decimal_value(t, k) is Some,
        decimal_value(t, k)->0 <= decimal_value(t, n)->0,
    decreases n - k,
{
    if k < n {
        digits_only(t, k, n - 1);
    }
}

/// The number that a text of decimal digits writes, if it can be counted.
fn parse_count(text: &str) -> (res: Option<usize>)
    ensures
        match (res, decimal_value(text@, text@.len() as int)) {
            (Some(n), Some(m)) => n == m && text@.len() > 0,
            (Some(_), None) => false,
            (None, Some(m)) => m > usize::MAX || text@.len() == 0,
            (None, None) => true,
        },
{
    let cs = chars_of(text);
    if cs.len() == 0 {
        return None;
    }
    let mut n: usize = 0;
    let mut k: usize = 0;
    while k < cs.len()
        invariant
            k <= cs.len(),
            cs@ == text@,
            decimal_value(cs@, k as int) == Some(n as nat),
        decreases cs.len() - k,
    {
        let c = cs[k];
        proof {
            if decimal_value(cs@, cs.len() as int) is Some {
                digits_only(cs@, k + 1, cs.len() as int);
            }
        }
        if !('0' <= c && c <= '9') {
            return None;
        }
        let digit: usize = (c as u32 - 48) as usize;
        n = match n.checked_mul(10) {
            Some(m) => match m.checked_add(digit) {
                Some(m) => m,
                None => {
                    return None;
                },
            },
            None => {
                return None;
            },
        };
        k += 1;
    }
    Some(n)
}

fn find_count(v: &Json, key: &str, least: usize, most: usize) -> (res: Option<Option<usize>>)
    ensures
        res == count_member(v.model(), key@, least as int, most as int),
{
    match v.get(key) {
        None => Some(None),
        Some(Json::Number(t)) => match parse_count(t.as_str()) {
            Some(n) => if least <= n && n <= most {
                Some(Some(n))
            } else {
                None
            },
            None => None,
        },
        Some(_) => None,
    }
}

fn parse_reference(v: &Json) -> (res: Option<BlockReference>)
    ensures
        reference_model(res) == reference_of(v.model()),
{
    if !is_object(v) || find_unknown(v, "block_id", "offset", "count", "count").is_some() {
        return None;
    }
    match (
        find_text(v, "block_id", 1, usize::MAX),
        find_count(v, "offset", 0, usize::MAX),
        find_count(v, "count", 1, usize::MAX),
    ) {
        (Some(Some(block_id)), Some(offset), Some(count)) => Some(
            BlockReference { block_id, offset, count },
        ),
        _ => None,
    }
}

fn is_object(v: &Json) -> (res: bool)
    ensures
        res == (v is Object),
        res == (v.model() is Object),
{
    match v {
        Json::Object(_) => true,
        _ => false,
    }
}

fn find_reference(v: &Json, key: &str) -> (res: Option<Option<BlockReference>>)
    ensures
        match (res, reference_member(v.model(), key@)) {
            (Some(a), Some(b)) => reference_model(a) == b,
            (None, None) => true,
            _ => false,
        },
{
    match v.get(key) {
        None => Some(None),
        Some(m) => match parse_reference(m) {
            Some(r) => Some(Some(r)),
            None => None,
        },
    }
}

fn parse_pairing(v: &Json) -> (res: Option<DiffPairing>)
    ensures
        match (res, pairing_of(v.model())) {
            (Some(a), Some(b)) => a.model() == b,
            (None, None) => true,
            _ => false,
        },
{
    if !is_object(v) || find_unknown(v, "label", "old", "new", "related_to").is_some() {
        return None;
    }
    match (
        find_text(v, "label", 0, MAX_TITLE_LENGTH),
        find_reference(v, "old"),
        find_reference(v, "new"),
        find_reference(v, "related_to"),
    ) {
        (Some(label), Some(old), Some(new), Some(related_to)) => if old.is_some()
            || new.is_some() {
            Some(DiffPairing { label, old, new, related_to })
        } else {
            None
        },
        _ => None,
    }
}

fn parse_pairings(v: Option<&Json>, Ghost(m): Ghost<Option<Js>>) -> (res: Option<Vec<DiffPairing>>)
    requires
        match (v, m) {
            (Some(a), Some(b)) => a.model() == b,
            (None, None) => true,
            _ => false,
        },
    ensures
        match (res, pairings_of(m)) {
            (Some(a), Some(b)) => pairing_models(a@) == b,
            (None, None) => true,
            _ => false,
        },
{
    let v = match v {
        Some(v) => v,
        None => {
            return None;
        },
    };
    let items = match v {
        Json::List(items) => items,
        _ => {
            return None;
        },
    };
    if items.len() > MAX_SECTIONS {
        return None;
    }
    let ghost all = v.model()->List_0;
    let mut list: Vec<DiffPairing> = Vec::new();
    let mut k: usize = 0;
    proof {
        assert(pairing_models(list@) =~= Seq::empty());
    }
    while k < items.len()
        invariant
            k <= items.len(),
            *v == Json::List(*items),
            all == v.model()->List_0,
            m == Some(v.model()),
            items.len() <= MAX_SECTIONS,
            pairings_to(all, k as int) == Some(pairing_models(list@)),
        decreases items.len() - k,
    {
        proof {
            assert(all[k as int] == items@[k as int].model());
        }
        let ghost before = list@;
        match parse_pairing(&items[k]) {
            Some(p) => {
                list.push(p);
                proof {
                    assert(pairing_models(list@) =~= pairing_models(before).push(p.model()));
                }
            },
            None => {
                proof {
                    no_more_pairings(all, k + 1, all.len() as int);
                }
                return None;
            },
        }
        k += 1;
    }
    Some(list)
}

proof fn no_more_pairings(items: Seq<Js>, k: int, n: int)
    requires
        0 <= k <= n <= items.len(),
        pairings_to(items, k) is None,
    ensures
        pairings_to(items, n) is None,
    decreases n - k,
{
    if k < n {
        no_more_pairings(items, k, n - 1);
    }
}

/// A refusal with the name of the member that is wrong.
pub open spec fn refusal(tool: Seq<char>, name: Seq<char>) -> Seq<char> {
    "Invalid "@ + tool + " input: "@ + name
}

fn refuse(tool: &str, name: &str) -> (s: String)
    ensures
        s@ == refusal(tool@, name@),
{
    let mut s = "Invalid ".to_owned();
    s.append(tool);
    s.append(" input: ");
    s.append(name);
    s
}

impl ReadDiffArgs {
    /// Reads a request for a page.
    pub fn from_input(v: &Json) -> (res: Result<ReadDiffArgs, String>)
        ensures
            match (res, read_diff_input(v.model())) {
                (Ok(a), Ok(m)) => (opt_view(a.snapshot_id), a.limit, opt_view(a.cursor)) == m,
                (Err(a), Err(m)) => a@ == refusal("read_diff"@, m),
                _ => false,
            },
    {
        let tool = "read_diff";
        if !is_object(v) {
            return Err(refuse(tool, "object"));
        }
        if let Some(name) = find_unknown(v, "snapshot_id", "limit", "cursor", "cursor") {
            return Err(refuse(tool, name.as_str()));
        }
        let snapshot_id = match find_text(v, "snapshot_id", 1, usize::MAX) {
            Some(t) => t,
            None => {
                return Err(refuse(tool, "snapshot_id"));
            },
        };
        let limit = match find_count(v, "limit", 1, MAX_PAGE_SIZE) {
            Some(n) => n,
            None => {
                return Err(refuse(tool, "limit"));
            },
        };
        match find_text(v, "cursor", 1, MAX_CURSOR_LENGTH) {
            Some(cursor) => Ok(ReadDiffArgs { snapshot_id, limit, cursor }),
            None => Err(refuse(tool, "cursor")),
        }
    }
}

impl ShowCustomDiffInput {
    /// Reads a request for a rearranged review.
    pub fn from_input(v: &Json) -> (res: Result<ShowCustomDiffInput, String>)
        ensures
            match (res, show_custom_diff_input(v.model())) {
                (Ok(a), Ok(m)) => (a.snapshot_id@, a.title@, pairing_models(a.pairings@)) == m,
                (Err(a), Err(m)) => a@ == refusal("show_custom_diff"@, m),
                _ => false,
            },
    {
        let tool = "show_custom_diff";
        if !is_object(v) {
            return Err(refuse(tool, "object"));
        }
        if let Some(name) = find_unknown(v, "snapshot_id", "title", "pairings", "pairings") {
            return Err(refuse(tool, name.as_str()));
        }
        let snapshot_id = match find_text(v, "snapshot_id", 1, usize::MAX) {
            Some(Some(t)) => t,
            _ => {
                return Err(refuse(tool, "snapshot_id"));
            },
        };
        let title = match find_text(v, "title", 1, MAX_TITLE_LENGTH) {
            Some(Some(t)) => t,
            _ => {
                return Err(refuse(tool, "title"));
            },
        };
        let found = v.get("pairings");
        match parse_pairings(found, Ghost(v.model().member("pairings"@))) {
            Some(pairings) => Ok(ShowCustomDiffInput { snapshot_id, title, pairings }),
            None => Err(refuse(tool, "pairings")),
        }
    }

    /// What the request is checked and answered by.
    pub fn request(&self) -> (args: ShowCustomDiffArgs)
        ensures
            args.snapshot_id@ == self.snapshot_id@,
            args.title@ == self.title@,
            args.labels@.len() == self.pairings@.len(),
            args.sections@.len() == self.pairings@.len(),
            forall|i: int|
                0 <= i < self.pairings@.len() ==> opt_view(#[trigger] args.labels@[i]) == opt_view(
                    self.pairings@[i].label,
                ),
            forall|i: int|
                0 <= i < self.pairings@.len() ==> (#[trigger] args.sections@[i]).old
                    == self.pairings@[i].old is Some && args.sections@[i].new
                    == self.pairings@[i].new is Some,
    {
        let mut labels: Vec<Option<String>> = Vec::new();
        let mut sections: Vec<SectionSides> = Vec::new();
        let mut k: usize = 0;
        while k < self.pairings.len()
            invariant
                k <= self.pairings.len(),
                labels.len() == k,
                sections.len() == k,
                forall|i: int|
                    0 <= i < k ==> opt_view(#[trigger] labels@[i]) == opt_view(
                        self.pairings@[i].label,
                    ),
                forall|i: int|
                    0 <= i < k ==> (#[trigger] sections@[i]).old == self.pairings@[i].old is Some
                        && sections@[i].new == self.pairings@[i].new is Some,
            decreases self.pairings.len() - k,
        {
            let p = &self.pairings[k];
            labels.push(copy_option(&p.label));
            sections.push(SectionSides { old: p.old.is_some(), new: p.new.is_some() });
            k += 1;
        }
        ShowCustomDiffArgs {
            snapshot_id: self.snapshot_id.clone(),
            title: self.title.clone(),
            labels,
            sections,
        }
    }
}

/// A page holds as many lines at most as a request that is read asks for.
pub proof fn limits_that_are_read_are_kept(v: Js)
    ensures
        match read_diff_input(v) {
            Ok((_, Some(n), _)) => page_limit(Some(n)) == n,
            _ => true,
        },
{
}

} // verus!
