//! What an agent is told of the tools that read and rearrange a comparison.
use crate::json::{Js, Json};
use vstd::prelude::*;

verus! {

pub const READ_DIFF: &'static str = "read_diff";

pub const SHOW_CUSTOM_DIFF: &'static str = "show_custom_diff";

/// What the tool that reads a comparison is for.
pub const READ_DIFF_TEXT: &'static str = "Read Ovim's Git review using the same comparison as <leader>gd, including its configured pullbase. Finish edits first, then call without snapshot_id to freeze the current comparison and get block IDs for added and removed lines. To read the next page, pass snapshot_id and next_cursor as cursor; continue until next_cursor is null. Read all pages before assigning changes. After further edits, start a fresh snapshot. The comparison base follows Ovim's pullbase setting; this tool does not override it.";

/// What the tool that shows a rearranged review is for.
pub const SHOW_CUSTOM_DIFF_TEXT: &'static str = "Open a replayable review immediately without waiting for dismissal. First read every page of read_diff's frozen comparison. The pairings array defines ordered sections: provide old (removed block) and new (added block) for a replacement, old alone for a deletion, or new alone for an addition. At least one side is required. Use zero-based offset and positive count to split a block into disjoint semantic slices; pair lengths may differ. Label deletions explicitly (for example, 'Remove duplicate permission check') instead of pairing them with unrelated nearby additions. For copied or extracted code, assign each changed line once, then use related_to to reference an existing removed or added range: for example an old/new pair for the primary move, followed by a new-only section labelled 'Additional copy' with related_to pointing to the original old range. related_to is an explanatory source reference, not another pairing, and cannot overlap this section's own lines; it does not consume, duplicate, hide, or prove equivalence of code. Several sections may reference the same source. Labels describe intent but cannot change addition/deletion kinds. Unassigned changes, metadata, and binary changes remain visible automatically. Overlapping ownership, invalid ranges, and wrong-side references are rejected. GUI Guided view and the terminal show these sections; Files keeps canonical file order. All content comes from the frozen snapshot, never agent-authored code.";

/// Which files a tool may touch.
#[derive(Debug, Clone, Copy, PartialEq, Eq, Structural)]
pub enum FileScope {
    Nothing,
    Project,
}

/// What a tool needs to be allowed.
#[derive(Debug, Clone, Copy, PartialEq, Eq, Structural)]
pub struct RequiredScope {
    pub file_scope: FileScope,
    pub shell: bool,
    pub network: bool,
}

/// What a tool does beside its answer.
#[derive(Debug, Clone, Copy, PartialEq, Eq, Structural)]
pub enum SideEffect {
    Read,
    Navigation,
}

/// A tool as an agent is told of it.
#[derive(Debug)]
pub struct ToolDefinition {
    pub name: String,
    pub description: String,
    pub required_scope: RequiredScope,
    pub side_effect: SideEffect,
    /// The schema of its arguments
    pub input_schema: Json,
}

/// The members of an object.
pub open spec fn fields_model(fields: Seq<(String, Json)>) -> Seq<(Seq<char>, Js)> {
    Seq::new(fields.len(), |i: int| (fields[i].0@, fields[i].1.model()))
}

pub(crate) fn put(fields: &mut Vec<(String, Json)>, key: &str, value: Json)
    ensures
        fields_model(final(fields)@) == fields_model(old(fields)@).push((key@, value.model())),
{
    let ghost before = fields_model(fields@);
    fields.push((key.to_owned(), value));
    proof {
        assert(fields_model(fields@) =~= before.push((key@, value.model())));
    }
}

pub(crate) fn no_fields() -> (fields: Vec<(String, Json)>)
    ensures
        fields_model(fields@) == Seq::<(Seq<char>, Js)>::empty(),
{
    let fields: Vec<(String, Json)> = Vec::new();
    proof {
        assert(fields_model(fields@) =~= Seq::<(Seq<char>, Js)>::empty());
    }
    fields
}

pub(crate) fn object(fields: Vec<(String, Json)>) -> (v: Json)
    ensures
        v.model() == Js::Object(fields_model(fields@)),
{
    let v = Json::Object(fields);
    proof {
        assert(v.model()->Object_0 =~= fields_model(fields@));
    }
    v
}

pub(crate) fn text(s: &str) -> (v: Json)
    ensures
        v.model() == Js::Text(s@),
{
    Json::Text(s.to_owned())
}

pub(crate) fn number(s: &str) -> (v: Json)
    ensures
        v.model() == Js::Number(s@),
{
    Json::Number(s.to_owned())
}

fn list_of_one(item: Json) -> (v: Json)
    ensures
        v.model() == Js::List(seq![item.model()]),
{
    let mut items: Vec<Json> = Vec::new();
    items.push(item);
    let v = Json::List(items);
    proof {
        assert(v.model()->List_0 =~= seq![item.model()]);
    }
    v
}

/// An object with the members of a plain type.
pub open spec fn typed_schema(kind: Seq<char>) -> Seq<(Seq<char>, Js)> {
    Seq::empty().push(("type"@, Js::Text(kind)))
}

fn typed(kind: &str) -> (fields: Vec<(String, Json)>)
    ensures
        fields_model(fields@) == typed_schema(kind@),
{
    let mut fields = no_fields();
    put(&mut fields, "type", text(kind));
    fields
}

/// A text of at least one character.
pub open spec fn filled_schema() -> Seq<(Seq<char>, Js)> {
    typed_schema("string"@).push(("minLength"@, Js::Number("1"@)))
}

fn filled() -> (fields: Vec<(String, Json)>)
    ensures
        fields_model(fields@) == filled_schema(),
{
    let mut fields = typed("string");
    put(&mut fields, "minLength", number("1"));
    fields
}

/// An object that has no members but those listed.
pub open spec fn strict_schema(properties: Seq<(Seq<char>, Js)>) -> Seq<(Seq<char>, Js)> {
    typed_schema("object"@).push(("additionalProperties"@, Js::Bool(false))).push(
        ("properties"@, Js::Object(properties)),
    )
}

fn strict(properties: Vec<(String, Json)>) -> (fields: Vec<(String, Json)>)
    ensures
        fields_model(fields@) == strict_schema(fields_model(properties@)),
{
    let mut fields = typed("object");
    put(&mut fields, "additionalProperties", Json::Bool(false));
    put(&mut fields, "properties", object(properties));
    fields
}

/// The arguments of the tool that reads a comparison.
pub open spec fn read_diff_schema() -> Js {
    Js::Object(
        strict_schema(
            Seq::empty().push(
                (
                    "snapshot_id"@,
                    Js::Object(
                        filled_schema().push(
                            (
                                "description"@,
                                Js::Text(
                                    "Snapshot ID returned by an earlier read_diff call. Omit to capture the current comparison."@,
                                ),
                            ),
                        ),
                    ),
                ),
            ).push(
                (
                    "limit"@,
                    Js::Object(
                        typed_schema("integer"@).push(("minimum"@, Js::Number("1"@))).push(
                            ("maximum"@, Js::Number("200"@)),
                        ).push(
                            (
                                "description"@,
                                Js::Text("Maximum changed lines returned (default 100)."@),
                            ),
                        ),
                    ),
                ),
            ).push(
                (
                    "cursor"@,
                    Js::Object(
                        filled_schema().push(("maxLength"@, Js::Number("512"@))).push(
                            (
                                "description"@,
                                Js::Text(
                                    "Opaque next_cursor returned by the previous page. Requires snapshot_id."@,
                                ),
                            ),
                        ),
                    ),
                ),
            ),
        ),
    )
}

/// The tool that reads a comparison page by page.
pub fn read_diff_definition() -> (d: ToolDefinition)
    ensures
        d.name@ == READ_DIFF@,
        d.description@ == READ_DIFF_TEXT@,
        d.required_scope == (RequiredScope {
            file_scope: FileScope::Project,
            shell: false,
            network: false,
        }),
        d.side_effect == SideEffect::Read,
        d.input_schema.model() == read_diff_schema(),
{
    let mut snapshot = filled();
    put(
        &mut snapshot,
        "description",
        text(
            "Snapshot ID returned by an earlier read_diff call. Omit to capture the current comparison.",
        ),
    );
    let mut limit = typed("integer");
    put(&mut limit, "minimum", number("1"));
    put(&mut limit, "maximum", number("200"));
    put(&mut limit, "description", text("Maximum changed lines returned (default 100)."));
    let mut cursor = filled();
    put(&mut cursor, "maxLength", number("512"));
    put(
        &mut cursor,
        "description",
        text("Opaque next_cursor returned by the previous page. Requires snapshot_id."),
    );
    let mut properties = no_fields();
    put(&mut properties, "snapshot_id", object(snapshot));
    put(&mut properties, "limit", object(limit));
    put(&mut properties, "cursor", object(cursor));
    let schema = object(strict(properties));
    ToolDefinition {
        name: READ_DIFF.to_owned(),
        description: READ_DIFF_TEXT.to_owned(),
        required_scope: RequiredScope {
            file_scope: FileScope::Project,
            shell: false,
            network: false,
        },
        side_effect: SideEffect::Read,
        input_schema: schema,
    }
}

/// A reference to the schema of a range of a block.
pub open spec fn reference_use() -> Seq<(Seq<char>, Js)> {
    Seq::empty().push(("$ref"@, Js::Text("#/$defs/reference"@)))
}

fn reference() -> (fields: Vec<(String, Json)>)
    ensures
        fields_model(fields@) == reference_use(),
{
    let mut fields = no_fields();
    put(&mut fields, "$ref", text("#/$defs/reference"));
    fields
}

pub open spec fn required_one(key: Seq<char>) -> Js {
    Js::Object(Seq::empty().push(("required"@, Js::List(seq![Js::Text(key)]))))
}

fn requiring(key: &str) -> (v: Json)
    ensures
        v.model() == required_one(key@),
{
    let mut fields = no_fields();
    put(&mut fields, "required", list_of_one(text(key)));
    object(fields)
}

/// A section: a label, removed lines, added lines, and lines that it is
/// related to. It must have removed or added lines.
pub open spec fn section_schema() -> Js {
    Js::Object(
        strict_schema(
            Seq::empty().push(
                (
                    "label"@,
                    Js::Object(typed_schema("string"@).push(("maxLength"@, Js::Number("200"@)))),
                ),
            ).push(("old"@, Js::Object(reference_use()))).push(
                ("new"@, Js::Object(reference_use())),
            ).push(
                (
                    "related_to"@,
                    Js::Object(
                        reference_use().push(
                            (
                                "description"@,
                                Js::Text(
                                    "Explanatory reference to a removed or added range outside this section. Does not own its lines or imply equality."@,
                                ),
                            ),
                        ),
                    ),
                ),
            ),
        ).push(("anyOf"@, Js::List(seq![required_one("old"@), required_one("new"@)]))),
    )
}

fn section() -> (v: Json)
    ensures
        v.model() == section_schema(),
{
    let mut label = typed("string");
    put(&mut label, "maxLength", number("200"));
    let mut related = reference();
    put(
        &mut related,
        "description",
        text(
            "Explanatory reference to a removed or added range outside this section. Does not own its lines or imply equality.",
        ),
    );
    let mut properties = no_fields();
    put(&mut properties, "label", object(label));
    put(&mut properties, "old", object(reference()));
    put(&mut properties, "new", object(reference()));
    put(&mut properties, "related_to", object(related));
    let mut fields = strict(properties);
    let mut sides: Vec<Json> = Vec::new();
    sides.push(requiring("old"));
    sides.push(requiring("new"));
    let sides = Json::List(sides);
    proof {
        assert(sides.model()->List_0 =~= seq![required_one("old"@), required_one("new"@)]);
    }
    put(&mut fields, "anyOf", sides);
    object(fields)
}

/// A range of a block.
pub open spec fn range_schema() -> Js {
    Js::Object(
        strict_schema(
            Seq::empty().push(("block_id"@, Js::Object(filled_schema()))).push(
                (
                    "offset"@,
                    Js::Object(typed_schema("integer"@).push(("minimum"@, Js::Number("0"@)))),
                ),
            ).push(
                (
                    "count"@,
                    Js::Object(typed_schema("integer"@).push(("minimum"@, Js::Number("1"@)))),
                ),
            ),
        ).push(("required"@, Js::List(seq![Js::Text("block_id"@)]))),
    )
}

fn range() -> (v: Json)
    ensures
        v.model() == range_schema(),
{
    let mut offset = typed("integer");
    put(&mut offset, "minimum", number("0"));
    let mut count = typed("integer");
    put(&mut count, "minimum", number("1"));
    let mut properties = no_fields();
    put(&mut properties, "block_id", object(filled()));
    put(&mut properties, "offset", object(offset));
    put(&mut properties, "count", object(count));
    let mut fields = strict(properties);
    put(&mut fields, "required", list_of_one(text("block_id")));
    object(fields)
}

/// The arguments of the tool that shows a rearranged review.
pub open spec fn show_custom_diff_schema() -> Js {
    Js::Object(
        strict_schema(
            Seq::empty().push(("snapshot_id"@, Js::Object(filled_schema()))).push(
                (
                    "title"@,
                    Js::Object(filled_schema().push(("maxLength"@, Js::Number("200"@)))),
                ),
            ).push(
                (
                    "pairings"@,
                    Js::Object(
                        typed_schema("array"@).push(("maxItems"@, Js::Number("1000"@))).push(
                            ("items"@, section_schema()),
                        ),
                    ),
                ),
            ),
        ).push(
            (
                "required"@,
                Js::List(
                    seq![
                        Js::Text("snapshot_id"@),
                        Js::Text("title"@),
                        Js::Text("pairings"@),
                    ],
                ),
            ),
        ).push(("$defs"@, Js::Object(Seq::empty().push(("reference"@, range_schema()))))),
    )
}

/// The tool that shows a rearranged review.
pub fn show_custom_diff_definition() -> (d: ToolDefinition)
    ensures
        d.name@ == SHOW_CUSTOM_DIFF@,
        d.description@ == SHOW_CUSTOM_DIFF_TEXT@,
        d.required_scope == (RequiredScope {
            file_scope: FileScope::Project,
            shell: false,
            network: false,
        }),
        d.side_effect == SideEffect::Navigation,
        d.input_schema.model() == show_custom_diff_schema(),
{
    let mut title = filled();
    put(&mut title, "maxLength", number("200"));
    let mut pairings = typed("array");
    put(&mut pairings, "maxItems", number("1000"));
    put(&mut pairings, "items", section());
    let mut properties = no_fields();
    put(&mut properties, "snapshot_id", object(filled()));
    put(&mut properties, "title", object(title));
    put(&mut properties, "pairings", object(pairings));
    let mut fields = strict(properties);
    let mut required: Vec<Json> = Vec::new();
    required.push(text("snapshot_id"));
    required.push(text("title"));
    required.push(text("pairings"));
    let required = Json::List(required);
    proof {
        assert(required.model()->List_0 =~= seq![
            Js::Text("snapshot_id"@),
            Js::Text("title"@),
            Js::Text("pairings"@),
        ]);
    }
    put(&mut fields, "required", required);
    let mut defs = no_fields();
    put(&mut defs, "reference", range());
    put(&mut fields, "$defs", object(defs));
    ToolDefinition {
        name: SHOW_CUSTOM_DIFF.to_owned(),
        description: SHOW_CUSTOM_DIFF_TEXT.to_owned(),
        required_scope: RequiredScope {
            file_scope: FileScope::Project,
            shell: false,
            network: false,
        },
        side_effect: SideEffect::Navigation,
        input_schema: object(fields),
    }
}

} // verus!
