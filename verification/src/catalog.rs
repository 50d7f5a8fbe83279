//! The catalogue of a server: its indices and their columns.

use crate::http::{
    engine_message, is_success, message, print_status, status_text, success, HttpEvent,
    HttpEventView,
};
use crate::json::{
    distinct_names, get_at, json_text, lemma_array_view, lemma_member_views_push, lemma_object_view,
    lemma_views_push, member_of, member_view, member_views, or_null, parse, parsed, str_at, views,
    Json, JsonView,
};
use crate::text::{decimal, decimal_text};
use vstd::prelude::*;

verus! {

/// A column of the catalogue.
pub open spec fn column(
    name: Seq<char>,
    data_type: Seq<char>,
    nullable: bool,
    ordinal: nat,
) -> JsonView {
    JsonView::Object(
        seq![
            ("name"@, JsonView::String(name)),
            ("dataType"@, JsonView::String(data_type)),
            ("nullable"@, JsonView::Bool(nullable)),
            ("ordinal"@, JsonView::Number(decimal(ordinal))),
        ],
    )
}

/// The column that every index has.
pub open spec fn id_column() -> JsonView {
    column("_id"@, "keyword"@, false, 1)
}

/// The columns of an index of which no mapping is known.
pub open spec fn fallback_columns() -> Seq<JsonView> {
    seq![id_column(), column("_source"@, "object"@, true, 2)]
}

/// The name of a property below `prefix`.
pub open spec fn dotted(prefix: Seq<char>, name: Seq<char>) -> Seq<char> {
    if prefix.len() == 0 {
        name
    } else {
        prefix + "."@ + name
    }
}

/// The type of a property, `object` where its definition gives none.
pub open spec fn property_type(definition: JsonView) -> Seq<char> {
    match str_at(definition.get("type"@)) {
        Some(name) => name,
        None => "object"@,
    }
}

/// The properties below a property.
pub open spec fn nested(definition: JsonView) -> Option<Seq<(Seq<char>, JsonView)>> {
    match definition.get("properties"@) {
        Some(properties) => properties.as_object(),
        None => None,
    }
}

/// A member of an object is part of it.
pub proof fn lemma_member_is_smaller(members: Seq<(Seq<char>, JsonView)>, key: Seq<char>)
    ensures
        member_of(members, key) matches Some(value) ==> decreases_to!(members => value),
    decreases members.len(),
{
    if members.len() > 0 {
        if members[0].0 == key {
            assert(decreases_to!(members => members[0]));
        } else {
            lemma_member_is_smaller(members.drop_first(), key);
        }
    }
}

/// The properties below a property are part of it.
pub proof fn lemma_nested_is_smaller(definition: JsonView)
    ensures
        nested(definition) matches Some(child) ==> decreases_to!(definition => child),
{
    if let JsonView::Object(members) = definition {
        lemma_member_is_smaller(members, "properties"@);
    }
}

/// The columns with one for each of the properties, each followed by those of the
/// properties below it. Columns are numbered as they come.
pub open spec fn flattened(
    prefix: Seq<char>,
    properties: Seq<(Seq<char>, JsonView)>,
    columns: Seq<JsonView>,
) -> Seq<JsonView>
    decreases properties,
{
    if properties.len() == 0 {
        columns
    } else {
        let earlier = flattened(prefix, properties.drop_last(), columns);
        let name = properties.last().0;
        let definition = properties.last().1;
        let path = dotted(prefix, name);
        let here = earlier.push(column(path, property_type(definition), true, earlier.len() + 1));
        proof {
            lemma_nested_is_smaller(definition);
            assert(decreases_to!(properties => properties[properties.len() - 1]));
        }
        match nested(definition) {
            Some(child) => flattened(path, child, here),
            None => here,
        }
    }
}

/// The properties that a mapping response gives of an index.
pub open spec fn mapped_properties(
    index: Seq<char>,
    response: JsonView,
) -> Option<Seq<(Seq<char>, JsonView)>> {
    match get_at(get_at(response.get(index), "mappings"@), "properties"@) {
        Some(properties) => properties.as_object(),
        None => None,
    }
}

/// The columns that a mapping response gives an index.
pub open spec fn mapped_columns(index: Seq<char>, response: JsonView) -> Seq<JsonView> {
    match mapped_properties(index, response) {
        Some(properties) => flattened(Seq::empty(), properties, seq![id_column()]),
        None => seq![id_column()],
    }
}

/// Why there is no mapping in a body that is not JSON text, in the words of the HTTP
/// library.
pub open spec fn not_json_reason() -> Seq<char> {
    "error decoding response body"@
}

/// What asking for the mapping of an index led to: its columns, or a message of failure.
/// A JSON text without a mapping of the index is no failure.
pub open spec fn columns_outcome(
    engine: Seq<char>,
    index: Seq<char>,
    event: HttpEventView,
) -> Result<Seq<JsonView>, Seq<char>> {
    match event {
        HttpEventView::Aborted(reason) => Err(reason),
        HttpEventView::Failed(reason) => Err(
            engine_message(engine, " mapping request failed: "@, reason),
        ),
        HttpEventView::Unreadable(reason) => Err(
            engine_message(engine, " mapping JSON failed: "@, reason),
        ),
        HttpEventView::Responded { status, text } => if success(status) {
            match parsed(text) {
                Some(response) => Ok(mapped_columns(index, response)),
                None => Err(
                    engine_message(engine, " mapping JSON failed: "@, not_json_reason()),
                ),
            }
        } else {
            Err(engine_message(engine, " mapping returned HTTP "@, status_text(status)))
        },
    }
}

/// The columns of an index after asking for its mapping.
pub open spec fn index_columns(
    engine: Seq<char>,
    index: Seq<char>,
    event: HttpEventView,
) -> Seq<JsonView> {
    match columns_outcome(engine, index, event) {
        Ok(columns) => columns,
        Err(_) => fallback_columns(),
    }
}

/// The entry of an index in the catalogue.
pub open spec fn index_entry(
    name: Seq<char>,
    index: JsonView,
    columns: Seq<JsonView>,
) -> JsonView {
    JsonView::Object(
        seq![
            ("schema"@, JsonView::String("default"@)),
            ("name"@, JsonView::String(name)),
            ("kind"@, JsonView::String("index"@)),
            ("columns"@, JsonView::Array(columns)),
            ("indexes"@, JsonView::Array(Seq::empty())),
            (
                "primaryKey"@,
                JsonView::Array(
                    seq![
                        JsonView::Object(
                            seq![
                                ("name"@, JsonView::String("_id"@)),
                                ("keyType"@, JsonView::String("primary"@)),
                            ],
                        ),
                    ],
                ),
            ),
            ("foreignKeys"@, JsonView::Array(Seq::empty())),
            ("health"@, or_null(index.get("health"@))),
            ("status"@, or_null(index.get("status"@))),
            ("documentCount"@, or_null(index.get("docs.count"@))),
            ("storeSize"@, or_null(index.get("store.size"@))),
        ],
    )
}

/// The whole catalogue.
pub open spec fn catalogue(entries: Seq<JsonView>) -> JsonView {
    JsonView::Object(
        seq![
            (
                "schemas"@,
                JsonView::Array(
                    seq![
                        JsonView::Object(
                            seq![
                                ("name"@, JsonView::String("default"@)),
                                ("objects"@, JsonView::Array(entries)),
                            ],
                        ),
                    ],
                ),
            ),
        ],
    )
}

/// Those of the indices that have a name, each with its name.
pub open spec fn named(indices: Seq<JsonView>) -> Seq<(Seq<char>, JsonView)>
    decreases indices.len(),
{
    if indices.len() == 0 {
        Seq::empty()
    } else {
        let earlier = named(indices.drop_last());
        match str_at(indices.last().get("index"@)) {
            Some(name) => earlier.push((name, indices.last())),
            None => earlier,
        }
    }
}

/// The indices that the text of an answer lists: none where it is not a JSON array.
pub open spec fn listed(text: Seq<char>) -> Seq<(Seq<char>, JsonView)> {
    match parsed(text) {
        Some(JsonView::Array(indices)) => named(indices),
        _ => Seq::empty(),
    }
}

/// A copy of the member named `key`, null where there is none.
fn member_or_null(value: &Json, key: &str) -> (member: Json)
    ensures
        member@ == or_null(value@.get(key@)),
{
    match value.get(key) {
        Some(member) => member.clone(),
        None => Json::Null,
    }
}

/// A column of the catalogue.
fn column_json(name: String, data_type: &str, nullable: bool, ordinal: u128) -> (json: Json)
    ensures
        json@ == column(name@, data_type@, nullable, ordinal as nat),
{
    broadcast use lemma_object_view;

    let members = vec![
        ("name".to_owned(), Json::String(name)),
        ("dataType".to_owned(), json_text(data_type)),
        ("nullable".to_owned(), Json::Bool(nullable)),
        ("ordinal".to_owned(), Json::Number(decimal_text(ordinal))),
    ];
    assert(member_views(members@) =~= column(
        name@,
        data_type@,
        nullable,
        ordinal as nat,
    )->Object_0);
    Json::Object(members)
}

/// Adds a column for each of the properties, each followed by those of the properties
/// below it, named by their dotted paths and numbered as they come.
pub fn flatten_properties(
    prefix: &str,
    properties: &Vec<(String, Json)>,
    columns: &mut Vec<Json>,
)
    ensures
        views(final(columns)@) == flattened(
            prefix@,
            member_views(properties@),
            views(old(columns)@),
        ),
    decreases member_views(properties@),
{
    let ghost all = member_views(properties@);
    let ghost start = views(columns@);
    assert(all.take(0) =~= Seq::empty());
    for i in 0..properties.len()
        invariant
            all == member_views(properties@),
            views(columns@) == flattened(prefix@, all.take(i as int), start),
    {
        let ghost here = all.take(i + 1);
        assert(here.drop_last() =~= all.take(i as int));
        assert(here.last() == member_view(properties@[i as int]));
        let definition = &properties[i].1;
        let mut path = prefix.to_owned();
        if !prefix.is_empty() {
            path.append(".");
        }
        path.append(properties[i].0.as_str());
        assert(path@ =~= dotted(prefix@, properties@[i as int].0@));
        let data_type = match definition.get("type") {
            Some(given) => match given.as_str() {
                Some(name) => name,
                None => "object",
            },
            None => "object",
        };
        let added = column_json(path.clone(), data_type, true, columns.len() as u128 + 1);
        proof {
            lemma_views_push(columns@, added);
        }
        columns.push(added);
        if let Some(below) = definition.get("properties") {
            if let Some(child) = below.as_object() {
                proof {
                    lemma_nested_is_smaller(definition@);
                    assert(all[i as int].1 == definition@);
                    assert(decreases_to!(all => all[i as int].1));
                    assert(nested(definition@) == Some(member_views(child@)));
                    assert(decreases_to!(all => member_views(child@)));
                }
                flatten_properties(path.as_str(), child, columns);
            }
        }
    }
    assert(all.take(all.len() as int) =~= all);
}

/// The columns that every index has.
fn id_columns() -> (columns: Vec<Json>)
    ensures
        views(columns@) == seq![id_column()],
{
    let columns = vec![column_json("_id".to_owned(), "keyword", false, 1)];
    assert(views(columns@) =~= seq![id_column()]);
    columns
}

/// The columns that a mapping response gives an index.
pub fn mapping_columns(index: &str, response: &Json) -> (columns: Vec<Json>)
    ensures
        views(columns@) == mapped_columns(index@, response@),
{
    let mut columns = id_columns();
    if let Some(index) = response.get(index) {
        if let Some(mappings) = index.get("mappings") {
            if let Some(properties) = mappings.get("properties") {
                if let Some(properties) = properties.as_object() {
                    assert(""@ =~= Seq::<char>::empty()) by {
                        reveal_strlit("");
                    }
                    flatten_properties("", properties, &mut columns);
                }
            }
        }
    }
    columns
}

/// What asking for the mapping of an index led to: its columns, or a message of failure.
pub fn load_index_columns(engine: &str, index: &str, event: &HttpEvent) -> (outcome: Result<
    Vec<Json>,
    String,
>)
    requires
        event@.well_formed(),
    ensures
        (match outcome {
            Ok(columns) => columns_outcome(engine@, index@, event@) == Ok::<_, Seq<char>>(
                views(columns@),
            ),
            Err(text) => columns_outcome(engine@, index@, event@) == Err::<Seq<JsonView>, _>(text@),
        }),
{
    match event {
        HttpEvent::Aborted(reason) => Err(reason.clone()),
        HttpEvent::Failed(reason) => Err(
            message(engine, " mapping request failed: ", reason.as_str()),
        ),
        HttpEvent::Unreadable(reason) => Err(
            message(engine, " mapping JSON failed: ", reason.as_str()),
        ),
        HttpEvent::Responded { status, text } => {
            if is_success(*status) {
                match parse(text.as_str()) {
                    Some(response) => Ok(mapping_columns(index, &response)),
                    None => Err(
                        message(engine, " mapping JSON failed: ", "error decoding response body"),
                    ),
                }
            } else {
                let line = print_status(*status);
                Err(message(engine, " mapping returned HTTP ", line.as_str()))
            }
        },
    }
}

/// The entry of an index in the catalogue, after asking for its mapping.
pub fn index_object(engine: &str, name: &str, index: &Json, event: &HttpEvent) -> (entry: Json)
    requires
        event@.well_formed(),
    ensures
        entry@ == index_entry(name@, index@, index_columns(engine@, name@, event@)),
{
    broadcast use {lemma_array_view, lemma_object_view};

    let columns = match load_index_columns(engine, name, event) {
        Ok(columns) => columns,
        Err(_) => {
            let mut columns = id_columns();
            let source = column_json("_source".to_owned(), "object", true, 2);
            proof {
                lemma_views_push(columns@, source);
                assert(views(columns@.push(source)) =~= fallback_columns());
            }
            columns.push(source);
            columns
        },
    };
    let key = vec![
        ("name".to_owned(), json_text("_id")),
        ("keyType".to_owned(), json_text("primary")),
    ];
    assert(member_views(key@) =~= seq![
        ("name"@, JsonView::String("_id"@)),
        ("keyType"@, JsonView::String("primary"@)),
    ]);
    let keys = vec![Json::Object(key)];
    assert(views(keys@) =~= seq![JsonView::Object(member_views(key@))]);
    let none: Vec<Json> = Vec::new();
    let nothing: Vec<Json> = Vec::new();
    assert(views(none@) =~= Seq::empty());
    assert(views(nothing@) =~= Seq::empty());
    let members = vec![
        ("schema".to_owned(), json_text("default")),
        ("name".to_owned(), json_text(name)),
        ("kind".to_owned(), json_text("index")),
        ("columns".to_owned(), Json::Array(columns)),
        ("indexes".to_owned(), Json::Array(none)),
        ("primaryKey".to_owned(), Json::Array(keys)),
        ("foreignKeys".to_owned(), Json::Array(nothing)),
        ("health".to_owned(), member_or_null(index, "health")),
        ("status".to_owned(), member_or_null(index, "status")),
        ("documentCount".to_owned(), member_or_null(index, "docs.count")),
        ("storeSize".to_owned(), member_or_null(index, "store.size")),
    ];
    assert(member_views(members@) =~= index_entry(
        name@,
        index@,
        index_columns(engine@, name@, event@),
    )->Object_0);
    Json::Object(members)
}

/// The whole catalogue.
pub fn catalogue_json(entries: Vec<Json>) -> (json: Json)
    ensures
        json@ == catalogue(views(entries@)),
{
    broadcast use {lemma_array_view, lemma_object_view};

    let schema = vec![
        ("name".to_owned(), json_text("default")),
        ("objects".to_owned(), Json::Array(entries)),
    ];
    assert(member_views(schema@) =~= seq![
        ("name"@, JsonView::String("default"@)),
        ("objects"@, JsonView::Array(views(entries@))),
    ]);
    let schemas = vec![Json::Object(schema)];
    assert(views(schemas@) =~= seq![JsonView::Object(member_views(schema@))]);
    let members = vec![("schemas".to_owned(), Json::Array(schemas))];
    assert(member_views(members@) =~= seq![("schemas"@, JsonView::Array(views(schemas@)))]);
    Json::Object(members)
}

/// Those of the indices that have a name, each with its name.
pub fn named_indices(items: &Vec<Json>) -> (indices: Vec<(String, Json)>)
    ensures
        member_views(indices@) == named(views(items@)),
{
    let mut indices: Vec<(String, Json)> = Vec::new();
    assert(member_views(indices@) =~= Seq::empty());
    let ghost all = views(items@);
    assert(all.take(0) =~= Seq::empty());
    for i in 0..items.len()
        invariant
            all == views(items@),
            member_views(indices@) == named(all.take(i as int)),
    {
        assert(all.take(i + 1).drop_last() =~= all.take(i as int));
        assert(all.take(i + 1).last() == items@[i as int]@);
        if let Some(given) = items[i].get("index") {
            if let Some(name) = given.as_str() {
                let index = (name.to_owned(), items[i].clone());
                proof {
                    lemma_member_views_push(indices@, index);
                }
                indices.push(index);
            }
        }
    }
    assert(all.take(all.len() as int) =~= all);
    indices
}

/// The indices that the text of an answer lists, each with its name. Those without a
/// name are left out; a text that is not a JSON array lists none.
pub fn listed_indices(text: &str) -> (indices: Vec<(String, Json)>)
    ensures
        member_views(indices@) == listed(text@),
{
    broadcast use lemma_array_view;

    match parse(text) {
        Some(Json::Array(items)) => named_indices(&items),
        _ => {
            let none: Vec<(String, Json)> = Vec::new();
            assert(member_views(none@) =~= Seq::empty());
            none
        },
    }
}

/// The paths and types of the properties, each before those of the properties below it.
pub open spec fn outline(
    prefix: Seq<char>,
    properties: Seq<(Seq<char>, JsonView)>,
) -> Seq<(Seq<char>, Seq<char>)>
    decreases properties,
{
    if properties.len() == 0 {
        Seq::empty()
    } else {
        let definition = properties.last().1;
        let path = dotted(prefix, properties.last().0);
        proof {
            lemma_nested_is_smaller(definition);
            assert(decreases_to!(properties => properties[properties.len() - 1]));
        }
        let below = match nested(definition) {
            Some(child) => outline(path, child),
            None => Seq::empty(),
        };
        outline(prefix, properties.drop_last()) + seq![(path, property_type(definition))] + below
    }
}

/// The columns of an outline, numbered from `first` on.
pub open spec fn outline_columns(
    lines: Seq<(Seq<char>, Seq<char>)>,
    first: nat,
) -> Seq<JsonView> {
    Seq::new(lines.len(), |k: int| column(lines[k].0, lines[k].1, true, (first + k) as nat))
}

/// Flattening adds one column for each property at any depth, in the order of the
/// outline, and numbers the new columns on from those that were there.
pub proof fn law_flattening_follows_the_outline(
    prefix: Seq<char>,
    properties: Seq<(Seq<char>, JsonView)>,
    columns: Seq<JsonView>,
)
    ensures
        flattened(prefix, properties, columns) == columns + outline_columns(
            outline(prefix, properties),
            columns.len() + 1,
        ),
    decreases properties,
{
    let lines = outline(prefix, properties);
    if properties.len() == 0 {
        assert(columns + outline_columns(lines, columns.len() + 1) =~= columns);
    } else {
        let front = properties.drop_last();
        let definition = properties.last().1;
        let path = dotted(prefix, properties.last().0);
        law_flattening_follows_the_outline(prefix, front, columns);
        let before = outline(prefix, front);
        let earlier = flattened(prefix, front, columns);
        let here = earlier.push(column(path, property_type(definition), true, earlier.len() + 1));
        lemma_nested_is_smaller(definition);
        assert(decreases_to!(properties => properties[properties.len() - 1]));
        if let Some(child) = nested(definition) {
            law_flattening_follows_the_outline(path, child, here);
        }
        assert(flattened(prefix, properties, columns) =~= columns + outline_columns(
            lines,
            columns.len() + 1,
        ));
    }
}

/// The lines of an outline as they stand below `prefix`.
pub open spec fn shifted(
    prefix: Seq<char>,
    lines: Seq<(Seq<char>, Seq<char>)>,
) -> Seq<(Seq<char>, Seq<char>)> {
    lines.map_values(|line: (Seq<char>, Seq<char>)| (dotted(prefix, line.0), line.1))
}

proof fn lemma_outline_below(
    prefix: Seq<char>,
    path: Seq<char>,
    properties: Seq<(Seq<char>, JsonView)>,
)
    requires
        path.len() > 0,
    ensures
        outline(dotted(prefix, path), properties) == shifted(prefix, outline(path, properties)),
    decreases properties,
{
    let whole = dotted(prefix, path);
    if properties.len() == 0 {
        assert(shifted(prefix, outline(path, properties)) =~= Seq::empty());
    } else {
        let name = properties.last().0;
        let definition = properties.last().1;
        assert(dotted(whole, name) =~= dotted(prefix, dotted(path, name)));
        lemma_outline_below(prefix, path, properties.drop_last());
        lemma_nested_is_smaller(definition);
        assert(decreases_to!(properties => properties[properties.len() - 1]));
        if let Some(child) = nested(definition) {
            lemma_outline_below(prefix, dotted(path, name), child);
        }
        assert(outline(whole, properties) =~= shifted(prefix, outline(path, properties)));
    }
}

/// Flattening below a prefix gives the same columns, each with its name put below the
/// prefix. The one exception is a property with an empty name and properties below it,
/// whose name leaves no trace in theirs unless there is a prefix.
pub proof fn law_a_prefix_shifts_every_name(
    prefix: Seq<char>,
    properties: Seq<(Seq<char>, JsonView)>,
)
    requires
        prefix.len() == 0 || forall|i: int|
            0 <= i < properties.len() && (#[trigger] properties[i]).0.len() == 0 ==> (nested(
                properties[i].1,
            ) matches Some(child) ==> child.len() == 0),
    ensures
        outline(prefix, properties) == shifted(prefix, outline(Seq::empty(), properties)),
    decreases properties.len(),
{
    let none = Seq::<char>::empty();
    if prefix.len() == 0 {
        assert(prefix =~= none);
        assert(outline(prefix, properties) =~= shifted(prefix, outline(none, properties)));
    } else if properties.len() == 0 {
        assert(shifted(prefix, outline(none, properties)) =~= Seq::empty());
    } else {
        let front = properties.drop_last();
        let name = properties.last().0;
        assert forall|i: int| 0 <= i < front.len() && (#[trigger] front[i]).0.len() == 0 implies (
        nested(front[i].1) matches Some(child) ==> child.len() == 0) by {
            assert(front[i] == properties[i]);
        }
        law_a_prefix_shifts_every_name(prefix, front);
        assert(properties.last() == properties[properties.len() - 1]);
        if let Some(child) = nested(properties.last().1) {
            if name.len() > 0 {
                lemma_outline_below(prefix, name, child);
            }
        }
        assert(outline(prefix, properties) =~= shifted(prefix, outline(none, properties)));
    }
}

/// The members of a column.
proof fn lemma_column_members(
    name: Seq<char>,
    data_type: Seq<char>,
    nullable: bool,
    ordinal: nat,
)
    ensures
        column(name, data_type, nullable, ordinal).get("name"@) == Some(JsonView::String(name)),
        column(name, data_type, nullable, ordinal).get("dataType"@) == Some(
            JsonView::String(data_type),
        ),
        column(name, data_type, nullable, ordinal).get("nullable"@) == Some(
            JsonView::Bool(nullable),
        ),
        column(name, data_type, nullable, ordinal).get("ordinal"@) == Some(
            JsonView::Number(decimal(ordinal)),
        ),
        column(name, data_type, nullable, ordinal).well_formed(),
{
    reveal_strlit("name");
    reveal_strlit("dataType");
    reveal_strlit("nullable");
    reveal_strlit("ordinal");
    reveal_with_fuel(member_of, 5);
    reveal_with_fuel(JsonView::well_formed, 2);
    assert("name"@.len() == 4 && "dataType"@.len() == 8 && "nullable"@.len() == 8 && "ordinal"@.len()
        == 7);
    assert("dataType"@[0] != "nullable"@[0]);
    let members = column(name, data_type, nullable, ordinal)->Object_0;
    assert(members.drop_first() =~= seq![members[1], members[2], members[3]]);
    assert(members.drop_first().drop_first() =~= seq![members[2], members[3]]);
    assert(members.drop_first().drop_first().drop_first() =~= seq![members[3]]);
}

/// Where in an entry of the catalogue the member of that name stands.
spec fn entry_place(text: Seq<char>) -> int {
    if text.len() == 6 {
        if text[0] == 'h' {
            7
        } else if text[1] == 'c' {
            0
        } else {
            8
        }
    } else if text.len() == 4 {
        if text[0] == 'n' {
            1
        } else {
            2
        }
    } else if text.len() == 7 {
        if text[0] == 'c' {
            3
        } else {
            4
        }
    } else if text.len() == 10 {
        5
    } else if text.len() == 11 {
        6
    } else if text.len() == 13 {
        9
    } else {
        10
    }
}

/// An entry of the catalogue names no member twice.
pub proof fn lemma_entry_names_differ(name: Seq<char>, index: JsonView, columns: Seq<JsonView>)
    ensures
        distinct_names(index_entry(name, index, columns)->Object_0),
{
    let members = index_entry(name, index, columns)->Object_0;
    reveal_strlit("schema");
    reveal_strlit("name");
    reveal_strlit("kind");
    reveal_strlit("columns");
    reveal_strlit("indexes");
    reveal_strlit("primaryKey");
    reveal_strlit("foreignKeys");
    reveal_strlit("health");
    reveal_strlit("status");
    reveal_strlit("documentCount");
    reveal_strlit("storeSize");
    assert(entry_place(members[0].0) == 0 && entry_place(members[1].0) == 1 && entry_place(members[2].0) == 2);
    assert(entry_place(members[3].0) == 3 && entry_place(members[4].0) == 4 && entry_place(members[5].0) == 5);
    assert(entry_place(members[6].0) == 6 && entry_place(members[7].0) == 7 && entry_place(members[8].0) == 8);
    assert(entry_place(members[9].0) == 9 && entry_place(members[10].0) == 10);
    assert forall|i: int| 0 <= i < members.len() implies entry_place((#[trigger] members[i]).0)
        == i by {
        assert(i == 0 || i == 1 || i == 2 || i == 3 || i == 4 || i == 5 || i == 6 || i == 7 || i
            == 8 || i == 9 || i == 10);
    }
}

/// An entry of the catalogue, and the catalogue itself, name no member twice.
pub proof fn law_catalogue_is_well_formed(
    engine: Seq<char>,
    name: Seq<char>,
    index: JsonView,
    event: HttpEventView,
    entries: Seq<JsonView>,
)
    requires
        index.well_formed(),
        forall|i: int| 0 <= i < entries.len() ==> (#[trigger] entries[i]).well_formed(),
    ensures
        index_entry(name, index, index_columns(engine, name, event)).well_formed(),
        catalogue(entries).well_formed(),
{
    reveal_with_fuel(JsonView::well_formed, 4);
    let columns = index_columns(engine, name, event);
    assert forall|k: int| 0 <= k < columns.len() implies (#[trigger] columns[k]).well_formed() by {
        lemma_columns_are_well_formed(engine, name, event, k);
    }
    let entry = index_entry(name, index, columns);
    let members = entry->Object_0;
    lemma_entry_names_differ(name, index, columns);
    lemma_member_is_well_formed(index, "health"@);
    lemma_member_is_well_formed(index, "status"@);
    lemma_member_is_well_formed(index, "docs.count"@);
    lemma_member_is_well_formed(index, "store.size"@);
    let key = members[5].1->Array_0[0];
    assert(key.well_formed()) by {
        reveal_strlit("name");
        reveal_strlit("keyType");
        assert("name"@.len() != "keyType"@.len());
    }
    assert(members[5].1.well_formed());
    let schema = catalogue(entries)->Object_0[0].1->Array_0[0];
    assert(schema.well_formed()) by {
        reveal_strlit("name");
        reveal_strlit("objects");
        assert("name"@.len() != "objects"@.len());
        assert(schema->Object_0[1].1.well_formed());
    }
    assert(catalogue(entries)->Object_0[0].1.well_formed());
}

proof fn lemma_member_is_well_formed(value: JsonView, key: Seq<char>)
    requires
        value.well_formed(),
    ensures
        or_null(value.get(key)).well_formed(),
{
    if let JsonView::Object(members) = value {
        lemma_member_of_is_a_member(members, key);
    }
}

proof fn lemma_member_of_is_a_member(members: Seq<(Seq<char>, JsonView)>, key: Seq<char>)
    ensures
        member_of(members, key) matches Some(value) ==> exists|i: int|
            0 <= i < members.len() && (#[trigger] members[i]).1 == value,
    decreases members.len(),
{
    if members.len() > 0 && members[0].0 != key {
        let rest = members.drop_first();
        lemma_member_of_is_a_member(rest, key);
        if let Some(value) = member_of(members, key) {
            let i = choose|i: int| 0 <= i < rest.len() && (#[trigger] rest[i]).1 == value;
            assert(members[i + 1].1 == value);
        }
    }
}

proof fn lemma_columns_are_well_formed(
    engine: Seq<char>,
    index: Seq<char>,
    event: HttpEventView,
    k: int,
)
    requires
        0 <= k < index_columns(engine, index, event).len(),
    ensures
        index_columns(engine, index, event)[k].well_formed(),
{
    lemma_column_members("_id"@, "keyword"@, false, 1);
    lemma_column_members("_source"@, "object"@, true, 2);
    if let HttpEventView::Responded { status, text } = event {
        if let Some(response) = parsed(text) {
            if let Some(properties) = mapped_properties(index, response) {
                law_flattening_follows_the_outline(Seq::empty(), properties, seq![id_column()]);
                if success(status) && k > 0 {
                    let line = outline(Seq::empty(), properties)[k - 1];
                    lemma_column_members(line.0, line.1, true, (k + 1) as nat);
                }
            }
        }
    }
}

/// Whatever came of asking for its mapping, the columns of an index are numbered from
/// one on without a gap; the first is `_id`, and it alone is not nullable.
pub proof fn law_columns_are_numbered(
    engine: Seq<char>,
    index: Seq<char>,
    event: HttpEventView,
    k: int,
)
    requires
        0 <= k < index_columns(engine, index, event).len(),
    ensures
        index_columns(engine, index, event)[k].get("ordinal"@) == Some(
            JsonView::Number(decimal((k + 1) as nat)),
        ),
        index_columns(engine, index, event)[k].get("nullable"@) == Some(JsonView::Bool(k > 0)),
        index_columns(engine, index, event)[0] == id_column(),
{
    lemma_column_members("_id"@, "keyword"@, false, 1);
    lemma_column_members("_source"@, "object"@, true, 2);
    if let HttpEventView::Responded { status, text } = event {
        if let Some(response) = parsed(text) {
            if let Some(properties) = mapped_properties(index, response) {
                law_flattening_follows_the_outline(Seq::empty(), properties, seq![id_column()]);
                if success(status) && k > 0 {
                    let line = outline(Seq::empty(), properties)[k - 1];
                    lemma_column_members(line.0, line.1, true, (k + 1) as nat);
                }
            }
        }
    }
}

} // verus!
