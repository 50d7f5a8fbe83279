//! What the catalogue says of the indices, in terms of the server's list and mappings.

use crate::catalog::{
    catalogue, columns_outcome, flattened, index_columns, index_entry,
    law_flattening_follows_the_outline, lemma_entry_names_differ, lemma_member_is_smaller, listed,
    mapped_columns, named,
};
use crate::http::{reason_phrase, HttpEventView};
use crate::json::{parsed, JsonView};
use crate::laws::options::below;
use crate::laws::values::law_members_are_found_by_name;
use crate::text::decimal;
use vstd::prelude::*;

verus! {

/// A column with that name, type, nullability and number.
pub open spec fn shown_column(
    name: Seq<char>,
    data_type: Seq<char>,
    nullable: bool,
    ordinal: nat,
) -> JsonView {
    JsonView::Object(
        seq![
            ("name"@, JsonView::String(name)),
            ("dataType"@, JsonView::String(data_type)),
            ("nullable"@, JsonView::Bool(nullable)),
            ("ordinal"@, JsonView::Number(decimal(ordinal))),
        ],
    )
}

/// The column `_id` that comes first.
pub open spec fn shown_id() -> JsonView {
    shown_column("_id"@, "keyword"@, false, 1)
}

/// The name of a property below a path: the path, a dot and the name, or the name alone
/// where there is no path.
pub open spec fn path_below(path: Seq<char>, name: Seq<char>) -> Seq<char> {
    if path == Seq::<char>::empty() {
        name
    } else {
        path + "."@ + name
    }
}

/// The type that a definition gives: its member `type` where that is a string, and
/// `object` otherwise.
pub open spec fn type_in(definition: JsonView) -> Seq<char> {
    match definition.get("type"@) {
        Some(JsonView::String(name)) => name,
        _ => "object"@,
    }
}

/// The definitions below a definition: the members of its member `properties`, whatever
/// its type, and none where that is no object.
pub open spec fn inner(definition: JsonView) -> Seq<(Seq<char>, JsonView)> {
    match definition.get("properties"@) {
        Some(JsonView::Object(members)) => members,
        _ => Seq::empty(),
    }
}

/// The definitions below a definition are part of it.
pub proof fn lemma_inner_is_smaller(definition: JsonView)
    ensures
        inner(definition).len() > 0 ==> decreases_to!(definition => inner(definition)),
{
    if let JsonView::Object(members) = definition {
        lemma_member_is_smaller(members, "properties"@);
    }
}

/// How many definitions there are, at all depths.
pub open spec fn definitions(properties: Seq<(Seq<char>, JsonView)>) -> nat
    decreases properties,
{
    if properties.len() == 0 {
        0
    } else {
        let definition = properties.last().1;
        proof {
            lemma_inner_is_smaller(definition);
            assert(decreases_to!(properties => properties[properties.len() - 1]));
        }
        definitions(properties.drop_last()) + 1 + if inner(definition).len() > 0 {
            definitions(inner(definition))
        } else {
            0
        }
    }
}

/// A property adds a column with its path, its type and the next number, behind those of
/// the properties before it. Right behind come the columns of the definitions below it,
/// whatever its type.
pub proof fn law_a_property_becomes_a_column(
    prefix: Seq<char>,
    before: Seq<(Seq<char>, JsonView)>,
    name: Seq<char>,
    definition: JsonView,
    columns: Seq<JsonView>,
)
    ensures
        ({
            let earlier = flattened(prefix, before, columns);
            let path = path_below(prefix, name);
            let here = earlier.push(
                shown_column(path, type_in(definition), true, earlier.len() + 1),
            );
            let all = flattened(prefix, before.push((name, definition)), columns);
            &&& here.is_prefix_of(all)
            &&& all == flattened(path, inner(definition), here)
        }),
        flattened(prefix, Seq::empty(), columns) == columns,
{
    let property = (name, definition);
    assert(before.push(property).drop_last() =~= before);
    assert(prefix.len() == 0 ==> prefix =~= Seq::empty());
    let earlier = flattened(prefix, before, columns);
    let path = path_below(prefix, name);
    let here = earlier.push(shown_column(path, type_in(definition), true, earlier.len() + 1));
    law_flattening_follows_the_outline(path, inner(definition), here);
}

/// Flattening adds as many columns as there are definitions at all depths, behind those
/// that are there.
pub proof fn law_every_definition_counts(
    prefix: Seq<char>,
    properties: Seq<(Seq<char>, JsonView)>,
    columns: Seq<JsonView>,
)
    ensures
        flattened(prefix, properties, columns).len() == columns.len() + definitions(properties),
        columns.is_prefix_of(flattened(prefix, properties, columns)),
    decreases properties,
{
    if properties.len() > 0 {
        let before = properties.drop_last();
        let name = properties.last().0;
        let definition = properties.last().1;
        assert(before.push((name, definition)) =~= properties);
        law_every_definition_counts(prefix, before, columns);
        law_a_property_becomes_a_column(prefix, before, name, definition, columns);
        let earlier = flattened(prefix, before, columns);
        let path = path_below(prefix, name);
        let here = earlier.push(shown_column(path, type_in(definition), true, earlier.len() + 1));
        if inner(definition).len() > 0 {
            lemma_inner_is_smaller(definition);
            assert(decreases_to!(properties => properties[properties.len() - 1]));
            law_every_definition_counts(path, inner(definition), here);
        } else {
            assert(inner(definition) =~= Seq::empty());
            law_a_property_becomes_a_column(path, Seq::empty(), name, definition, here);
        }
        assert(columns.is_prefix_of(earlier));
        assert(earlier.is_prefix_of(here));
    } else {
        assert(properties =~= Seq::empty());
    }
}

/// The names lead from the properties to the definition, each below the one before.
pub open spec fn leads_to(
    properties: Seq<(Seq<char>, JsonView)>,
    names: Seq<Seq<char>>,
    definition: JsonView,
) -> bool
    decreases names.len(),
{
    &&& names.len() > 0
    &&& exists|i: int| #[trigger]
        leads_by(properties, names[0], i) && if names.len() == 1 {
            properties[i].1 == definition
        } else {
            leads_to(inner(properties[i].1), names.drop_first(), definition)
        }
}

/// Property `i` has that name.
pub open spec fn leads_by(
    properties: Seq<(Seq<char>, JsonView)>,
    name: Seq<char>,
    i: int,
) -> bool {
    0 <= i < properties.len() && properties[i].0 == name
}

/// The path of these names, one below the other.
pub open spec fn path_of(path: Seq<char>, names: Seq<Seq<char>>) -> Seq<char>
    decreases names.len(),
{
    if names.len() == 0 {
        path
    } else {
        path_of(path_below(path, names[0]), names.drop_first())
    }
}

/// Whatever definition the names lead to, at any depth and below definitions of any type,
/// there is a column with their path and the definition's type.
pub proof fn law_every_definition_has_a_column(
    prefix: Seq<char>,
    properties: Seq<(Seq<char>, JsonView)>,
    columns: Seq<JsonView>,
    names: Seq<Seq<char>>,
    definition: JsonView,
)
    requires
        leads_to(properties, names, definition),
    ensures
        ({
            let all = flattened(prefix, properties, columns);
            exists|k: int|
                columns.len() <= k < all.len() && #[trigger] all[k] == shown_column(
                    path_of(prefix, names),
                    type_in(definition),
                    true,
                    (k + 1) as nat,
                )
        }),
    decreases properties,
{
    let i = choose|i: int| #[trigger]
        leads_by(properties, names[0], i) && if names.len() == 1 {
            properties[i].1 == definition
        } else {
            leads_to(inner(properties[i].1), names.drop_first(), definition)
        };
    let before = properties.drop_last();
    let name = properties.last().0;
    let last = properties.last().1;
    assert(before.push((name, last)) =~= properties);
    law_a_property_becomes_a_column(prefix, before, name, last, columns);
    law_every_definition_counts(prefix, before, columns);
    let earlier = flattened(prefix, before, columns);
    let path = path_below(prefix, name);
    let here = earlier.push(shown_column(path, type_in(last), true, earlier.len() + 1));
    let all = flattened(prefix, properties, columns);
    if i < before.len() {
        assert(leads_by(before, names[0], i));
        assert(leads_to(before, names, definition));
        law_every_definition_has_a_column(prefix, before, columns, names, definition);
        let k = choose|k: int|
            columns.len() <= k < earlier.len() && #[trigger] earlier[k] == shown_column(
                path_of(prefix, names),
                type_in(definition),
                true,
                (k + 1) as nat,
            );
        assert(here[k] == earlier[k]);
        assert(all[k] == here[k]);
    } else if names.len() == 1 {
        let k = earlier.len() as int;
        assert(all[k] == here[k]);
        assert(names.drop_first() =~= Seq::empty());
        reveal_with_fuel(path_of, 2);
    } else {
        let rest = names.drop_first();
        assert(inner(last).len() > 0);
        lemma_inner_is_smaller(last);
        assert(decreases_to!(properties => properties[properties.len() - 1]));
        law_every_definition_has_a_column(path, inner(last), here, rest, definition);
        let k = choose|k: int|
            here.len() <= k < all.len() && #[trigger] all[k] == shown_column(
                path_of(path, rest),
                type_in(definition),
                true,
                (k + 1) as nat,
            );
        assert(all[k] == shown_column(
            path_of(prefix, names),
            type_in(definition),
            true,
            (k + 1) as nat,
        ));
    }
}

/// The columns of an index are `_id` and those of the properties that the response has for
/// it under its name, `mappings` and `properties`. Where there are none, `_id` is the only
/// one.
pub proof fn law_a_mapping_gives_the_columns(
    index: Seq<char>,
    response: JsonView,
    properties: Seq<(Seq<char>, JsonView)>,
)
    ensures
        ({
            let found = below(below(response.get(index), "mappings"@), "properties"@);
            &&& found == Some(JsonView::Object(properties)) ==> mapped_columns(index, response)
                == flattened(Seq::empty(), properties, seq![shown_id()])
            &&& !(found matches Some(JsonView::Object(_))) ==> mapped_columns(index, response)
                == seq![shown_id()]
        }),
{
}

/// Asking for a mapping succeeds just where a response with a status from 200 to 299 is
/// JSON text; every failure says what failed. An index whose mapping failed has the
/// columns `_id` and `_source`.
pub proof fn law_a_mapping_fails_with_a_reason(
    engine: Seq<char>,
    index: Seq<char>,
    event: HttpEventView,
    reason: Seq<char>,
    status: u16,
    text: Seq<char>,
)
    ensures
        ({
            let outcome = columns_outcome(engine, index, event);
            let shown = index_columns(engine, index, event);
            let responded = HttpEventView::Responded { status, text };
            &&& event == HttpEventView::Aborted(reason) ==> outcome == Err::<Seq<JsonView>, _>(
                reason,
            )
            &&& event == HttpEventView::Failed(reason) ==> outcome == Err::<Seq<JsonView>, _>(
                engine + " mapping request failed: "@ + reason,
            )
            &&& event == HttpEventView::Unreadable(reason) ==> outcome == Err::<
                Seq<JsonView>,
                _,
            >(engine + " mapping JSON failed: "@ + reason)
            &&& event == responded && !(200 <= status <= 299) ==> outcome == Err::<
                Seq<JsonView>,
                _,
            >(
                engine + " mapping returned HTTP "@ + (decimal(status as nat) + " "@
                    + reason_phrase(status)),
            )
            &&& event == responded && 200 <= status <= 299 && parsed(text) is None ==> outcome
                == Err::<Seq<JsonView>, _>(
                engine + " mapping JSON failed: "@ + "error decoding response body"@,
            )
            &&& event == responded && 200 <= status <= 299 && parsed(text) is Some ==> outcome
                == Ok::<_, Seq<char>>(mapped_columns(index, parsed(text)->0))
            &&& outcome is Ok ==> shown == outcome->Ok_0
            &&& outcome is Err ==> shown == seq![
                shown_id(),
                shown_column("_source"@, "object"@, true, 2),
            ]
        }),
{
}

/// The member of the value, and null where there is none.
pub open spec fn member_or_null(value: JsonView, key: Seq<char>) -> JsonView {
    match value.get(key) {
        Some(member) => member,
        None => JsonView::Null,
    }
}

/// The entry of an index has its name and its columns, what the list says of its health,
/// status, documents and size, and `_id` as its primary key. It has nothing else.
pub proof fn law_an_entry_describes_its_index(
    name: Seq<char>,
    index: JsonView,
    columns: Seq<JsonView>,
)
    ensures
        ({
            let entry = index_entry(name, index, columns);
            let key = JsonView::Object(
                seq![
                    ("name"@, JsonView::String("_id"@)),
                    ("keyType"@, JsonView::String("primary"@)),
                ],
            );
            &&& entry is Object && entry->Object_0.len() == 11
            &&& entry.get("schema"@) == Some(JsonView::String("default"@))
            &&& entry.get("name"@) == Some(JsonView::String(name))
            &&& entry.get("kind"@) == Some(JsonView::String("index"@))
            &&& entry.get("columns"@) == Some(JsonView::Array(columns))
            &&& entry.get("indexes"@) == Some(JsonView::Array(Seq::empty()))
            &&& entry.get("primaryKey"@) == Some(JsonView::Array(seq![key]))
            &&& entry.get("foreignKeys"@) == Some(JsonView::Array(Seq::empty()))
            &&& entry.get("health"@) == Some(member_or_null(index, "health"@))
            &&& entry.get("status"@) == Some(member_or_null(index, "status"@))
            &&& entry.get("documentCount"@) == Some(member_or_null(index, "docs.count"@))
            &&& entry.get("storeSize"@) == Some(member_or_null(index, "store.size"@))
        }),
{
    let members = index_entry(name, index, columns)->Object_0;
    lemma_entry_names_differ(name, index, columns);
    law_members_are_found_by_name(members, 0);
    law_members_are_found_by_name(members, 1);
    law_members_are_found_by_name(members, 2);
    law_members_are_found_by_name(members, 3);
    law_members_are_found_by_name(members, 4);
    law_members_are_found_by_name(members, 5);
    law_members_are_found_by_name(members, 6);
    law_members_are_found_by_name(members, 7);
    law_members_are_found_by_name(members, 8);
    law_members_are_found_by_name(members, 9);
    law_members_are_found_by_name(members, 10);
}

/// The catalogue has one schema, `default`, with all the entries in their order.
pub proof fn law_the_catalogue_has_the_entries(entries: Seq<JsonView>)
    ensures
        catalogue(entries) == JsonView::Object(
            seq![
                (
                    "schemas"@,
                    JsonView::Array(
                        seq![
                            JsonView::Object(
                                seq![
                                    ("name"@, JsonView::String("default"@)),
                                    ("objects"@, JsonView::Array(entries)),
                                ],
                            ),
                        ],
                    ),
                ),
            ],
        ),
{
}

proof fn lemma_named_add(first: Seq<JsonView>, second: Seq<JsonView>)
    ensures
        named(first + second) == named(first) + named(second),
    decreases second.len(),
{
    if second.len() == 0 {
        assert(first + second =~= first);
        assert(named(first) + named(second) =~= named(first));
    } else {
        assert((first + second).drop_last() =~= first + second.drop_last());
        lemma_named_add(first, second.drop_last());
        assert(named(first + second) =~= named(first) + named(second));
    }
}

/// The indices of a list are those of its parts, in order. An item whose member `index`
/// is a string is an index of that name, any other item is none. A text that is no JSON
/// array lists nothing.
pub proof fn law_the_list_gives_the_named_indices(
    first: Seq<JsonView>,
    second: Seq<JsonView>,
    item: JsonView,
    name: Seq<char>,
    text: Seq<char>,
)
    ensures
        named(first + second) == named(first) + named(second),
        named(Seq::empty()) == Seq::<(Seq<char>, JsonView)>::empty(),
        item.get("index"@) == Some(JsonView::String(name)) ==> named(seq![item]) == seq![
            (name, item),
        ],
        !(item.get("index"@) matches Some(JsonView::String(_))) ==> named(seq![item]) == Seq::<
            (Seq<char>, JsonView),
        >::empty(),
        parsed(text) == Some(JsonView::Array(first)) ==> listed(text) == named(first),
        !(parsed(text) matches Some(JsonView::Array(_))) ==> listed(text) == Seq::<
            (Seq<char>, JsonView),
        >::empty(),
{
    lemma_named_add(first, second);
    reveal_with_fuel(named, 2);
    assert(seq![item].drop_last() =~= Seq::empty());
}

} // verus!
