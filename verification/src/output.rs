//! Tables out of the answers of the server: SQL responses and search hits.

use crate::json::{
    array_at, borrowed, get_at, lemma_array_view, lemma_object_view, lemma_views_push, member_of,
    member_views, or_null, parse_or_null, parsed, str_at, views, Json, JsonView,
};
use crate::text::{same_text, texts};
use vstd::prelude::*;

verus! {

/// The column names, the rows and whether rows were left out.
pub type QueryOutput = (Vec<String>, Vec<Vec<Json>>, bool);

/// What a table holds, as mathematical data.
#[verifier::ext_equal]
pub struct OutputView {
    pub columns: Seq<Seq<char>>,
    pub rows: Seq<Seq<JsonView>>,
    pub truncated: bool,
}

/// What the rows of a table hold.
pub open spec fn row_views(rows: Seq<Vec<Json>>) -> Seq<Seq<JsonView>> {
    rows.map_values(|row: Vec<Json>| views(row@))
}

/// What a table holds.
pub open spec fn output_view(output: QueryOutput) -> OutputView {
    OutputView {
        columns: texts(output.0@),
        rows: row_views(output.1@),
        truncated: output.2,
    }
}

/// The first `cap` of the rows.
pub open spec fn first_rows(rows: Seq<JsonView>, cap: nat) -> Seq<JsonView> {
    if rows.len() <= cap {
        rows
    } else {
        rows.take(cap as int)
    }
}

/// The cells of a row: the items of an array, and anything else as a single cell.
pub open spec fn row_cells(row: JsonView) -> Seq<JsonView> {
    match row {
        JsonView::Array(items) => items,
        other => seq![other],
    }
}

/// The table with these columns and at most `cap` of these rows.
pub open spec fn capped_table(
    columns: Seq<Seq<char>>,
    rows: Seq<JsonView>,
    cap: nat,
) -> OutputView {
    OutputView {
        columns,
        rows: first_rows(rows, cap).map_values(|row: JsonView| row_cells(row)),
        truncated: rows.len() > cap,
    }
}

/// The columns with one more, unless they have it already.
pub open spec fn with_column(columns: Seq<Seq<char>>, name: Seq<char>) -> Seq<Seq<char>> {
    if columns.contains(name) {
        columns
    } else {
        columns.push(name)
    }
}

/// The columns with the names of these members.
pub open spec fn with_names(
    columns: Seq<Seq<char>>,
    members: Seq<(Seq<char>, JsonView)>,
) -> Seq<Seq<char>>
    decreases members.len(),
{
    if members.len() == 0 {
        columns
    } else {
        with_column(with_names(columns, members.drop_last()), members.last().0)
    }
}

/// The names of the members of all rows that are objects, each where it comes first.
pub open spec fn names_in(rows: Seq<JsonView>) -> Seq<Seq<char>>
    decreases rows.len(),
{
    if rows.len() == 0 {
        Seq::empty()
    } else {
        let earlier = names_in(rows.drop_last());
        match rows.last() {
            JsonView::Object(members) => with_names(earlier, members),
            _ => earlier,
        }
    }
}

/// The columns of rows: the names of their members, or `value` where they have none.
pub open spec fn columns_of(rows: Seq<JsonView>) -> Seq<Seq<char>> {
    if names_in(rows).len() == 0 {
        seq!["value"@]
    } else {
        names_in(rows)
    }
}

/// The cells of a row under these columns: the member of each name, null where there
/// is none; a row that is no object is a single cell.
pub open spec fn cells_under(columns: Seq<Seq<char>>, row: JsonView) -> Seq<JsonView> {
    match row {
        JsonView::Object(members) => columns.map_values(
            |name: Seq<char>| or_null(member_of(members, name)),
        ),
        other => seq![other],
    }
}

/// The hits of a search response, or else the response itself as the only row.
pub open spec fn hit_rows(value: JsonView) -> Seq<JsonView> {
    match array_at(get_at(value.get("hits"@), "hits"@)) {
        Some(rows) => rows,
        None => seq![value],
    }
}

/// The table of a search response.
pub open spec fn hits_table(value: JsonView, cap: nat) -> OutputView {
    let rows = hit_rows(value);
    let columns = columns_of(rows);
    OutputView {
        columns,
        rows: first_rows(rows, cap).map_values(|row: JsonView| cells_under(columns, row)),
        truncated: rows.len() > cap,
    }
}

/// The value, or where there is none the other one.
pub open spec fn or_else(value: Option<JsonView>, other: Option<JsonView>) -> Option<JsonView> {
    match value {
        Some(v) => Some(v),
        None => other,
    }
}

/// The name that a text gives, `value` where there is none.
pub open spec fn name_or_value(name: Option<Seq<char>>) -> Seq<char> {
    match name {
        Some(text) => text,
        None => "value"@,
    }
}

/// The name of a column of a `columns` response.
pub open spec fn column_name(column: JsonView) -> Seq<char> {
    name_or_value(str_at(or_else(column.get("name"@), column.get("column"@))))
}

/// The name of a column of a `schema` response.
pub open spec fn schema_name(column: JsonView) -> Seq<char> {
    name_or_value(str_at(column.get("name"@)))
}

/// The items of the array at `value`, none where there is no array.
pub open spec fn items_at(value: Option<JsonView>) -> Seq<JsonView> {
    match array_at(value) {
        Some(items) => items,
        None => Seq::empty(),
    }
}

/// The table of an answer of the server: of a response with `columns`, else of one with
/// a `schema`, else of a search response.
pub open spec fn response_table(value: JsonView, cap: nat) -> OutputView {
    match array_at(value.get("columns"@)) {
        Some(columns) => capped_table(
            columns.map_values(|column: JsonView| column_name(column)),
            items_at(or_else(value.get("rows"@), value.get("datarows"@))),
            cap,
        ),
        None => match array_at(value.get("schema"@)) {
            Some(schema) => capped_table(
                schema.map_values(|column: JsonView| schema_name(column)),
                items_at(value.get("datarows"@)),
                cap,
            ),
            None => hits_table(value, cap),
        },
    }
}

/// A copy of the items.
fn copy_items(items: &Vec<Json>) -> (copies: Vec<Json>)
    ensures
        views(copies@) == views(items@),
{
    let mut copies: Vec<Json> = Vec::new();
    for i in 0..items.len()
        invariant
            views(copies@) == views(items@).take(i as int),
    {
        let copy = items[i].clone();
        proof {
            lemma_views_push(copies@, copy);
            assert(views(items@).take(i + 1) =~= views(items@).take(i as int).push(copy@));
        }
        copies.push(copy);
    }
    assert(views(copies@) =~= views(items@));
    copies
}

/// A copy of the items of the array at `value`, none where there is no array.
fn copy_items_at(value: Option<&Json>) -> (copies: Vec<Json>)
    ensures
        views(copies@) == items_at(borrowed(value)),
{
    if let Some(v) = value {
        if let Some(items) = v.as_array() {
            return copy_items(items);
        }
    }
    let none: Vec<Json> = Vec::new();
    assert(views(none@) =~= Seq::empty());
    none
}

/// The table with these columns and at most `cap` of these rows.
pub fn rows_to_output(columns: Vec<String>, rows: Vec<Json>, cap: usize) -> (output: QueryOutput)
    ensures
        output_view(output) == capped_table(texts(columns@), views(rows@), cap as nat),
{
    broadcast use lemma_array_view;

    let mut shown: Vec<Vec<Json>> = Vec::new();
    let mut truncated: bool = false;
    let ghost all = rows@;
    let ghost table = capped_table(texts(columns@), views(all), cap as nat);
    for row in iter: rows
        invariant
            iter.seq() == all,
            table == capped_table(texts(columns@), views(all), cap as nat),
            shown.len() == if iter.index() <= cap { iter.index() as int } else { cap as int },
            truncated == (iter.index() > cap),
            row_views(shown@) == table.rows.take(shown.len() as int),
    {
        let ghost k = iter.index() as int;
        if shown.len() < cap {
            let ghost held = row@;
            let cells = match row {
                Json::Array(values) => values,
                other => vec![other],
            };
            proof {
                assert(views(cells@) =~= row_cells(held));
                assert(table.rows[k] == row_cells(views(all)[k]));
                assert(row_views(shown@.push(cells)) =~= row_views(shown@).push(views(cells@)));
                assert(table.rows.take(k + 1) =~= table.rows.take(k).push(views(cells@)));
            }
            shown.push(cells);
        } else {
            truncated = true;
        }
    }
    assert(row_views(shown@) =~= table.rows);
    (columns, shown, truncated)
}

/// Whether the columns have that name.
fn has_column(columns: &Vec<String>, name: &str) -> (found: bool)
    ensures
        found == texts(columns@).contains(name@),
{
    for i in 0..columns.len()
        invariant
            forall|j: int| 0 <= j < i ==> texts(columns@)[j] != name@,
    {
        if same_text(columns[i].as_str(), name) {
            assert(texts(columns@)[i as int] == name@);
            return true;
        }
    }
    false
}

/// The cells of a row under these columns.
fn cells_of(columns: &Vec<String>, row: &Json) -> (cells: Vec<Json>)
    ensures
        views(cells@) == cells_under(texts(columns@), row@),
{
    match row {
        Json::Object(members) => {
            let mut cells: Vec<Json> = Vec::new();
            let ghost expected = cells_under(texts(columns@), row@);
            broadcast use lemma_object_view;

            for i in 0..columns.len()
                invariant
                    *row == Json::Object(*members),
                    row@ is Object,
                    expected == cells_under(texts(columns@), row@),
                    expected.len() == columns.len(),
                    views(cells@) == expected.take(i as int),
            {
                let cell = match row.get(columns[i].as_str()) {
                    Some(value) => value.clone(),
                    None => Json::Null,
                };
                proof {
                    assert(expected[i as int] == or_null(row@.get(texts(columns@)[i as int])));
                    lemma_views_push(cells@, cell);
                    assert(expected.take(i + 1) =~= expected.take(i as int).push(cell@));
                }
                cells.push(cell);
            }
            assert(views(cells@) =~= expected);
            cells
        },
        _ => {
            let cells = vec![row.clone()];
            assert(views(cells@) =~= seq![row@]);
            cells
        },
    }
}

/// Adds the names of the members that the columns do not have yet.
fn push_names(columns: &mut Vec<String>, members: &Vec<(String, Json)>)
    ensures
        texts(final(columns)@) == with_names(texts(old(columns)@), member_views(members@)),
{
    let ghost all = member_views(members@);
    let ghost start = texts(columns@);
    assert(all.take(0) =~= Seq::empty());
    for i in 0..members.len()
        invariant
            all == member_views(members@),
            texts(columns@) == with_names(start, all.take(i as int)),
    {
        assert(all.take(i + 1).drop_last() =~= all.take(i as int));
        assert(all.take(i + 1).last().0 == members@[i as int].0@);
        if !has_column(columns, members[i].0.as_str()) {
            let name = members[i].0.clone();
            assert(texts(columns@.push(name)) =~= texts(columns@).push(name@));
            columns.push(name);
        }
    }
    assert(all.take(all.len() as int) =~= all);
}

/// The table of a search response: a row for each hit, a column for each name that a
/// hit has, and at most `cap` rows.
pub fn rows_from_json(value: Json, cap: usize) -> (output: QueryOutput)
    ensures
        output_view(output) == hits_table(value@, cap as nat),
{
    let ghost response = value@;
    let found = match value.get("hits") {
        Some(hits) => match hits.get("hits") {
            Some(rows) => match rows.as_array() {
                Some(rows) => Some(copy_items(rows)),
                None => None,
            },
            None => None,
        },
        None => None,
    };
    let rows = match found {
        Some(rows) => rows,
        None => vec![value],
    };
    let ghost all = views(rows@);
    assert(all =~= hit_rows(response));
    let mut columns: Vec<String> = Vec::new();
    assert(all.take(0) =~= Seq::empty());
    assert(texts(columns@) =~= Seq::empty());
    for i in 0..rows.len()
        invariant
            all == views(rows@),
            texts(columns@) == names_in(all.take(i as int)),
    {
        assert(all.take(i + 1).drop_last() =~= all.take(i as int));
        assert(all.take(i + 1).last() == rows@[i as int]@);
        if let Some(members) = rows[i].as_object() {
            push_names(&mut columns, members);
        }
    }
    assert(all.take(all.len() as int) =~= all);
    if columns.is_empty() {
        columns.push("value".to_owned());
        assert(texts(columns@) =~= seq!["value"@]);
    }
    let ghost table = hits_table(response, cap as nat);
    let shown_len: usize = if rows.len() <= cap { rows.len() } else { cap };
    let mut shown: Vec<Vec<Json>> = Vec::new();
    for i in 0..shown_len
        invariant
            all == views(rows@),
            shown_len <= rows.len(),
            shown_len == table.rows.len(),
            table.rows == first_rows(all, cap as nat).map_values(
                |row: JsonView| cells_under(texts(columns@), row),
            ),
            row_views(shown@) == table.rows.take(i as int),
    {
        let cells = cells_of(&columns, &rows[i]);
        proof {
            assert(table.rows[i as int] == cells_under(texts(columns@), all[i as int]));
            assert(row_views(shown@.push(cells)) =~= row_views(shown@).push(views(cells@)));
            assert(table.rows.take(i + 1) =~= table.rows.take(i as int).push(views(cells@)));
        }
        shown.push(cells);
    }
    assert(row_views(shown@) =~= table.rows);
    (columns, shown, rows.len() > cap)
}

/// The names of the columns of a `columns` response.
fn column_names(columns: &Vec<Json>) -> (names: Vec<String>)
    ensures
        texts(names@) == views(columns@).map_values(|column: JsonView| column_name(column)),
{
    let mut names: Vec<String> = Vec::new();
    let ghost expected = views(columns@).map_values(|column: JsonView| column_name(column));
    for i in 0..columns.len()
        invariant
            expected == views(columns@).map_values(|column: JsonView| column_name(column)),
            texts(names@) == expected.take(i as int),
    {
        let column = &columns[i];
        let given = match column.get("name") {
            Some(name) => Some(name),
            None => column.get("column"),
        };
        let name = match given {
            Some(given) => match given.as_str() {
                Some(name) => name.to_owned(),
                None => "value".to_owned(),
            },
            None => "value".to_owned(),
        };
        assert(expected[i as int] == column_name(column@));
        assert(texts(names@.push(name)) =~= texts(names@).push(name@));
        assert(expected.take(i + 1) =~= expected.take(i as int).push(name@));
        names.push(name);
    }
    assert(texts(names@) =~= expected);
    names
}

/// The names of the columns of a `schema` response.
fn schema_names(columns: &Vec<Json>) -> (names: Vec<String>)
    ensures
        texts(names@) == views(columns@).map_values(|column: JsonView| schema_name(column)),
{
    let mut names: Vec<String> = Vec::new();
    let ghost expected = views(columns@).map_values(|column: JsonView| schema_name(column));
    for i in 0..columns.len()
        invariant
            expected == views(columns@).map_values(|column: JsonView| schema_name(column)),
            texts(names@) == expected.take(i as int),
    {
        let column = &columns[i];
        let name = match column.get("name") {
            Some(given) => match given.as_str() {
                Some(name) => name.to_owned(),
                None => "value".to_owned(),
            },
            None => "value".to_owned(),
        };
        assert(expected[i as int] == schema_name(column@));
        assert(texts(names@.push(name)) =~= texts(names@).push(name@));
        assert(expected.take(i + 1) =~= expected.take(i as int).push(name@));
        names.push(name);
    }
    assert(texts(names@) =~= expected);
    names
}

/// The table of an answer of the server, with at most `cap` rows.
pub fn response_to_output(value: Json, cap: usize) -> (output: QueryOutput)
    ensures
        output_view(output) == response_table(value@, cap as nat),
{
    if let Some(columns) = value.get("columns") {
        if let Some(columns) = columns.as_array() {
            let names = column_names(columns);
            let rows = match value.get("rows") {
                Some(rows) => copy_items_at(Some(rows)),
                None => copy_items_at(value.get("datarows")),
            };
            return rows_to_output(names, rows, cap);
        }
    }
    if let Some(schema) = value.get("schema") {
        if let Some(schema) = schema.as_array() {
            let names = schema_names(schema);
            let rows = copy_items_at(value.get("datarows"));
            return rows_to_output(names, rows, cap);
        }
    }
    rows_from_json(value, cap)
}

/// The table of the text of an answer, with at most `cap` rows. A text that is not JSON
/// counts as null.
pub fn sql_response_to_output(text: &str, cap: usize) -> (output: QueryOutput)
    ensures
        output_view(output) == response_table(or_null(parsed(text@)), cap as nat),
{
    response_to_output(parse_or_null(text), cap)
}

/// The cap only cuts: a table has at most that many rows, it says whether rows were cut
/// off, and it differs from a table with a larger cap in nothing but the rows cut off.
pub proof fn law_cap_only_cuts(value: JsonView, cap: nat, larger: nat)
    requires
        cap <= larger,
    ensures
        ({
            let small = response_table(value, cap);
            let large = response_table(value, larger);
            &&& small.rows.len() <= cap
            &&& small.columns == large.columns
            &&& small.rows.len() <= large.rows.len()
            &&& small.rows == large.rows.take(small.rows.len() as int)
            &&& small.truncated ==> small.rows.len() == cap
            &&& !small.truncated ==> small == large
            &&& cap < larger ==> small.truncated == (cap < large.rows.len())
        }),
{
    let small = response_table(value, cap);
    let large = response_table(value, larger);
    assert(small.rows =~= large.rows.take(small.rows.len() as int));
    if !small.truncated {
        assert(small.rows =~= large.rows);
    }
}

pub proof fn lemma_with_names(columns: Seq<Seq<char>>, members: Seq<(Seq<char>, JsonView)>)
    ensures
        columns.no_duplicates() ==> with_names(columns, members).no_duplicates(),
        forall|name: Seq<char>| #[trigger]
            columns.contains(name) ==> with_names(columns, members).contains(name),
        forall|j: int|
            0 <= j < members.len() ==> with_names(columns, members).contains(
                (#[trigger] members[j]).0,
            ),
    decreases members.len(),
{
    if members.len() > 0 {
        let front = members.drop_last();
        let earlier = with_names(columns, front);
        let now = with_names(columns, members);
        lemma_with_names(columns, front);
        assert forall|name: Seq<char>| #[trigger] earlier.contains(name) implies now.contains(
            name,
        ) by {
            let i = choose|i: int| 0 <= i < earlier.len() && earlier[i] == name;
            assert(now[i] == name);
        }
        assert(now.contains(members.last().0)) by {
            if !earlier.contains(members.last().0) {
                assert(now.last() == members.last().0);
            }
        }
        assert forall|j: int| 0 <= j < members.len() implies now.contains(
            (#[trigger] members[j]).0,
        ) by {
            if j < front.len() {
                assert(front[j] == members[j]);
                assert(earlier.contains(front[j].0));
            }
        }
    }
}

pub proof fn lemma_names_in(rows: Seq<JsonView>)
    ensures
        names_in(rows).no_duplicates(),
        forall|i: int, j: int|
            0 <= i < rows.len() && rows[i] is Object && 0 <= j < rows[i]->Object_0.len()
                ==> names_in(rows).contains((#[trigger] rows[i]->Object_0[j]).0),
    decreases rows.len(),
{
    if rows.len() > 0 {
        let front = rows.drop_last();
        lemma_names_in(front);
        if let JsonView::Object(members) = rows.last() {
            lemma_with_names(names_in(front), members);
        }
        assert forall|i: int, j: int|
            0 <= i < rows.len() && rows[i] is Object && 0 <= j
                < rows[i]->Object_0.len() implies names_in(rows).contains(
            (#[trigger] rows[i]->Object_0[j]).0,
        ) by {
            if i < front.len() {
                assert(front[i] == rows[i]);
                assert(names_in(front).contains(front[i]->Object_0[j].0));
            }
        }
    }
}

/// A search response loses nothing: no column is there twice, every member of every hit
/// has a column, and a hit has one cell for each column, which holds the hit's member
/// of that name, or null where it has none.
pub proof fn law_hits_fill_their_columns(value: JsonView, cap: nat, i: int)
    requires
        0 <= i < hit_rows(value).len(),
        hit_rows(value)[i] is Object,
    ensures
        ({
            let table = hits_table(value, cap);
            let hit = hit_rows(value)[i];
            &&& table.columns.no_duplicates()
            &&& forall|j: int|
                0 <= j < hit->Object_0.len() ==> table.columns.contains(
                    (#[trigger] hit->Object_0[j]).0,
                )
            &&& i < cap ==> i < table.rows.len() && table.rows[i].len() == table.columns.len()
            &&& i < cap ==> forall|c: int|
                0 <= c < table.columns.len() ==> (#[trigger] table.rows[i][c]) == or_null(
                    hit.get(table.columns[c]),
                )
        }),
{
    lemma_names_in(hit_rows(value));
}

} // verus!
