//! What the tables are that a query is answered with, in terms of the members of the
//! server's response.

use crate::json::JsonView;
use crate::output::{
    capped_table, hits_table, lemma_names_in, lemma_with_names, names_in, response_table, with_names,
};
use vstd::prelude::*;

verus! {

/// The smaller of two numbers.
pub open spec fn smaller(a: nat, b: nat) -> nat {
    if a < b {
        a
    } else {
        b
    }
}

/// The response has an array under that name.
pub open spec fn has_array(value: JsonView, key: Seq<char>) -> bool {
    value.get(key) matches Some(JsonView::Array(_))
}

/// A `columns` response has one column for each entry of `columns`, in order. An entry
/// with a string `name` gives its column that name, whatever else it has; one without a
/// `name` but with a string `column` gives it that one; all others are called `value`.
pub proof fn law_columns_name_the_columns(
    value: JsonView,
    columns: Seq<JsonView>,
    cap: nat,
    i: int,
    name: Seq<char>,
)
    requires
        value.get("columns"@) == Some(JsonView::Array(columns)),
        0 <= i < columns.len(),
    ensures
        ({
            let shown = response_table(value, cap).columns;
            &&& shown.len() == columns.len()
            &&& columns[i].get("name"@) == Some(JsonView::String(name)) ==> shown[i] == name
            &&& columns[i].get("name"@) is None && columns[i].get("column"@) == Some(
                JsonView::String(name),
            ) ==> shown[i] == name
            &&& columns[i].get("name"@) is Some && !(columns[i].get("name"@)->0 is String)
                ==> shown[i] == "value"@
            &&& columns[i].get("name"@) is None && (columns[i].get("column"@) is None || !(
            columns[i].get("column"@)->0 is String)) ==> shown[i] == "value"@
        }),
{
}

/// A response without `columns` and with a `schema` has one column for each entry of
/// `schema`, in order. An entry with a string `name` gives its column that name, whatever
/// else it has; all others are called `value`.
pub proof fn law_a_schema_names_the_columns(
    value: JsonView,
    schema: Seq<JsonView>,
    cap: nat,
    i: int,
    name: Seq<char>,
)
    requires
        !has_array(value, "columns"@),
        value.get("schema"@) == Some(JsonView::Array(schema)),
        0 <= i < schema.len(),
    ensures
        ({
            let shown = response_table(value, cap).columns;
            &&& shown.len() == schema.len()
            &&& schema[i].get("name"@) == Some(JsonView::String(name)) ==> shown[i] == name
            &&& schema[i].get("name"@) is None || !(schema[i].get("name"@)->0 is String)
                ==> shown[i] == "value"@
        }),
{
}

/// No entries under `columns`, or else under `schema`, are no columns.
pub proof fn law_no_entries_are_no_columns(value: JsonView, cap: nat)
    requires
        value.get("columns"@) == Some(JsonView::Array(Seq::empty())) || (!has_array(
            value,
            "columns"@,
        ) && value.get("schema"@) == Some(JsonView::Array(Seq::empty()))),
    ensures
        response_table(value, cap).columns == Seq::<Seq<char>>::empty(),
{
}

/// The rows of a `columns` response stand under `rows`, and only where there is nothing
/// under `rows` under `datarows`; those of a `schema` response stand under `datarows`.
/// Each of them is a row of the table as far as the cap goes: an array by its items,
/// anything else as one cell. The table says whether there were more.
pub proof fn law_rows_are_shown_as_they_came(
    value: JsonView,
    rows: Seq<JsonView>,
    cap: nat,
    i: int,
)
    requires
        ({
            ||| has_array(value, "columns"@) && value.get("rows"@) == Some(JsonView::Array(rows))
            ||| has_array(value, "columns"@) && value.get("rows"@) is None && value.get(
                "datarows"@,
            ) == Some(JsonView::Array(rows))
            ||| !has_array(value, "columns"@) && has_array(value, "schema"@) && value.get(
                "datarows"@,
            ) == Some(JsonView::Array(rows))
        }),
    ensures
        ({
            let table = response_table(value, cap);
            &&& table.rows.len() == smaller(rows.len(), cap)
            &&& table.truncated == (rows.len() > cap)
            &&& 0 <= i < rows.len() && i < cap ==> table.rows[i] == (match rows[i] {
                JsonView::Array(cells) => cells,
                cell => seq![cell],
            })
        }),
{
}

/// A `columns` or `schema` response without an array where its rows stand has no rows,
/// and none are missing.
pub proof fn law_no_array_is_no_rows(value: JsonView, cap: nat)
    requires
        ({
            ||| has_array(value, "columns"@) && value.get("rows"@) is Some && !has_array(
                value,
                "rows"@,
            )
            ||| has_array(value, "columns"@) && value.get("rows"@) is None && !has_array(
                value,
                "datarows"@,
            )
            ||| !has_array(value, "columns"@) && has_array(value, "schema"@) && !has_array(
                value,
                "datarows"@,
            )
        }),
    ensures
        response_table(value, cap).rows.len() == 0,
        !response_table(value, cap).truncated,
{
}

/// The table of given columns and rows has these columns, and each of the rows as far as
/// the cap goes: an array by its items, anything else as one cell. It says whether there
/// were more.
pub proof fn law_given_rows_are_shown(
    columns: Seq<Seq<char>>,
    rows: Seq<JsonView>,
    cap: nat,
    i: int,
)
    ensures
        ({
            let table = capped_table(columns, rows, cap);
            &&& table.columns == columns
            &&& table.rows.len() == smaller(rows.len(), cap)
            &&& table.truncated == (rows.len() > cap)
            &&& 0 <= i < rows.len() && i < cap ==> table.rows[i] == (match rows[i] {
                JsonView::Array(cells) => cells,
                cell => seq![cell],
            })
        }),
{
}

/// These are the rows of a search response: the array `hits` of its member `hits`, and
/// where there is none the response itself as the only row.
pub open spec fn found_by_search(value: JsonView, rows: Seq<JsonView>) -> bool {
    match value.get("hits"@) {
        Some(hits) => if has_array(hits, "hits"@) {
            hits.get("hits"@) == Some(JsonView::Array(rows))
        } else {
            rows == seq![value]
        },
        None => rows == seq![value],
    }
}

/// A response without `columns` and without a `schema` is read as a search response.
pub proof fn law_other_responses_are_searches(value: JsonView, cap: nat)
    requires
        !has_array(value, "columns"@),
        !has_array(value, "schema"@),
    ensures
        response_table(value, cap) == hits_table(value, cap),
{
}

/// Every hit of a search response is a row as far as the cap goes, in order, and the table
/// says whether there were more. A hit that is an object has one cell for each column:
/// its member of that name, or null where it has none. Any other hit is one cell.
pub proof fn law_every_hit_is_a_row(
    value: JsonView,
    rows: Seq<JsonView>,
    cap: nat,
    i: int,
    c: int,
)
    requires
        found_by_search(value, rows),
    ensures
        ({
            let table = hits_table(value, cap);
            &&& table.rows.len() == smaller(rows.len(), cap)
            &&& table.truncated == (rows.len() > cap)
            &&& 0 <= i < rows.len() && i < cap && !(rows[i] is Object) ==> table.rows[i]
                == seq![rows[i]]
            &&& 0 <= i < rows.len() && i < cap && rows[i] is Object ==> table.rows[i].len()
                == table.columns.len()
            &&& 0 <= i < rows.len() && i < cap && rows[i] is Object && 0 <= c
                < table.columns.len() ==> table.rows[i][c] == (match rows[i].get(table.columns[c]) {
                Some(member) => member,
                None => JsonView::Null,
            })
        }),
{
}

/// The name of member `j` of row `i`.
pub open spec fn name_at(rows: Seq<JsonView>, i: int, j: int) -> Seq<char> {
    rows[i]->Object_0[j].0
}

/// There is a member `j` in row `i`.
pub open spec fn named_at(rows: Seq<JsonView>, i: int, j: int) -> bool {
    0 <= i < rows.len() && rows[i] is Object && 0 <= j < rows[i]->Object_0.len()
}

/// The name comes up at member `j` of row `i`, and all names that come up before are
/// among these.
pub open spec fn comes_up_after(
    rows: Seq<JsonView>,
    name: Seq<char>,
    earlier: Seq<Seq<char>>,
    i: int,
    j: int,
) -> bool {
    &&& named_at(rows, i, j)
    &&& name_at(rows, i, j) == name
    &&& forall|a: int, b: int|
        named_at(rows, a, b) && (a < i || (a == i && b < j)) ==> earlier.contains(
            #[trigger] name_at(rows, a, b),
        )
}

/// The name of column `c` comes up in some row, after those of the columns before it and
/// after no other name.
pub open spec fn stands_in_order(rows: Seq<JsonView>, columns: Seq<Seq<char>>, c: int) -> bool {
    exists|i: int, j: int| comes_up_after(rows, columns[c], columns.take(c), i, j)
}

/// What comes up in order still does where rows are added behind.
proof fn lemma_order_stays(
    before: Seq<JsonView>,
    row: JsonView,
    columns: Seq<Seq<char>>,
    c: int,
)
    requires
        stands_in_order(before, columns, c),
    ensures
        stands_in_order(before.push(row), columns, c),
{
    let rows = before.push(row);
    let (i, j) = choose|i: int, j: int|
        comes_up_after(before, columns[c], columns.take(c), i, j);
    assert(rows[i] == before[i]);
    assert forall|a: int, b: int|
        named_at(rows, a, b) && (a < i || (a == i && b < j)) implies columns.take(c).contains(
        #[trigger] name_at(rows, a, b),
    ) by {
        assert(rows[a] == before[a]);
        assert(named_at(before, a, b));
        assert(name_at(before, a, b) == name_at(rows, a, b));
    }
    assert(comes_up_after(rows, columns[c], columns.take(c), i, j));
}

proof fn lemma_with_names_order(
    before: Seq<JsonView>,
    members: Seq<(Seq<char>, JsonView)>,
    n: int,
    c: int,
)
    requires
        0 <= n <= members.len(),
        forall|k: int|
            0 <= k < names_in(before).len() ==> #[trigger] stands_in_order(
                before,
                names_in(before),
                k,
            ),
        0 <= c < with_names(names_in(before), members.take(n)).len(),
    ensures
        stands_in_order(
            before.push(JsonView::Object(members)),
            with_names(names_in(before), members.take(n)),
            c,
        ),
    decreases n,
{
    let rows = before.push(JsonView::Object(members));
    let start = names_in(before);
    let columns = with_names(start, members.take(n));
    let last = before.len() as int;
    if n == 0 {
        assert(members.take(n) =~= Seq::empty());
        assert(stands_in_order(before, start, c));
        lemma_order_stays(before, JsonView::Object(members), start, c);
    } else {
        let earlier = with_names(start, members.take(n - 1));
        assert(members.take(n).drop_last() =~= members.take(n - 1));
        assert(members.take(n).last() == members[n - 1]);
        if c < earlier.len() {
            lemma_with_names_order(before, members, n - 1, c);
            let (i, j) = choose|i: int, j: int|
                comes_up_after(rows, earlier[c], earlier.take(c), i, j);
            assert(columns[c] == earlier[c]);
            assert(columns.take(c) =~= earlier.take(c));
            assert(comes_up_after(rows, columns[c], columns.take(c), i, j));
        } else {
            assert(columns.take(c) =~= earlier);
            lemma_names_in(before);
            lemma_with_names(start, members.take(n - 1));
            assert forall|a: int, b: int|
                named_at(rows, a, b) && (a < last || (a == last && b < n - 1)) implies columns.take(
                c,
            ).contains(#[trigger] name_at(rows, a, b)) by {
                if a < last {
                    assert(rows[a] == before[a]);
                    assert(start.contains(before[a]->Object_0[b].0));
                } else {
                    assert(members.take(n - 1)[b] == members[b]);
                }
            }
            assert(named_at(rows, last, n - 1));
            assert(name_at(rows, last, n - 1) == members[n - 1].0);
            assert(comes_up_after(rows, columns[c], columns.take(c), last, n - 1));
        }
    }
}

proof fn lemma_names_in_order(rows: Seq<JsonView>, c: int)
    requires
        0 <= c < names_in(rows).len(),
    ensures
        stands_in_order(rows, names_in(rows), c),
    decreases rows.len(),
{
    let before = rows.drop_last();
    assert(rows =~= before.push(rows.last()));
    if let JsonView::Object(members) = rows.last() {
        assert forall|k: int| 0 <= k < names_in(before).len() implies #[trigger] stands_in_order(
            before,
            names_in(before),
            k,
        ) by {
            lemma_names_in_order(before, k);
        }
        assert(members.take(members.len() as int) =~= members);
        lemma_with_names_order(before, members, members.len() as int, c);
    } else {
        lemma_names_in_order(before, c);
        lemma_order_stays(before, rows.last(), names_in(before), c);
    }
}

/// The columns of a search response are the names of the members of all its hits, those
/// beyond the cap included: each name once, no other name, and in the order in which they
/// come up first. Where no hit has a member, the only column is called `value`.
pub proof fn law_hits_name_the_columns(value: JsonView, rows: Seq<JsonView>, cap: nat)
    requires
        found_by_search(value, rows),
    ensures
        ({
            let columns = hits_table(value, cap).columns;
            &&& columns.no_duplicates()
            &&& forall|i: int, j: int|
                named_at(rows, i, j) ==> columns.contains(#[trigger] name_at(rows, i, j))
            &&& (exists|i: int, j: int| named_at(rows, i, j)) ==> forall|c: int|
                0 <= c < columns.len() ==> #[trigger] stands_in_order(rows, columns, c)
            &&& (forall|i: int, j: int| !named_at(rows, i, j)) ==> columns == seq!["value"@]
        }),
{
    lemma_names_in(rows);
    let names = names_in(rows);
    let columns = hits_table(value, cap).columns;
    assert forall|i: int, j: int| named_at(rows, i, j) implies columns.contains(
        #[trigger] name_at(rows, i, j),
    ) by {
        assert(names.contains(rows[i]->Object_0[j].0));
    }
    if names.len() > 0 {
        assert forall|c: int| 0 <= c < columns.len() implies #[trigger] stands_in_order(
            rows,
            columns,
            c,
        ) by {
            lemma_names_in_order(rows, c);
        }
        assert(stands_in_order(rows, columns, 0));
        let (i, j) = choose|i: int, j: int|
            comes_up_after(rows, columns[0], columns.take(0), i, j);
        assert(named_at(rows, i, j));
    } else {
        if exists|i: int, j: int| named_at(rows, i, j) {
            let (i, j) = choose|i: int, j: int| named_at(rows, i, j);
            assert(names.contains(rows[i]->Object_0[j].0));
        }
    }
}

} // verus!
