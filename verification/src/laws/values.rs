//! What the parts of JSON values are, and that the models of the library's types leave
//! nothing out.

use crate::config::{
    str_text, Authorization, AuthorizationView, SearchConfig, SearchConnection,
};
use crate::http::{HttpEvent, HttpEventView, HttpRequest};
use crate::json::{
    array_at, borrowed, content, get_at, lemma_array_view, lemma_object_view, member_of,
    member_views, or_null, str_at, views, Json, JsonView,
};
use crate::output::{output_view, QueryOutput};
use crate::request::{names, ref_views};
use crate::session::{
    request_view, CallBody, CallRequest, Connector, Pending, PendingView, Reply, ReplyView, Step,
    StepView,
};
use crate::text::{text_of, texts};
use vstd::prelude::*;

verus! {

proof fn lemma_member_at(members: Seq<(Seq<char>, JsonView)>, i: int)
    requires
        0 <= i < members.len(),
        forall|j: int| 0 <= j < i ==> (#[trigger] members[j]).0 != members[i].0,
    ensures
        member_of(members, members[i].0) == Some(members[i].1),
    decreases i,
{
    if i > 0 {
        let rest = members.drop_first();
        assert(members[0].0 != members[i].0);
        assert forall|j: int| 0 <= j < i - 1 implies (#[trigger] rest[j]).0 != rest[i - 1].0 by {
            assert(rest[j] == members[j + 1]);
        }
        lemma_member_at(rest, i - 1);
    }
}

proof fn lemma_no_member(members: Seq<(Seq<char>, JsonView)>, key: Seq<char>)
    requires
        forall|j: int| 0 <= j < members.len() ==> (#[trigger] members[j]).0 != key,
    ensures
        member_of(members, key) is None,
    decreases members.len(),
{
    if members.len() > 0 {
        let rest = members.drop_first();
        assert(members[0].0 != key);
        assert forall|j: int| 0 <= j < rest.len() implies (#[trigger] rest[j]).0 != key by {
            assert(rest[j] == members[j + 1]);
        }
        lemma_no_member(rest, key);
    }
}

/// A member of an object is found by its name, letter for letter, and the first of that
/// name counts.
pub proof fn law_members_are_found_by_name(members: Seq<(Seq<char>, JsonView)>, i: int)
    requires
        0 <= i < members.len(),
        forall|j: int| 0 <= j < i ==> (#[trigger] members[j]).0 != members[i].0,
    ensures
        JsonView::Object(members).get(members[i].0) == Some(members[i].1),
{
    lemma_member_at(members, i);
}

/// An object has no member of a name that none of its members has.
pub proof fn law_no_other_member_is_found(members: Seq<(Seq<char>, JsonView)>, key: Seq<char>)
    requires
        forall|j: int| 0 <= j < members.len() ==> (#[trigger] members[j]).0 != key,
    ensures
        JsonView::Object(members).get(key) is None,
{
    lemma_no_member(members, key);
}

/// Each kind of value is what it is and nothing else.
pub proof fn law_values_are_of_one_kind(value: JsonView, key: Seq<char>, t: Seq<char>, b: bool)
    ensures
        !(value is Object) ==> value.get(key) is None,
        value.as_str() == Some(t) <==> value == JsonView::String(t),
        value.as_bool() == Some(b) <==> value == JsonView::Bool(b),
        value.as_array() is Some <==> value is Array,
        value.as_array() is Some ==> value == JsonView::Array(value.as_array()->0),
        value.as_object() is Some <==> value is Object,
        value.as_object() is Some ==> value == JsonView::Object(value.as_object()->0),
        or_null(Some(value)) == value,
        or_null(None) == JsonView::Null,
        get_at(Some(value), key) == value.get(key),
        get_at(None, key) is None,
        str_at(Some(value)) == value.as_str(),
        str_at(None) is None,
        array_at(Some(value)) == value.as_array(),
        array_at(None) is None,
{
}

/// The model of a JSON value has the value's own text, items and members, all of them and
/// in their order.
pub proof fn law_values_are_shown_whole(
    b: bool,
    text: String,
    items: Vec<Json>,
    members: Vec<(String, Json)>,
    i: int,
    json: Json,
)
    ensures
        Json::Null@ == JsonView::Null,
        Json::Bool(b)@ == JsonView::Bool(b),
        Json::Number(text)@ == JsonView::Number(text@),
        Json::String(text)@ == JsonView::String(text@),
        Json::Array(items)@ is Array,
        Json::Array(items)@->Array_0.len() == items@.len(),
        0 <= i < items@.len() ==> Json::Array(items)@->Array_0[i] == items@[i]@,
        Json::Object(members)@ is Object,
        Json::Object(members)@->Object_0.len() == members@.len(),
        0 <= i < members@.len() ==> Json::Object(members)@->Object_0[i] == (
            members@[i].0@,
            members@[i].1@,
        ),
        views(items@).len() == items@.len(),
        0 <= i < items@.len() ==> views(items@)[i] == items@[i]@,
        member_views(members@).len() == members@.len(),
        0 <= i < members@.len() ==> member_views(members@)[i] == (
            members@[i].0@,
            members@[i].1@,
        ),
        content(Some(json)) == Some(json@),
        content(None) is None,
        borrowed(Some(&json)) == Some(json@),
        borrowed(None) is None,
{
    lemma_array_view(items);
    lemma_object_view(members);
}

/// The model of a list of texts has each of them, in order.
pub proof fn law_texts_are_shown_whole(
    strings: Seq<String>,
    fields: Seq<&str>,
    values: Seq<&Json>,
    string: String,
    slice: &str,
    i: int,
)
    ensures
        texts(strings).len() == strings.len(),
        0 <= i < strings.len() ==> texts(strings)[i] == strings[i]@,
        names(fields).len() == fields.len(),
        0 <= i < fields.len() ==> names(fields)[i] == fields[i]@,
        ref_views(values).len() == values.len(),
        0 <= i < values.len() ==> ref_views(values)[i] == values[i]@,
        text_of(Some(string)) == Some(string@),
        text_of(None) is None,
        str_text(Some(slice)) == Some(slice@),
        str_text(None) is None,
{
}

/// The model of a table has every column, every cell of every row, and the flag.
pub proof fn law_tables_are_shown_whole(output: QueryOutput, i: int, j: int)
    ensures
        output_view(output).columns.len() == output.0@.len(),
        0 <= i < output.0@.len() ==> output_view(output).columns[i] == output.0@[i]@,
        output_view(output).rows.len() == output.1@.len(),
        0 <= i < output.1@.len() ==> output_view(output).rows[i].len() == output.1@[i]@.len(),
        0 <= i < output.1@.len() && 0 <= j < output.1@[i]@.len()
            ==> output_view(output).rows[i][j] == output.1@[i]@[j]@,
        output_view(output).truncated == output.2,
{
}

/// The model of a configuration has its fields as they are, and that of an authorization
/// what it sends.
pub proof fn law_configurations_are_shown_whole(
    config: SearchConfig,
    connection: SearchConnection,
    text: String,
    password: Option<String>,
)
    ensures
        config@.base_url == config.base_url@,
        config@.username == text_of(config.username),
        config@.password == text_of(config.password),
        config@.api_key == text_of(config.api_key),
        config@.bearer_token == text_of(config.bearer_token),
        config@.redaction_values == texts(config.redaction_values@),
        connection@ == connection.config@,
        Authorization::Header(text)@ == AuthorizationView::Header(text@),
        Authorization::Bearer(text)@ == AuthorizationView::Bearer(text@),
        Authorization::Basic(text, password)@ == AuthorizationView::Basic(text@, text_of(password)),
        Authorization::Absent@ == AuthorizationView::Absent,
{
}

/// The model of a request to the server, and of what came of it, has all that they have.
pub proof fn law_requests_are_shown_whole(
    request: HttpRequest,
    status: u16,
    text: String,
)
    ensures
        request@.url == request.url@,
        request@.authorization == request.authorization@,
        request@.payload == content(request.payload),
        request@.body == request.body,
        HttpEvent::Aborted(text)@ == HttpEventView::Aborted(text@),
        HttpEvent::Failed(text)@ == HttpEventView::Failed(text@),
        HttpEvent::Unreadable(text)@ == HttpEventView::Unreadable(text@),
        (HttpEvent::Responded { status, text })@ == (HttpEventView::Responded {
            status,
            text: text@,
        }),
{
}

/// The model of a call, of its answer and of its steps has all that they have.
pub proof fn law_calls_are_shown_whole(
    connector: Connector,
    body: CallBody,
    call: CallRequest,
    members: Vec<(String, Json)>,
    text: String,
    code: String,
    reply: Reply,
    http: HttpRequest,
    pending: Pending,
)
    ensures
        connector@.engine == connector.engine@,
        connector@.abi_version == connector.abi_version@,
        connector@.driver_linked == connector.driver_linked,
        connector@.manifest_json == connector.manifest_json@,
        connector@.config_json == connector.config_json@,
        body@.connection_id == body.connection_id@,
        body@.sql == text_of(body.sql),
        body@.query == text_of(body.query),
        body@.statement == text_of(body.statement),
        body@.max_rows == body.max_rows,
        body@.value == body.value@,
        call@.method == call.method@,
        call.body is None ==> call@.body is None,
        call.body is Some ==> call@.body == Some(call.body->0@),
        request_view(Ok(call)) == Ok::<_, ReplyView>(call@),
        request_view(Err(reply)) matches Err(shown) && shown == reply@,
        Reply::Fields(members)@ == ReplyView::Fields(member_views(members@)),
        Reply::Raw(text)@ == ReplyView::Raw(text@),
        (Reply::Failure { code, message: text })@ == (ReplyView::Failure {
            code: code@,
            message: text@,
        }),
        Step::Answer(reply)@ == StepView::Answer(reply@),
        Step::Send(http, pending)@ == StepView::Send(http@, pending@),
{
}

/// The model of a waiting call has what it waits with.
pub proof fn law_waiting_calls_are_shown_whole(
    connection_id: String,
    connection: SearchConnection,
    statement: String,
    max_rows: usize,
    endpoint: usize,
    indices: Vec<(String, Json)>,
    entries: Vec<Json>,
)
    ensures
        (Pending::Connect { connection_id, connection })@ == (PendingView::Connect {
            id: connection_id@,
            config: connection@,
        }),
        (Pending::Query { connection_id, connection, statement, max_rows, endpoint })@ == (
        PendingView::Query {
            id: connection_id@,
            config: connection@,
            statement: statement@,
            max_rows: max_rows as nat,
            endpoint: endpoint as nat,
        }),
        (Pending::Indices { connection_id, connection })@ == (PendingView::Indices {
            id: connection_id@,
            config: connection@,
        }),
        (Pending::Mapping { connection_id, connection, indices, entries })@ == (
        PendingView::Mapping {
            id: connection_id@,
            config: connection@,
            indices: member_views(indices@),
            entries: views(entries@),
        }),
{
}

} // verus!
