//! What holds of calls as a whole: which connections are open, where requests go, and
//! what a run of a call comes to.

use crate::catalog::{index_columns, index_entry};
use crate::config::ConfigView;
use crate::http::HttpEventView;
use crate::json::{or_null, parsed, JsonView};
use crate::output::law_cap_only_cuts;
use crate::secrecy::{law_redaction_hides_secrets, maskable};
use crate::server::{
    endpoints, indices_outcome, indices_request, sql_outcome, version_outcome, SqlOutcomeView,
};
use crate::session::{
    close_fields, close_step, connections_after_first, connections_after_next,
    connections_after_opening, entered_step, opening_step, failure, first_step, metadata_fields,
    metadata_step, needs_body, next_step, not_found_reply, poisoned_reply, queried_step, query_at,
    query_fields, query_step, usable, CallBodyView, CallView, ConnectorView, PendingView, ReplyView,
    StepView,
};
use crate::text::holds;
use vstd::prelude::*;

verus! {

/// The connection that a waiting call uses.
pub open spec fn config_of(pending: PendingView) -> ConfigView {
    match pending {
        PendingView::Connect { config, .. } => config,
        PendingView::Query { config, .. } => config,
        PendingView::Indices { config, .. } => config,
        PendingView::Mapping { config, .. } => config,
    }
}

/// What a call comes to from a step on, as these events come of its requests.
pub open spec fn run(
    connector: ConnectorView,
    poisoned: bool,
    step: StepView,
    events: Seq<HttpEventView>,
) -> StepView
    decreases events.len(),
{
    match step {
        StepView::Send(_, pending) if events.len() > 0 => run(
            connector,
            poisoned,
            next_step(connector, poisoned, pending, events[0]),
            events.drop_first(),
        ),
        _ => step,
    }
}

/// A connect that succeeds keeps its connection under its id, and changes no other.
pub proof fn law_connect_keeps_the_connection(
    connector: ConnectorView,
    connections: Map<Seq<char>, ConfigView>,
    id: Seq<char>,
    config: ConfigView,
    event: HttpEventView,
    other: Seq<char>,
)
    requires
        version_outcome(connector.engine, event) is Ok,
        other != id,
    ensures
        ({
            let after = connections_after_next(
                connector,
                connections,
                false,
                PendingView::Connect { id, config },
                event,
            );
            &&& usable(after, false, id) == Ok::<_, ReplyView>(config)
            &&& usable(after, false, other) == usable(connections, false, other)
        }),
{
}

/// A query on a connection that was just opened goes to the server of that connection.
pub proof fn law_connect_enables_query(
    connector: ConnectorView,
    connections: Map<Seq<char>, ConfigView>,
    config: ConfigView,
    event: HttpEventView,
    body: CallBodyView,
)
    requires
        version_outcome(connector.engine, event) is Ok,
        body.text() is Some,
    ensures
        ({
            let id = body.connection_id;
            let after = connections_after_next(
                connector,
                connections,
                false,
                PendingView::Connect { id, config },
                event,
            );
            query_step(connector, after, false, body) == query_at(
                connector,
                id,
                config,
                body.text()->Some_0,
                body.max_rows,
                0,
            )
        }),
{
}

/// A connect that fails, and one that finds the open connections beyond use, keeps
/// nothing and is answered by a failure.
pub proof fn law_failed_connect_keeps_nothing(
    connector: ConnectorView,
    connections: Map<Seq<char>, ConfigView>,
    poisoned: bool,
    id: Seq<char>,
    config: ConfigView,
    event: HttpEventView,
)
    requires
        poisoned || version_outcome(connector.engine, event) is Err,
    ensures
        connections_after_next(
            connector,
            connections,
            poisoned,
            PendingView::Connect { id, config },
            event,
        ) == connections,
        next_step(connector, poisoned, PendingView::Connect { id, config }, event) matches
            StepView::Answer(ReplyView::Failure { .. }),
{
}

/// After a close the connection is gone: its id is not found any more, a second close
/// says that there was nothing to close, and the other connections are as they were.
pub proof fn law_close_forgets_the_connection(
    connections: Map<Seq<char>, ConfigView>,
    body: CallBodyView,
    other: Seq<char>,
)
    requires
        other != body.connection_id,
    ensures
        ({
            let id = body.connection_id;
            let after = connections_after_first(connections, false, "close"@, Some(body));
            &&& usable(after, false, id) == Err::<ConfigView, _>(not_found_reply(id))
            &&& close_step(after, false, body) == StepView::Answer(
                ReplyView::Fields(close_fields(id, false)),
            )
            &&& usable(after, false, other) == usable(connections, false, other)
        }),
{
}

/// The open connections after a call from a step on, as these events come of its
/// requests.
pub open spec fn connections_after_run(
    connector: ConnectorView,
    connections: Map<Seq<char>, ConfigView>,
    poisoned: bool,
    step: StepView,
    events: Seq<HttpEventView>,
) -> Map<Seq<char>, ConfigView>
    decreases events.len(),
{
    match step {
        StepView::Send(_, pending) if events.len() > 0 => connections_after_run(
            connector,
            connections_after_next(connector, connections, poisoned, pending, events[0]),
            poisoned,
            next_step(connector, poisoned, pending, events[0]),
            events.drop_first(),
        ),
        _ => connections,
    }
}

proof fn lemma_run_changes_no_connection(
    connector: ConnectorView,
    connections: Map<Seq<char>, ConfigView>,
    poisoned: bool,
    step: StepView,
    events: Seq<HttpEventView>,
)
    requires
        step matches StepView::Send(_, pending) ==> !(pending is Connect),
    ensures
        connections_after_run(connector, connections, poisoned, step, events) == connections,
    decreases events.len(),
{
    if let StepView::Send(_, pending) = step {
        if events.len() > 0 {
            lemma_run_changes_no_connection(
                connector,
                connections,
                poisoned,
                next_step(connector, poisoned, pending, events[0]),
                events.drop_first(),
            );
        }
    }
}

/// Nothing but a connect and a close changes which connections are open: any other call
/// leaves them as they are at its first step and at every later one, whatever the server
/// answers. So does a request that cannot be read, and its answer is the one that reading
/// it gave.
pub proof fn law_other_calls_change_no_connection(
    connector: ConnectorView,
    connections: Map<Seq<char>, ConfigView>,
    poisoned: bool,
    request: Result<CallView, ReplyView>,
    events: Seq<HttpEventView>,
)
    requires
        request matches Ok(call) ==> call.method != "connect"@ && call.method != "close"@,
    ensures
        ({
            let step = opening_step(connector, connections, poisoned, request);
            let after = connections_after_opening(connections, poisoned, request);
            &&& after == connections
            &&& connections_after_run(connector, after, poisoned, step, events) == connections
            &&& request matches Err(reply) ==> step == StepView::Answer(reply) && run(
                connector,
                poisoned,
                step,
                events,
            ) == StepView::Answer(reply)
        }),
{
    lemma_run_changes_no_connection(
        connector,
        connections,
        poisoned,
        opening_step(connector, connections, poisoned, request),
        events,
    );
}

/// Where the open connections cannot be relied on, whatever needs one of them is refused,
/// and none of them changes.
pub proof fn law_poisoned_connections_are_left_alone(
    connector: ConnectorView,
    connections: Map<Seq<char>, ConfigView>,
    method: Seq<char>,
    body: CallBodyView,
    pending: PendingView,
    event: HttpEventView,
)
    ensures
        body.text() is Some ==> query_step(connector, connections, true, body) == StepView::Answer(
            poisoned_reply(),
        ),
        metadata_step(connections, true, body) == StepView::Answer(poisoned_reply()),
        close_step(connections, true, body) == StepView::Answer(poisoned_reply()),
        connections_after_first(connections, true, method, Some(body)) == connections,
        connections_after_next(connector, connections, true, pending, event) == connections,
{
}

/// How many more requests a waiting call may send, once it knows what there is to ask.
pub open spec fn requests_left(connector: ConnectorView, pending: PendingView) -> int {
    match pending {
        PendingView::Query { endpoint, .. } => endpoints(connector.engine).len() - endpoint,
        PendingView::Mapping { indices, entries, .. } => indices.len() - entries.len(),
        _ => 0,
    }
}

/// Every call comes to an end: a waiting call that sends another request has fewer left
/// than before, and the list of the indices is asked for only once. A connect sends one
/// request only.
pub proof fn law_calls_come_to_an_end(
    connector: ConnectorView,
    poisoned: bool,
    pending: PendingView,
    event: HttpEventView,
)
    ensures
        next_step(connector, poisoned, pending, event) matches StepView::Send(_, next) ==> {
            &&& !(pending is Connect)
            &&& !(next is Connect) && !(next is Indices)
            &&& requests_left(connector, next) > 0
            &&& pending is Indices || requests_left(connector, next) < requests_left(
                connector,
                pending,
            )
        },
{
}

/// What the connector says of itself depends on no connection, and `ping` and
/// `capabilities` are other names of `health` and `describe`.
pub proof fn law_self_description_needs_no_connection(
    connector: ConnectorView,
    connections: Map<Seq<char>, ConfigView>,
    others: Map<Seq<char>, ConfigView>,
    poisoned: bool,
    method: Seq<char>,
    body: Option<CallBodyView>,
)
    requires
        !needs_body(method),
    ensures
        first_step(connector, connections, poisoned, method, body) == first_step(
            connector,
            others,
            false,
            method,
            None,
        ),
        first_step(connector, connections, poisoned, "ping"@, body) == first_step(
            connector,
            connections,
            poisoned,
            "health"@,
            body,
        ),
        first_step(connector, connections, poisoned, "capabilities"@, body) == first_step(
            connector,
            connections,
            poisoned,
            "describe"@,
            body,
        ),
{
    lemma_self_description_names();
}

proof fn lemma_self_description_names()
    ensures
        "capabilities"@ != "health"@,
        "capabilities"@ != "ping"@,
        "describe"@ != "health"@,
        "describe"@ != "ping"@,
{
    reveal_strlit("capabilities");
    reveal_strlit("describe");
    reveal_strlit("health");
    reveal_strlit("ping");
    assert("capabilities"@.len() == 12 && "describe"@.len() == 8 && "health"@.len() == 6
        && "ping"@.len() == 4);
}

/// Every request of a waiting call goes below the URL of its connection, authenticates
/// as the connection says, and leaves the call with the same connection.
pub proof fn law_requests_stay_with_the_connection(
    connector: ConnectorView,
    poisoned: bool,
    pending: PendingView,
    event: HttpEventView,
)
    ensures
        next_step(connector, poisoned, pending, event) matches StepView::Send(request, next)
            ==> {
            let config = config_of(pending);
            &&& config_of(next) == config
            &&& config.base_url.is_prefix_of(request.url)
            &&& request.authorization == config.authorization()
        },
{
    let config = config_of(pending);
    if let StepView::Send(request, next) = next_step(connector, poisoned, pending, event) {
        assert(request.url.subrange(0, config.base_url.len() as int) =~= config.base_url);
    }
}

/// The first request of a call goes below the URL of the connection that the call
/// then waits with, and authenticates as that connection says.
pub proof fn law_first_request_stays_with_the_connection(
    connector: ConnectorView,
    connections: Map<Seq<char>, ConfigView>,
    poisoned: bool,
    method: Seq<char>,
    body: Option<CallBodyView>,
)
    ensures
        first_step(connector, connections, poisoned, method, body) matches StepView::Send(
            request,
            pending,
        ) ==> {
            let config = config_of(pending);
            &&& config.base_url.is_prefix_of(request.url)
            &&& request.authorization == config.authorization()
        },
{
    if let StepView::Send(request, pending) = first_step(
        connector,
        connections,
        poisoned,
        method,
        body,
    ) {
        let config = config_of(pending);
        assert(request.url.subrange(0, config.base_url.len() as int) =~= config.base_url);
    }
}

/// Where the open connections can be relied on, no failure of a waiting call tells a
/// secret of its connection, whatever the server or the network said.
pub proof fn law_failures_tell_no_secret(
    connector: ConnectorView,
    pending: PendingView,
    event: HttpEventView,
    secret: Seq<char>,
)
    requires
        config_of(pending).redaction_values.contains(secret),
        maskable(secret),
    ensures
        next_step(connector, false, pending, event) matches StepView::Answer(
            ReplyView::Failure { message, .. },
        ) ==> !holds(message, secret),
{
    let config = config_of(pending);
    if let StepView::Answer(ReplyView::Failure { message, .. }) = next_step(
        connector,
        false,
        pending,
        event,
    ) {
        assert forall|text: Seq<char>| !holds(#[trigger] config.redacted(text), secret) by {
            law_redaction_hides_secrets(config, text, secret);
        }
    }
}

/// A query is answered with at most as many rows as it asked for.
pub proof fn law_answers_keep_to_max_rows(
    connector: ConnectorView,
    id: Seq<char>,
    config: ConfigView,
    statement: Seq<char>,
    max_rows: nat,
    endpoint: nat,
    event: HttpEventView,
)
    ensures
        queried_step(
            connector,
            id,
            config,
            statement,
            max_rows,
            endpoint,
            event,
        ) matches StepView::Answer(ReplyView::Fields(fields)) ==> fields[2].0 == "rows"@
            && fields[2].1->Array_0.len() <= max_rows,
{
    if let HttpEventView::Responded { status, text } = event {
        law_cap_only_cuts(
            or_null(parsed(text)),
            max_rows,
            max_rows,
        );
    }
}

/// What a query is answered where the endpoint of that event decides it.
pub open spec fn query_answer(
    connector: ConnectorView,
    id: Seq<char>,
    config: ConfigView,
    max_rows: nat,
    event: HttpEventView,
) -> ReplyView {
    match sql_outcome(connector.engine, event, max_rows) {
        SqlOutcomeView::Table(table) => ReplyView::Fields(query_fields(id, table)),
        SqlOutcomeView::Failed(message) => failure(
            "connector.queryFailed"@,
            config.redacted(message),
        ),
        SqlOutcomeView::NotThere(message) => failure(
            "connector.queryFailed"@,
            config.redacted(message),
        ),
    }
}

/// The endpoints are tried one after the other, each only after all before it were not
/// there. The first that is there decides the answer, and where none is there, the
/// last one does.
pub proof fn law_first_endpoint_there_decides(
    connector: ConnectorView,
    poisoned: bool,
    id: Seq<char>,
    config: ConfigView,
    statement: Seq<char>,
    max_rows: nat,
    first: nat,
    events: Seq<HttpEventView>,
)
    requires
        events.len() > 0,
        first + events.len() <= endpoints(connector.engine).len(),
        forall|k: int|
            0 <= k < events.len() - 1 ==> sql_outcome(
                connector.engine,
                #[trigger] events[k],
                max_rows,
            ) is NotThere,
        !(sql_outcome(connector.engine, events.last(), max_rows) is NotThere) || first
            + events.len() == endpoints(connector.engine).len(),
    ensures
        run(
            connector,
            poisoned,
            query_at(connector, id, config, statement, max_rows, first),
            events,
        ) == StepView::Answer(query_answer(connector, id, config, max_rows, events.last())),
    decreases events.len(),
{
    let step = query_at(connector, id, config, statement, max_rows, first);
    let rest = events.drop_first();
    let next = queried_step(connector, id, config, statement, max_rows, first, events[0]);
    assert(run(connector, poisoned, step, events) == run(connector, poisoned, next, rest));
    if events.len() > 1 {
        assert(next == query_at(connector, id, config, statement, max_rows, first + 1));
        assert forall|k: int| 0 <= k < rest.len() - 1 implies sql_outcome(
            connector.engine,
            #[trigger] rest[k],
            max_rows,
        ) is NotThere by {
            assert(rest[k] == events[k + 1]);
        }
        assert(rest.last() == events.last());
        law_first_endpoint_there_decides(
            connector,
            poisoned,
            id,
            config,
            statement,
            max_rows,
            first + 1,
            rest,
        );
    } else {
        assert(rest.len() == 0);
    }
}

/// The entries of the indices, as these events came of asking for their mappings.
pub open spec fn entries_of(
    engine: Seq<char>,
    indices: Seq<(Seq<char>, JsonView)>,
    events: Seq<HttpEventView>,
) -> Seq<JsonView> {
    Seq::new(
        indices.len(),
        |k: int|
            index_entry(
                indices[k].0,
                indices[k].1,
                index_columns(engine, indices[k].0, events[k]),
            ),
    )
}

proof fn lemma_mappings_complete_the_catalogue(
    connector: ConnectorView,
    poisoned: bool,
    id: Seq<char>,
    config: ConfigView,
    indices: Seq<(Seq<char>, JsonView)>,
    events: Seq<HttpEventView>,
    n: int,
)
    requires
        events.len() == indices.len(),
        forall|k: int| 0 <= k < events.len() ==> !(#[trigger] events[k] is Aborted),
        0 <= n <= indices.len(),
    ensures
        run(
            connector,
            poisoned,
            entered_step(id, config, indices, entries_of(connector.engine, indices, events).take(n)),
            events.skip(n),
        ) == StepView::Answer(ReplyView::Fields(metadata_fields(id, entries_of(connector.engine, indices, events)))),
    decreases indices.len() - n,
{
    let all = entries_of(connector.engine, indices, events);
    let step = entered_step(id, config, indices, all.take(n));
    if n == indices.len() {
        assert(all.take(n) =~= all);
    } else {
        let rest = events.skip(n);
        let pending = PendingView::Mapping { id, config, indices, entries: all.take(n) };
        assert(rest[0] == events[n]);
        assert(rest.drop_first() =~= events.skip(n + 1));
        assert(all.take(n).push(all[n]) =~= all.take(n + 1));
        assert(next_step(connector, poisoned, pending, rest[0]) == entered_step(
            id,
            config,
            indices,
            all.take(n + 1),
        ));
        lemma_mappings_complete_the_catalogue(
            connector,
            poisoned,
            id,
            config,
            indices,
            events,
            n + 1,
        );
    }
}

/// A request for the catalogue asks for the mapping of each index with a name, one
/// after the other, and is answered with one entry for each of them, in the order of
/// the list. A mapping that cannot be had costs the entry its columns, not the answer.
pub proof fn law_catalogue_has_every_named_index(
    connector: ConnectorView,
    poisoned: bool,
    id: Seq<char>,
    config: ConfigView,
    list: HttpEventView,
    events: Seq<HttpEventView>,
)
    requires
        indices_outcome(connector.engine, list) is Ok,
        events.len() == indices_outcome(connector.engine, list)->Ok_0.len(),
        forall|k: int| 0 <= k < events.len() ==> !(#[trigger] events[k] is Aborted),
    ensures
        run(
            connector,
            poisoned,
            StepView::Send(indices_request(config), PendingView::Indices { id, config }),
            seq![list] + events,
        ) == StepView::Answer(
            ReplyView::Fields(
                metadata_fields(
                    id,
                    entries_of(
                        connector.engine,
                        indices_outcome(connector.engine, list)->Ok_0,
                        events,
                    ),
                ),
            ),
        ),
{
    let indices = indices_outcome(connector.engine, list)->Ok_0;
    let all = seq![list] + events;
    assert(all[0] == list);
    assert(all.drop_first() =~= events);
    assert(events.skip(0) =~= events);
    assert(entries_of(connector.engine, indices, events).take(0) =~= Seq::empty());
    lemma_mappings_complete_the_catalogue(connector, poisoned, id, config, indices, events, 0);
}

} // verus!
