//! What connection options a request gives, in terms of its members, and what becomes of
//! them: the server's URL, the credentials, and the secrets.

use crate::config::{
    requested_config, requested_url, url_auth, with_parts, with_sensitive, with_url_auth,
    AuthorizationView, ConfigView,
};
use crate::json::JsonView;
use crate::laws::texts::{
    bare, law_a_bare_text_is_not_trimmed, law_texts_are_cut_at_the_first_place,
    law_what_follows_the_first_place, repeated,
};
use crate::request::{
    containers, field_flag, field_text, first_field_flag, first_field_text, first_flag, first_text,
    flag_option, one, text_option,
};
use crate::secrecy::{law_credentials_are_secrets, law_options_are_trimmed, lemma_authority};
use crate::text::{holds, occurs_at, replaced, split, trimmed, without_trailing};
use vstd::prelude::*;

verus! {

/// The member `key` of the value, where there is a value.
pub open spec fn below(value: Option<JsonView>, key: Seq<char>) -> Option<JsonView> {
    match value {
        Some(v) => v.get(key),
        None => None,
    }
}

/// The places of a request that are asked for an option, in the order in which they are
/// asked, as far as they are there: the request, its profile, its options, its auth, its
/// secrets, and the options, auth and secrets of its profile.
pub open spec fn places(request: JsonView) -> Seq<Option<JsonView>> {
    let profile = request.get("profile"@);
    seq![
        Some(request),
        profile,
        request.get("options"@),
        request.get("auth"@),
        request.get("secrets"@),
        below(profile, "options"@),
        below(profile, "auth"@),
        below(profile, "secrets"@),
    ]
}

/// The member `field` of the place is the text: a string or a number, without the white
/// space around it and not empty, or a boolean.
pub open spec fn field_says(place: JsonView, field: Seq<char>, text: Seq<char>) -> bool {
    match place.get(field) {
        Some(JsonView::String(s)) => text.len() > 0 && text == trimmed(s),
        Some(JsonView::Number(s)) => text.len() > 0 && text == trimmed(s),
        Some(JsonView::Bool(true)) => text == "true"@,
        Some(JsonView::Bool(false)) => text == "false"@,
        _ => false,
    }
}

/// The place has no text in the member `field`.
pub open spec fn field_silent(place: JsonView, field: Seq<char>) -> bool {
    match place.get(field) {
        Some(JsonView::String(s)) => trimmed(s).len() == 0,
        Some(JsonView::Number(s)) => trimmed(s).len() == 0,
        Some(JsonView::Bool(_)) => false,
        _ => true,
    }
}

/// The place has the text in the first of these members that has one.
pub open spec fn place_says(place: JsonView, fields: Seq<Seq<char>>, text: Seq<char>) -> bool {
    exists|j: int|
        0 <= j < fields.len() && field_says(place, #[trigger] fields[j], text) && forall|i: int|
            0 <= i < j ==> field_silent(place, #[trigger] fields[i])
}

/// The place has no text in any of these members, or is not there.
pub open spec fn place_silent(place: Option<JsonView>, fields: Seq<Seq<char>>) -> bool {
    place is Some ==> forall|i: int|
        0 <= i < fields.len() ==> field_silent(place->0, #[trigger] fields[i])
}

/// Place `k` of the request is the first that has a text in any of these members, and
/// this is the text.
pub open spec fn says_at(
    request: JsonView,
    fields: Seq<Seq<char>>,
    text: Seq<char>,
    k: int,
) -> bool {
    &&& 0 <= k < 8
    &&& places(request)[k] is Some
    &&& place_says(places(request)[k]->0, fields, text)
    &&& forall|i: int| 0 <= i < k ==> place_silent(#[trigger] places(request)[i], fields)
}

/// The request gives the text under these names.
pub open spec fn says(request: JsonView, fields: Seq<Seq<char>>, text: Seq<char>) -> bool {
    exists|k: int| says_at(request, fields, text, k)
}

/// The request gives no text under these names.
pub open spec fn silent(request: JsonView, fields: Seq<Seq<char>>) -> bool {
    forall|k: int| 0 <= k < 8 ==> place_silent(#[trigger] places(request)[k], fields)
}

/// The places that are there, in order.
spec fn there(all: Seq<Option<JsonView>>) -> Seq<JsonView>
    decreases all.len(),
{
    if all.len() == 0 {
        Seq::empty()
    } else {
        match all[0] {
            Some(place) => seq![place] + there(all.drop_first()),
            None => there(all.drop_first()),
        }
    }
}

proof fn lemma_there_add(a: Seq<Option<JsonView>>, b: Seq<Option<JsonView>>)
    ensures
        there(a + b) == there(a) + there(b),
    decreases a.len(),
{
    if a.len() == 0 {
        assert(a + b =~= b);
        assert(there(a) + there(b) =~= there(b));
    } else {
        assert((a + b).drop_first() =~= a.drop_first() + b);
        lemma_there_add(a.drop_first(), b);
        assert(there(a + b) =~= there(a) + there(b));
    }
}

proof fn lemma_there_push(a: Seq<Option<JsonView>>, place: Option<JsonView>)
    ensures
        there(a.push(place)) == there(a) + one(place),
{
    let last = seq![place];
    assert(a.push(place) =~= a + last);
    lemma_there_add(a, last);
    assert(last.drop_first() =~= Seq::empty());
    assert(there(last) =~= one(place)) by {
        reveal_with_fuel(there, 2);
    }
}

proof fn lemma_containers(request: JsonView)
    ensures
        containers(request) == there(places(request)),
{
    let all = places(request);
    let none = Seq::<Option<JsonView>>::empty();
    let a = none.push(all[0]);
    let b = a.push(all[1]);
    let c = b.push(all[2]);
    let d = c.push(all[3]);
    let e = d.push(all[4]);
    let f = e.push(all[5]);
    let g = f.push(all[6]);
    let h = g.push(all[7]);
    lemma_there_push(none, all[0]);
    lemma_there_push(a, all[1]);
    lemma_there_push(b, all[2]);
    lemma_there_push(c, all[3]);
    lemma_there_push(d, all[4]);
    lemma_there_push(e, all[5]);
    lemma_there_push(f, all[6]);
    lemma_there_push(g, all[7]);
    assert(h =~= all);
    assert(there(none) + one(all[0]) =~= one(all[0]));
}

proof fn lemma_field(place: JsonView, field: Seq<char>)
    ensures
        field_silent(place, field) <==> field_text(place, field) is None,
        forall|text: Seq<char>| #[trigger]
            field_says(place, field, text) ==> field_text(place, field) == Some(text),
{
    reveal_strlit("true");
    reveal_strlit("false");
    assert(bare("true"@));
    assert(bare("false"@));
    law_a_bare_text_is_not_trimmed("true"@);
    law_a_bare_text_is_not_trimmed("false"@);
}

proof fn lemma_place_silent(place: JsonView, fields: Seq<Seq<char>>)
    requires
        place_silent(Some(place), fields),
    ensures
        first_field_text(place, fields) is None,
    decreases fields.len(),
{
    if fields.len() > 0 {
        let rest = fields.drop_first();
        lemma_field(place, fields[0]);
        assert(field_silent(place, fields[0]));
        assert forall|i: int| 0 <= i < rest.len() implies field_silent(
            place,
            #[trigger] rest[i],
        ) by {
            assert(rest[i] == fields[i + 1]);
        }
        lemma_place_silent(place, rest);
    }
}

proof fn lemma_place_says(place: JsonView, fields: Seq<Seq<char>>, text: Seq<char>, j: int)
    requires
        0 <= j < fields.len(),
        field_says(place, fields[j], text),
        forall|i: int| 0 <= i < j ==> field_silent(place, #[trigger] fields[i]),
    ensures
        first_field_text(place, fields) == Some(text),
    decreases j,
{
    lemma_field(place, fields[0]);
    if j > 0 {
        let rest = fields.drop_first();
        assert(field_silent(place, fields[0]));
        assert forall|i: int| 0 <= i < j - 1 implies field_silent(place, #[trigger] rest[i]) by {
            assert(rest[i] == fields[i + 1]);
        }
        lemma_place_says(place, rest, text, j - 1);
    }
}

proof fn lemma_says_at(
    all: Seq<Option<JsonView>>,
    fields: Seq<Seq<char>>,
    text: Seq<char>,
    k: int,
)
    requires
        0 <= k < all.len(),
        all[k] is Some,
        place_says(all[k]->0, fields, text),
        forall|i: int| 0 <= i < k ==> place_silent(#[trigger] all[i], fields),
    ensures
        first_text(there(all), fields) == Some(text),
    decreases all.len(),
{
    let rest = all.drop_first();
    if k == 0 {
        let place = all[0]->0;
        let j = choose|j: int|
            0 <= j < fields.len() && field_says(place, #[trigger] fields[j], text) && forall|i: int|
                0 <= i < j ==> field_silent(place, #[trigger] fields[i]);
        lemma_place_says(place, fields, text, j);
        assert(there(all)[0] == place);
    } else {
        assert(place_silent(all[0], fields));
        assert forall|i: int| 0 <= i < k - 1 implies place_silent(#[trigger] rest[i], fields) by {
            assert(rest[i] == all[i + 1]);
        }
        lemma_says_at(rest, fields, text, k - 1);
        if let Some(place) = all[0] {
            lemma_place_silent(place, fields);
            assert(there(all).drop_first() =~= there(rest));
        }
    }
}

proof fn lemma_silent(all: Seq<Option<JsonView>>, fields: Seq<Seq<char>>)
    requires
        forall|k: int| 0 <= k < all.len() ==> place_silent(#[trigger] all[k], fields),
    ensures
        first_text(there(all), fields) is None,
    decreases all.len(),
{
    if all.len() > 0 {
        let rest = all.drop_first();
        assert(place_silent(all[0], fields));
        assert forall|k: int| 0 <= k < rest.len() implies place_silent(#[trigger] rest[k], fields) by {
            assert(rest[k] == all[k + 1]);
        }
        lemma_silent(rest, fields);
        if let Some(place) = all[0] {
            lemma_place_silent(place, fields);
            assert(there(all).drop_first() =~= there(rest));
        }
    }
}

/// A text option is what the first of the places says that has it, and there is none
/// where all of them are silent.
pub proof fn law_options_come_from_the_places(
    request: JsonView,
    fields: Seq<Seq<char>>,
    text: Seq<char>,
)
    ensures
        says(request, fields, text) ==> text_option(request, fields) == Some(text),
        silent(request, fields) ==> text_option(request, fields) is None,
{
    lemma_containers(request);
    if says(request, fields, text) {
        let k = choose|k: int| says_at(request, fields, text, k);
        lemma_says_at(places(request), fields, text, k);
    }
    if silent(request, fields) {
        lemma_silent(places(request), fields);
    }
}

/// A string that is more than white space, in a member of one of the places, is the option
/// without the white space around it, where no place before has the option.
pub proof fn law_an_option_is_found_in_any_place(
    request: JsonView,
    field: Seq<char>,
    text: Seq<char>,
    k: int,
)
    requires
        0 <= k < 8,
        places(request)[k] is Some,
        places(request)[k]->0.get(field) == Some(JsonView::String(text)),
        trimmed(text).len() > 0,
        forall|i: int| 0 <= i < k ==> place_silent(#[trigger] places(request)[i], seq![field]),
    ensures
        text_option(request, seq![field]) == Some(trimmed(text)),
{
    assert(field_says(places(request)[k]->0, seq![field][0], trimmed(text)));
    assert(says_at(request, seq![field], trimmed(text), k));
    law_options_come_from_the_places(request, seq![field], trimmed(text));
}

/// Place `k` of the request is the first that has a boolean in any of these members, and
/// this is the boolean.
pub open spec fn flags_at(request: JsonView, fields: Seq<Seq<char>>, flag: bool, k: int) -> bool {
    &&& 0 <= k < 8
    &&& places(request)[k] is Some
    &&& place_flags(places(request)[k]->0, fields, flag)
    &&& forall|i: int| 0 <= i < k ==> place_flagless(#[trigger] places(request)[i], fields)
}

/// The place has the boolean in the first of these members that is one.
pub open spec fn place_flags(place: JsonView, fields: Seq<Seq<char>>, flag: bool) -> bool {
    exists|j: int|
        0 <= j < fields.len() && place.get(#[trigger] fields[j]) == Some(JsonView::Bool(flag))
            && forall|i: int|
            0 <= i < j ==> !(place.get(#[trigger] fields[i]) matches Some(JsonView::Bool(_)))
}

/// The place has no boolean in any of these members, or is not there.
pub open spec fn place_flagless(place: Option<JsonView>, fields: Seq<Seq<char>>) -> bool {
    place is Some ==> forall|i: int|
        0 <= i < fields.len() ==> !(place->0.get(#[trigger] fields[i]) matches Some(
            JsonView::Bool(_),
        ))
}

/// The request gives the boolean under these names.
pub open spec fn flags(request: JsonView, fields: Seq<Seq<char>>, flag: bool) -> bool {
    exists|k: int| flags_at(request, fields, flag, k)
}

/// The request gives no boolean under these names.
pub open spec fn flagless(request: JsonView, fields: Seq<Seq<char>>) -> bool {
    forall|k: int| 0 <= k < 8 ==> place_flagless(#[trigger] places(request)[k], fields)
}

proof fn lemma_place_flagless(place: JsonView, fields: Seq<Seq<char>>)
    requires
        place_flagless(Some(place), fields),
    ensures
        first_field_flag(place, fields) is None,
    decreases fields.len(),
{
    if fields.len() > 0 {
        let rest = fields.drop_first();
        assert(!(place.get(fields[0]) matches Some(JsonView::Bool(_))));
        assert(field_flag(place, fields[0]) is None);
        assert forall|i: int| 0 <= i < rest.len() implies !(place.get(#[trigger] rest[i]) matches Some(
            JsonView::Bool(_),
        )) by {
            assert(rest[i] == fields[i + 1]);
        }
        lemma_place_flagless(place, rest);
    }
}

proof fn lemma_place_flags(place: JsonView, fields: Seq<Seq<char>>, flag: bool, j: int)
    requires
        0 <= j < fields.len(),
        place.get(fields[j]) == Some(JsonView::Bool(flag)),
        forall|i: int|
            0 <= i < j ==> !(place.get(#[trigger] fields[i]) matches Some(JsonView::Bool(_))),
    ensures
        first_field_flag(place, fields) == Some(flag),
    decreases j,
{
    if j > 0 {
        let rest = fields.drop_first();
        assert(!(place.get(fields[0]) matches Some(JsonView::Bool(_))));
        assert(field_flag(place, fields[0]) is None);
        assert forall|i: int| 0 <= i < j - 1 implies !(place.get(#[trigger] rest[i]) matches Some(
            JsonView::Bool(_),
        )) by {
            assert(rest[i] == fields[i + 1]);
        }
        lemma_place_flags(place, rest, flag, j - 1);
    }
}

proof fn lemma_flags_at(all: Seq<Option<JsonView>>, fields: Seq<Seq<char>>, flag: bool, k: int)
    requires
        0 <= k < all.len(),
        all[k] is Some,
        place_flags(all[k]->0, fields, flag),
        forall|i: int| 0 <= i < k ==> place_flagless(#[trigger] all[i], fields),
    ensures
        first_flag(there(all), fields) == Some(flag),
    decreases all.len(),
{
    let rest = all.drop_first();
    if k == 0 {
        let place = all[0]->0;
        let j = choose|j: int|
            0 <= j < fields.len() && place.get(#[trigger] fields[j]) == Some(JsonView::Bool(flag))
                && forall|i: int|
                0 <= i < j ==> !(place.get(#[trigger] fields[i]) matches Some(JsonView::Bool(_)));
        lemma_place_flags(place, fields, flag, j);
        assert(there(all)[0] == place);
    } else {
        assert(place_flagless(all[0], fields));
        assert forall|i: int| 0 <= i < k - 1 implies place_flagless(#[trigger] rest[i], fields) by {
            assert(rest[i] == all[i + 1]);
        }
        lemma_flags_at(rest, fields, flag, k - 1);
        if let Some(place) = all[0] {
            lemma_place_flagless(place, fields);
            assert(there(all).drop_first() =~= there(rest));
        }
    }
}

proof fn lemma_flagless(all: Seq<Option<JsonView>>, fields: Seq<Seq<char>>)
    requires
        forall|k: int| 0 <= k < all.len() ==> place_flagless(#[trigger] all[k], fields),
    ensures
        first_flag(there(all), fields) is None,
    decreases all.len(),
{
    if all.len() > 0 {
        let rest = all.drop_first();
        assert(place_flagless(all[0], fields));
        assert forall|k: int| 0 <= k < rest.len() implies place_flagless(
            #[trigger] rest[k],
            fields,
        ) by {
            assert(rest[k] == all[k + 1]);
        }
        lemma_flagless(rest, fields);
        if let Some(place) = all[0] {
            lemma_place_flagless(place, fields);
            assert(there(all).drop_first() =~= there(rest));
        }
    }
}

/// A flag is what the first of the places says that has a boolean for it, and there is
/// none where no place has one.
pub proof fn law_flags_come_from_the_places(request: JsonView, fields: Seq<Seq<char>>, flag: bool)
    ensures
        flags(request, fields, flag) ==> flag_option(request, fields) == Some(flag),
        flagless(request, fields) ==> flag_option(request, fields) is None,
{
    lemma_containers(request);
    if flags(request, fields, flag) {
        let k = choose|k: int| flags_at(request, fields, flag, k);
        lemma_flags_at(places(request), fields, flag, k);
    }
    if flagless(request, fields) {
        lemma_flagless(places(request), fields);
    }
}

/// The user, the password, the API key and the bearer token of a configuration are what
/// the request says under their names, and are absent where it says nothing.
pub proof fn law_credentials_come_from_the_request(request: JsonView, text: Seq<char>)
    ensures
        ({
            let config = requested_config(request);
            let user = seq!["user"@, "username"@];
            let password = seq!["password"@];
            let key = seq!["apiKey"@, "api_key"@];
            let token = seq!["token"@, "bearerToken"@, "accessToken"@];
            &&& says(request, user, text) ==> config.username == Some(text)
            &&& silent(request, user) ==> config.username is None
            &&& says(request, password, text) ==> config.password == Some(text)
            &&& silent(request, password) ==> config.password is None
            &&& says(request, key, text) ==> config.api_key == Some(text)
            &&& silent(request, key) ==> config.api_key is None
            &&& says(request, token, text) ==> config.bearer_token == Some(text)
            &&& silent(request, token) ==> config.bearer_token is None
        }),
{
    law_options_come_from_the_places(request, seq!["user"@, "username"@], text);
    law_options_come_from_the_places(request, seq!["password"@], text);
    law_options_come_from_the_places(request, seq!["apiKey"@, "api_key"@], text);
    law_options_come_from_the_places(
        request,
        seq!["token"@, "bearerToken"@, "accessToken"@],
        text,
    );
}

/// A password that stands in one of the places is the password of the configuration,
/// where no place before has one; so it is in the secrets of the profile.
pub proof fn law_a_password_is_found_in_any_place(request: JsonView, text: Seq<char>, k: int)
    requires
        0 <= k < 8,
        places(request)[k] is Some,
        places(request)[k]->0.get("password"@) == Some(JsonView::String(text)),
        trimmed(text).len() > 0,
        forall|i: int|
            0 <= i < k ==> place_silent(#[trigger] places(request)[i], seq!["password"@]),
    ensures
        requested_config(request).password == Some(trimmed(text)),
{
    law_an_option_is_found_in_any_place(request, "password"@, text, k);
}

/// `base` is the URL without the slashes at its end.
pub open spec fn without_slashes(url: Seq<char>, base: Seq<char>) -> bool {
    &&& base.len() > 0 ==> base.last() != '/'
    &&& exists|n: nat| url == base + #[trigger] repeated('/', n)
}

proof fn lemma_without_slashes(url: Seq<char>)
    ensures
        without_slashes(url, without_trailing(url, '/')),
    decreases url.len(),
{
    let base = without_trailing(url, '/');
    if url.len() > 0 && url.last() == '/' {
        lemma_without_slashes(url.drop_last());
        let n = choose|n: nat| url.drop_last() == base + #[trigger] repeated('/', n);
        assert(url =~= url.drop_last().push('/'));
        assert(base + repeated('/', n + 1) =~= (base + repeated('/', n)).push('/'));
    } else {
        assert(url =~= base + repeated('/', 0));
    }
}

/// The URL that a request says under `connectionString`, `url` or `dsn` is the one of its
/// configuration, without the slashes at its end.
pub proof fn law_a_named_url_is_used(request: JsonView, url: Seq<char>)
    requires
        says(request, seq!["connectionString"@, "url"@, "dsn"@], url),
    ensures
        without_slashes(url, requested_config(request).base_url),
        requested_url(request) == url,
{
    law_options_come_from_the_places(request, seq!["connectionString"@, "url"@, "dsn"@], url);
    lemma_without_slashes(url);
}

/// A connection string in the request itself is the URL, trimmed and without the slashes
/// at its end. Where there is none, a `url` is, and where there is none either, a `dsn`.
pub proof fn law_a_connection_string_is_the_url(request: JsonView, text: Seq<char>)
    requires
        trimmed(text).len() > 0,
        ({
            ||| request.get("connectionString"@) == Some(JsonView::String(text))
            ||| request.get("connectionString"@) is None && request.get("url"@) == Some(
                JsonView::String(text),
            )
            ||| request.get("connectionString"@) is None && request.get("url"@) is None
                && request.get("dsn"@) == Some(JsonView::String(text))
        }),
    ensures
        without_slashes(trimmed(text), requested_config(request).base_url),
{
    let fields = seq!["connectionString"@, "url"@, "dsn"@];
    let url = trimmed(text);
    let place = places(request)[0]->0;
    assert(place_says(place, fields, url)) by {
        if request.get("connectionString"@) == Some(JsonView::String(text)) {
            assert(field_says(place, fields[0], url));
        } else if request.get("url"@) == Some(JsonView::String(text)) {
            assert(field_says(place, fields[1], url));
        } else {
            assert(field_says(place, fields[2], url));
        }
    }
    assert(says_at(request, fields, url, 0));
    law_a_named_url_is_used(request, url);
}

/// Where a request says no URL, its host, port and TLS flag make one; the local host,
/// port 9200 and no TLS stand in for what it does not say.
pub proof fn law_host_and_port_make_the_url(
    request: JsonView,
    host: Seq<char>,
    port: Seq<char>,
    tls: bool,
)
    requires
        silent(request, seq!["connectionString"@, "url"@, "dsn"@]),
        says(request, seq!["host"@, "endpoint"@], host) || (silent(
            request,
            seq!["host"@, "endpoint"@],
        ) && host == "127.0.0.1"@),
        says(request, seq!["port"@], port) || (silent(request, seq!["port"@]) && port == "9200"@),
        flags(request, seq!["tls"@, "ssl"@], tls) || (flagless(request, seq!["tls"@, "ssl"@])
            && !tls),
    ensures
        ({
            let scheme = if tls {
                "https://"@
            } else {
                "http://"@
            };
            &&& requested_url(request) == scheme + host + ":"@ + port
            &&& without_slashes(scheme + host + ":"@ + port, requested_config(request).base_url)
        }),
{
    law_options_come_from_the_places(request, seq!["connectionString"@, "url"@, "dsn"@], host);
    law_options_come_from_the_places(request, seq!["host"@, "endpoint"@], host);
    law_options_come_from_the_places(request, seq!["port"@], port);
    law_flags_come_from_the_places(request, seq!["tls"@, "ssl"@], tls);
    let scheme = if tls {
        "https://"@
    } else {
        "http://"@
    };
    reveal_strlit("https://");
    reveal_strlit("http://");
    reveal_strlit("https");
    reveal_strlit("http");
    reveal_strlit("://");
    assert("https://"@ =~= "https"@ + "://"@);
    assert("http://"@ =~= "http"@ + "://"@);
    assert(requested_url(request) =~= scheme + host + ":"@ + port);
    lemma_without_slashes(requested_url(request));
}

/// A request to the server authenticates by the API key where there is one, else by the
/// bearer token, else as the user with the password, and not at all without a user.
pub proof fn law_credentials_have_an_order(config: ConfigView, text: Seq<char>)
    ensures
        config.api_key == Some(text) ==> config.authorization() == AuthorizationView::Header(
            "ApiKey "@ + text,
        ),
        config.api_key is None && config.bearer_token == Some(text) ==> config.authorization()
            == AuthorizationView::Bearer(text),
        config.api_key is None && config.bearer_token is None && config.username == Some(text)
            ==> config.authorization() == AuthorizationView::Basic(text, config.password),
        config.api_key is None && config.bearer_token is None && config.username is None
            ==> config.authorization() == AuthorizationView::Absent,
{
}

/// Redaction puts `<search-url>` in the place of the URL, and then `****` in the place of
/// each secret, the first secret first. The empty text is no secret.
pub proof fn law_redaction_masks_one_after_the_other(
    config: ConfigView,
    message: Seq<char>,
    secret: Seq<char>,
)
    ensures
        ({
            let bare = ConfigView { redaction_values: Seq::empty(), ..config };
            let more = ConfigView {
                redaction_values: config.redaction_values.push(secret),
                ..config
            };
            &&& bare.redacted(message) == replaced(message, config.base_url, "<search-url>"@)
            &&& more.redacted(message) == if secret.len() == 0 {
                config.redacted(message)
            } else {
                replaced(config.redacted(message), secret, "****"@)
            }
        }),
{
    assert(config.redaction_values.push(secret).drop_last() =~= config.redaction_values);
}

/// The text is a piece of `auth` between its colons.
pub open spec fn piece(auth: Seq<char>, text: Seq<char>, i: int, j: int) -> bool {
    &&& 0 <= i <= j <= auth.len()
    &&& text == auth.subrange(i, j)
    &&& !text.contains(':')
    &&& i == 0 || auth[i - 1] == ':'
    &&& j == auth.len() || auth[j] == ':'
}

/// The value is what is left of a piece of `auth` without the white space around it.
pub open spec fn trimmed_piece(auth: Seq<char>, value: Seq<char>) -> bool {
    exists|i: int, j: int| #[trigger]
        piece(auth, auth.subrange(i, j), i, j) && trimmed(auth.subrange(i, j)) == value
}

proof fn lemma_split_pieces(auth: Seq<char>, k: int)
    requires
        0 <= k < split(auth, ':').len(),
    ensures
        exists|i: int, j: int| #[trigger] piece(auth, split(auth, ':')[k], i, j),
    decreases auth.len(),
{
    let parts = split(auth, ':');
    if auth.contains(':') {
        let at = choose|at: int| first_colon(auth, at);
        lemma_first_colon(auth);
        let head = auth.take(at);
        let rest = auth.skip(at + 1);
        assert(auth =~= head + seq![':'] + rest);
        law_texts_are_cut_at_the_first_place(head, ':', rest);
        if k == 0 {
            assert(auth.subrange(0, at) =~= head);
            assert(piece(auth, parts[0], 0, at));
        } else {
            assert(parts[k] == split(rest, ':')[k - 1]);
            lemma_split_pieces(rest, k - 1);
            let (i, j) = choose|i: int, j: int| #[trigger] piece(rest, parts[k], i, j);
            assert(auth.subrange(at + 1 + i, at + 1 + j) =~= rest.subrange(i, j));
            assert(piece(auth, parts[k], at + 1 + i, at + 1 + j));
        }
    } else {
        law_texts_are_cut_at_the_first_place(auth, ':', Seq::empty());
        assert(auth.subrange(0, auth.len() as int) =~= auth);
        assert(piece(auth, parts[0], 0, auth.len() as int));
    }
}

/// The first colon stands there.
spec fn first_colon(auth: Seq<char>, at: int) -> bool {
    0 <= at < auth.len() && auth[at] == ':' && !auth.take(at).contains(':')
}

proof fn lemma_first_colon(auth: Seq<char>)
    requires
        auth.contains(':'),
    ensures
        exists|at: int| first_colon(auth, at),
    decreases auth.len(),
{
    if auth[0] == ':' {
        assert(first_colon(auth, 0));
    } else {
        let tail = auth.drop_first();
        let i = choose|i: int| 0 <= i < auth.len() && auth[i] == ':';
        assert(tail[i - 1] == ':');
        lemma_first_colon(tail);
        let at = choose|at: int| first_colon(tail, at);
        let front = auth.take(at + 1);
        assert(!front.contains(':')) by {
            if front.contains(':') {
                let k = choose|k: int| 0 <= k < front.len() && front[k] == ':';
                assert(tail.take(at)[k - 1] == ':');
            }
        }
        assert(first_colon(auth, at + 1));
    }
}

proof fn lemma_piece_is_split(auth: Seq<char>, i: int, j: int)
    requires
        piece(auth, auth.subrange(i, j), i, j),
    ensures
        split(auth, ':').contains(auth.subrange(i, j)),
    decreases auth.len(),
{
    let text = auth.subrange(i, j);
    let parts = split(auth, ':');
    if auth.contains(':') {
        lemma_first_colon(auth);
        let at = choose|at: int| first_colon(auth, at);
        let head = auth.take(at);
        let rest = auth.skip(at + 1);
        assert(auth =~= head + seq![':'] + rest);
        law_texts_are_cut_at_the_first_place(head, ':', rest);
        if i <= at {
            assert(i == 0) by {
                if i > 0 {
                    assert(auth.take(at)[i - 1] == ':');
                }
            }
            assert(j == at) by {
                if j < at {
                    assert(auth.take(at)[j] == ':');
                }
                if j > at {
                    assert(text[at] == ':');
                }
            }
            assert(text =~= head);
            assert(parts[0] == text);
        } else {
            assert(rest.subrange(i - at - 1, j - at - 1) =~= text);
            assert(piece(rest, text, i - at - 1, j - at - 1));
            lemma_piece_is_split(rest, i - at - 1, j - at - 1);
            let k = choose|k: int| 0 <= k < split(rest, ':').len() && split(rest, ':')[k] == text;
            assert(parts[k + 1] == text);
        }
    } else {
        law_texts_are_cut_at_the_first_place(auth, ':', Seq::empty());
        assert(i == 0) by {
            if i > 0 {
                assert(auth.contains(auth[i - 1]));
            }
        }
        assert(j == auth.len()) by {
            if j < auth.len() {
                assert(auth.contains(auth[j]));
            }
        }
        assert(text =~= auth);
        assert(parts[0] == text);
    }
}

/// A value joins the secrets without the white space around it, behind those that are
/// there, and only where something is left of it that is not there yet.
pub proof fn law_a_secret_is_added_once(
    values: Seq<Seq<char>>,
    value: Option<Seq<char>>,
    v: Seq<char>,
)
    ensures
        values.no_duplicates() ==> with_sensitive(values, value).no_duplicates(),
        with_sensitive(values, value).len() <= values.len() + 1,
        with_sensitive(values, value).contains(v) <==> values.contains(v) || (v.len() > 0 && value
            is Some && trimmed(value->0) == v),
        values.is_prefix_of(with_sensitive(values, value)),
{
    let after = with_sensitive(values, value);
    if values.contains(v) {
        let i = choose|i: int| 0 <= i < values.len() && values[i] == v;
        assert(after[i] == v);
    }
    if after.contains(v) && !values.contains(v) {
        let i = choose|i: int| 0 <= i < after.len() && after[i] == v;
        if i < values.len() {
            assert(values[i] == v);
        }
    }
    if value is Some && trimmed(value->0) == v && v.len() > 0 && !values.contains(v) {
        assert(after.last() == v);
    }
}

proof fn lemma_with_parts_holds(values: Seq<Seq<char>>, parts: Seq<Seq<char>>, v: Seq<char>)
    ensures
        with_parts(values, parts).contains(v) <==> values.contains(v) || (v.len() > 0 && exists|
            k: int,
        |
            0 <= k < parts.len() && trimmed(#[trigger] parts[k]) == v),
        values.is_prefix_of(with_parts(values, parts)),
    decreases parts.len(),
{
    if parts.len() > 0 {
        let next = with_sensitive(values, Some(parts[0]));
        let rest = parts.drop_first();
        law_a_secret_is_added_once(values, Some(parts[0]), v);
        lemma_with_parts_holds(next, rest, v);
        if exists|k: int| 0 <= k < parts.len() && trimmed(#[trigger] parts[k]) == v {
            let k = choose|k: int| 0 <= k < parts.len() && trimmed(#[trigger] parts[k]) == v;
            if k > 0 {
                assert(rest[k - 1] == parts[k]);
            }
        }
        if exists|k: int| 0 <= k < rest.len() && trimmed(#[trigger] rest[k]) == v {
            let k = choose|k: int| 0 <= k < rest.len() && trimmed(#[trigger] rest[k]) == v;
            assert(rest[k] == parts[k + 1]);
        }
    }
}

/// The URL is put together of a scheme, `://`, an authority up to a slash, an `@` or the
/// end, and the rest.
pub open spec fn url_of(
    url: Seq<char>,
    scheme: Seq<char>,
    auth: Seq<char>,
    rest: Seq<char>,
) -> bool {
    &&& url == scheme + "://"@ + (auth + rest)
    &&& forall|i: int| 0 <= i < scheme.len() ==> !#[trigger] occurs_at(url, "://"@, i)
    &&& !auth.contains('/') && !auth.contains('@')
    &&& rest.len() > 0 ==> rest[0] == '/' || rest[0] == '@'
}

proof fn lemma_url_auth(url: Seq<char>, scheme: Seq<char>, auth: Seq<char>, rest: Seq<char>)
    requires
        url_of(url, scheme, auth, rest),
    ensures
        url_auth(url) == Some(auth),
{
    law_what_follows_the_first_place(scheme, "://"@, auth + rest, url);
    let after = auth + rest;
    if rest.len() == 0 {
        assert(after =~= auth);
        law_texts_are_cut_at_the_first_place(auth, '/', rest);
        law_texts_are_cut_at_the_first_place(auth, '@', rest);
    } else if rest[0] == '/' {
        assert(after =~= auth + seq!['/'] + rest.drop_first());
        law_texts_are_cut_at_the_first_place(auth, '/', rest.drop_first());
        law_texts_are_cut_at_the_first_place(auth, '@', rest);
    } else {
        let tail = rest.drop_first();
        lemma_authority(auth, tail);
        assert(after =~= auth + seq!['@'] + tail);
    }
}

/// What a URL adds to the secrets are the pieces between the colons of its authority,
/// without the white space around them, where the authority has a colon. They join those
/// that are there, behind them.
pub proof fn law_a_url_gives_away_its_pieces(
    values: Seq<Seq<char>>,
    url: Seq<char>,
    scheme: Seq<char>,
    auth: Seq<char>,
    rest: Seq<char>,
    v: Seq<char>,
)
    ensures
        ({
            let after = with_url_auth(values, url);
            &&& values.is_prefix_of(after)
            &&& !holds(url, "://"@) ==> after == values
            &&& url_of(url, scheme, auth, rest) && !auth.contains(':') ==> after == values
            &&& url_of(url, scheme, auth, rest) && auth.contains(':') ==> (after.contains(v)
                <==> values.contains(v) || (v.len() > 0 && trimmed_piece(auth, v)))
        }),
{
    if !holds(url, "://"@) {
        let empty = Seq::<char>::empty();
        law_what_follows_the_first_place(empty, "://"@, empty, url);
    }
    if let Some(found) = url_auth(url) {
        lemma_with_parts_holds(values, split(found, ':'), v);
    }
    if url_of(url, scheme, auth, rest) {
        lemma_url_auth(url, scheme, auth, rest);
        lemma_trimmed_pieces(auth, v);
    }
}

/// The secrets of a configuration are its password, API key and bearer token, and the
/// pieces between the colons of its URL's authority where that has a colon. They are
/// nothing else: not the user, not the rest of the URL, nothing that is only white space.
pub proof fn law_the_secrets_are_these(
    request: JsonView,
    scheme: Seq<char>,
    auth: Seq<char>,
    rest: Seq<char>,
    v: Seq<char>,
)
    ensures
        ({
            let config = requested_config(request);
            let url = requested_url(request);
            let given = config.password == Some(v) || config.api_key == Some(v)
                || config.bearer_token == Some(v);
            &&& !holds(url, "://"@) ==> (config.redaction_values.contains(v) <==> given)
            &&& url_of(url, scheme, auth, rest) && !auth.contains(':') ==> (
            config.redaction_values.contains(v) <==> given)
            &&& url_of(url, scheme, auth, rest) && auth.contains(':') ==> (
            config.redaction_values.contains(v) <==> given || (v.len() > 0 && trimmed_piece(
                auth,
                v,
            )))
        }),
{
    let config = requested_config(request);
    let none = Seq::<Seq<char>>::empty();
    let one = with_sensitive(none, config.password);
    let two = with_sensitive(one, config.api_key);
    let three = with_sensitive(two, config.bearer_token);
    lemma_credentials_are_trimmed(request);
    law_a_secret_is_added_once(none, config.password, v);
    law_a_secret_is_added_once(one, config.api_key, v);
    law_a_secret_is_added_once(two, config.bearer_token, v);
    law_a_url_gives_away_its_pieces(three, requested_url(request), scheme, auth, rest, v);
}

proof fn lemma_with_parts_add(
    values: Seq<Seq<char>>,
    first: Seq<Seq<char>>,
    second: Seq<Seq<char>>,
)
    ensures
        with_parts(values, first + second) == with_parts(with_parts(values, first), second),
    decreases first.len(),
{
    if first.len() == 0 {
        assert(first + second =~= second);
    } else {
        assert((first + second).drop_first() =~= first.drop_first() + second);
        lemma_with_parts_add(
            with_sensitive(values, Some(first[0])),
            first.drop_first(),
            second,
        );
    }
}

proof fn lemma_split_add(front: Seq<char>, back: Seq<char>)
    ensures
        split(front + seq![':'] + back, ':') == split(front, ':') + split(back, ':'),
    decreases front.len(),
{
    let whole = front + seq![':'] + back;
    if front.contains(':') {
        lemma_first_colon(front);
        let at = choose|at: int| first_colon(front, at);
        let head = front.take(at);
        let rest = front.skip(at + 1);
        assert(front =~= head + seq![':'] + rest);
        law_texts_are_cut_at_the_first_place(head, ':', rest);
        assert(whole =~= head + seq![':'] + (rest + seq![':'] + back));
        law_texts_are_cut_at_the_first_place(head, ':', rest + seq![':'] + back);
        lemma_split_add(rest, back);
        assert(seq![head] + (split(rest, ':') + split(back, ':')) =~= seq![head] + split(rest, ':')
            + split(back, ':'));
    } else {
        law_texts_are_cut_at_the_first_place(front, ':', back);
    }
}

proof fn lemma_trimmed_pieces(auth: Seq<char>, v: Seq<char>)
    ensures
        trimmed_piece(auth, v) <==> exists|k: int|
            0 <= k < split(auth, ':').len() && trimmed(#[trigger] split(auth, ':')[k]) == v,
{
    let parts = split(auth, ':');
    if exists|k: int| 0 <= k < parts.len() && trimmed(#[trigger] parts[k]) == v {
        let k = choose|k: int| 0 <= k < parts.len() && trimmed(#[trigger] parts[k]) == v;
        lemma_split_pieces(auth, k);
        let (i, j) = choose|i: int, j: int| #[trigger] piece(auth, parts[k], i, j);
        assert(piece(auth, auth.subrange(i, j), i, j));
        assert(trimmed_piece(auth, v));
    }
    if trimmed_piece(auth, v) {
        let (i, j) = choose|i: int, j: int| #[trigger]
            piece(auth, auth.subrange(i, j), i, j) && trimmed(auth.subrange(i, j)) == v;
        lemma_piece_is_split(auth, i, j);
        let k = choose|k: int| 0 <= k < parts.len() && parts[k] == auth.subrange(i, j);
        assert(trimmed(parts[k]) == v);
    }
}

/// What is among the first values but not the second stands before what is only among
/// the second.
proof fn lemma_prefix_order(first: Seq<Seq<char>>, all: Seq<Seq<char>>, i: int, j: int)
    requires
        first.is_prefix_of(all),
        all.no_duplicates(),
        0 <= i < all.len(),
        0 <= j < all.len(),
        first.contains(all[i]),
        !first.contains(all[j]),
    ensures
        i < j,
{
    let k = choose|k: int| 0 <= k < first.len() && first[k] == all[i];
    assert(all[k] == first[k]);
    if j < first.len() {
        assert(first[j] == all[j]);
    }
}

/// The secrets are masked in this order: the password, the API key, the bearer token, and
/// then what the URL gives away.
pub proof fn law_credentials_are_masked_first(request: JsonView, i: int, j: int)
    requires
        0 <= i < requested_config(request).redaction_values.len(),
        0 <= j < requested_config(request).redaction_values.len(),
    ensures
        ({
            let config = requested_config(request);
            let a = config.redaction_values[i];
            let b = config.redaction_values[j];
            let of_password = |v: Seq<char>| config.password == Some(v);
            let of_key = |v: Seq<char>| config.api_key == Some(v);
            let of_token = |v: Seq<char>| config.bearer_token == Some(v);
            &&& of_password(a) && !of_password(b) ==> i < j
            &&& of_key(a) && !of_password(b) && !of_key(b) ==> i < j
            &&& of_token(a) && !of_password(b) && !of_key(b) && !of_token(b) ==> i < j
        }),
{
    let config = requested_config(request);
    let all = config.redaction_values;
    let a = all[i];
    let b = all[j];
    let none = Seq::<Seq<char>>::empty();
    let one = with_sensitive(none, config.password);
    let two = with_sensitive(one, config.api_key);
    let three = with_sensitive(two, config.bearer_token);
    law_credentials_are_secrets(request);
    lemma_credentials_are_trimmed(request);
    assert forall|v: Seq<char>| #[trigger] all.contains(v) implies v.len() > 0 by {
        let k = choose|k: int| 0 <= k < all.len() && all[k] == v;
    }
    assert(all.contains(a) && all.contains(b));
    law_a_secret_is_added_once(none, config.password, a);
    law_a_secret_is_added_once(one, config.api_key, a);
    law_a_secret_is_added_once(two, config.bearer_token, a);
    law_a_secret_is_added_once(none, config.password, b);
    law_a_secret_is_added_once(one, config.api_key, b);
    law_a_secret_is_added_once(two, config.bearer_token, b);
    if let Some(auth) = url_auth(requested_url(request)) {
        lemma_with_parts_holds(three, split(auth, ':'), a);
    }
    assert(three.is_prefix_of(all));
    assert(two.is_prefix_of(all));
    assert(one.is_prefix_of(all));
    if config.password == Some(a) && config.password != Some(b) {
        lemma_prefix_order(one, all, i, j);
    }
    if config.api_key == Some(a) && config.password != Some(b) && config.api_key != Some(b) {
        lemma_prefix_order(two, all, i, j);
    }
    if config.bearer_token == Some(a) && config.password != Some(b) && config.api_key != Some(b)
        && config.bearer_token != Some(b) {
        lemma_prefix_order(three, all, i, j);
    }
}

proof fn lemma_credentials_are_trimmed(request: JsonView)
    ensures
        ({
            let config = requested_config(request);
            &&& config.password matches Some(p) ==> p.len() > 0 && trimmed(p) == p
            &&& config.api_key matches Some(k) ==> k.len() > 0 && trimmed(k) == k
            &&& config.bearer_token matches Some(t) ==> t.len() > 0 && trimmed(t) == t
        }),
{
    law_options_are_trimmed(request, seq!["password"@]);
    law_options_are_trimmed(request, seq!["apiKey"@, "api_key"@]);
    law_options_are_trimmed(request, seq!["token"@, "bearerToken"@, "accessToken"@]);
}

/// What the URL gives away is masked from left to right: what stands before a colon of the
/// authority comes before what stands behind it only.
pub proof fn law_url_pieces_are_masked_from_the_left(
    request: JsonView,
    scheme: Seq<char>,
    front: Seq<char>,
    back: Seq<char>,
    rest: Seq<char>,
    i: int,
    j: int,
)
    requires
        url_of(requested_url(request), scheme, front + seq![':'] + back, rest),
        0 <= i < requested_config(request).redaction_values.len(),
        0 <= j < requested_config(request).redaction_values.len(),
        ({
            let config = requested_config(request);
            let a = config.redaction_values[i];
            let b = config.redaction_values[j];
            &&& trimmed_piece(front, a)
            &&& !trimmed_piece(front, b)
            &&& config.password != Some(b) && config.api_key != Some(b) && config.bearer_token
                != Some(b)
        }),
    ensures
        i < j,
{
    let config = requested_config(request);
    let all = config.redaction_values;
    let a = all[i];
    let b = all[j];
    let auth = front + seq![':'] + back;
    let none = Seq::<Seq<char>>::empty();
    let one = with_sensitive(none, config.password);
    let two = with_sensitive(one, config.api_key);
    let three = with_sensitive(two, config.bearer_token);
    law_credentials_are_secrets(request);
    lemma_credentials_are_trimmed(request);
    lemma_url_auth(requested_url(request), scheme, auth, rest);
    assert(auth[front.len() as int] == ':');
    lemma_split_add(front, back);
    let mid = with_parts(three, split(front, ':'));
    lemma_with_parts_add(three, split(front, ':'), split(back, ':'));
    lemma_with_parts_holds(mid, split(back, ':'), a);
    lemma_with_parts_holds(three, split(front, ':'), a);
    lemma_with_parts_holds(three, split(front, ':'), b);
    lemma_trimmed_pieces(front, a);
    lemma_trimmed_pieces(front, b);
    law_a_secret_is_added_once(none, config.password, b);
    law_a_secret_is_added_once(one, config.api_key, b);
    law_a_secret_is_added_once(two, config.bearer_token, b);
    lemma_prefix_order(mid, all, i, j);
}

} // verus!
