//! Where a request keeps its connection options, and how they are read.

use crate::json::{borrowed, get_at, Json, JsonView};
use crate::text::{text_of, trim, trimmed};
use vstd::prelude::*;

verus! {

/// What a sequence of references to JSON values holds.
pub open spec fn ref_views(values: Seq<&Json>) -> Seq<JsonView> {
    values.map_values(|value: &Json| value@)
}

/// The texts of a list of field names.
pub open spec fn names(fields: Seq<&str>) -> Seq<Seq<char>> {
    fields.map_values(|field: &str| field@)
}

/// The value where there is one, and nothing otherwise.
pub open spec fn one(value: Option<JsonView>) -> Seq<JsonView> {
    match value {
        Some(v) => seq![v],
        None => seq![],
    }
}

/// The places of a request that may hold options, the first to be asked first: the
/// request itself, its profile, options, auth and secrets, and the options, auth
/// and secrets of its profile.
pub open spec fn containers(request: JsonView) -> Seq<JsonView> {
    let profile = request.get("profile"@);
    one(Some(request)) + one(profile) + one(request.get("options"@)) + one(request.get("auth"@))
        + one(request.get("secrets"@)) + one(get_at(profile, "options"@)) + one(
        get_at(profile, "auth"@),
    ) + one(get_at(profile, "secrets"@))
}

/// The text that an option's value stands for.
pub open spec fn scalar_text(value: JsonView) -> Seq<char> {
    match value {
        JsonView::String(text) => text,
        JsonView::Number(text) => text,
        JsonView::Bool(b) => if b {
            "true"@
        } else {
            "false"@
        },
        _ => Seq::empty(),
    }
}

/// The text of one field of one container, where it is more than white space.
pub open spec fn field_text(container: JsonView, field: Seq<char>) -> Option<Seq<char>> {
    match container.get(field) {
        Some(value) => {
            let text = trimmed(scalar_text(value));
            if text.len() > 0 {
                Some(text)
            } else {
                None
            }
        },
        None => None,
    }
}

/// The text of the first of the fields that has one.
pub open spec fn first_field_text(container: JsonView, fields: Seq<Seq<char>>) -> Option<Seq<char>>
    decreases fields.len(),
{
    if fields.len() == 0 {
        None
    } else {
        match field_text(container, fields[0]) {
            Some(text) => Some(text),
            None => first_field_text(container, fields.drop_first()),
        }
    }
}

/// The text of the first of the containers that has one under any of the fields.
pub open spec fn first_text(places: Seq<JsonView>, fields: Seq<Seq<char>>) -> Option<Seq<char>>
    decreases places.len(),
{
    if places.len() == 0 {
        None
    } else {
        match first_field_text(places[0], fields) {
            Some(text) => Some(text),
            None => first_text(places.drop_first(), fields),
        }
    }
}

/// The text option of a request that goes by any of the names `fields`.
pub open spec fn text_option(request: JsonView, fields: Seq<Seq<char>>) -> Option<Seq<char>> {
    first_text(containers(request), fields)
}

/// The truth value of one field of one container, where it is a boolean.
pub open spec fn field_flag(container: JsonView, field: Seq<char>) -> Option<bool> {
    match container.get(field) {
        Some(value) => value.as_bool(),
        None => None,
    }
}

/// The truth value of the first of the fields that is a boolean.
pub open spec fn first_field_flag(container: JsonView, fields: Seq<Seq<char>>) -> Option<bool>
    decreases fields.len(),
{
    if fields.len() == 0 {
        None
    } else {
        match field_flag(container, fields[0]) {
            Some(flag) => Some(flag),
            None => first_field_flag(container, fields.drop_first()),
        }
    }
}

/// The truth value of the first of the containers that has one under any of the fields.
pub open spec fn first_flag(places: Seq<JsonView>, fields: Seq<Seq<char>>) -> Option<bool>
    decreases places.len(),
{
    if places.len() == 0 {
        None
    } else {
        match first_field_flag(places[0], fields) {
            Some(flag) => Some(flag),
            None => first_flag(places.drop_first(), fields),
        }
    }
}

/// The flag of a request that goes by any of the names `fields`.
pub open spec fn flag_option(request: JsonView, fields: Seq<Seq<char>>) -> Option<bool> {
    first_flag(containers(request), fields)
}

/// Where the server is that a request describes by host, port and TLS flag.
pub open spec fn url_of_parts(request: JsonView) -> Seq<char> {
    let host = match text_option(request, seq!["host"@, "endpoint"@]) {
        Some(host) => host,
        None => "127.0.0.1"@,
    };
    let port = match text_option(request, seq!["port"@]) {
        Some(port) => port,
        None => "9200"@,
    };
    let scheme = if flag_option(request, seq!["tls"@, "ssl"@]) == Some(true) {
        "https"@
    } else {
        "http"@
    };
    scheme + "://"@ + host + ":"@ + port
}

/// Adds the value, where there is one.
fn push_present<'a>(places: &mut Vec<&'a Json>, value: Option<&'a Json>)
    ensures
        ref_views(final(places)@) == ref_views(old(places)@) + one(borrowed(value)),
{
    if let Some(v) = value {
        places.push(v);
    }
    assert(ref_views(places@) =~= ref_views(old(places)@) + one(borrowed(value)));
}

/// The places of a request that may hold options, the first to be asked first.
pub fn request_containers(request: &Json) -> (places: Vec<&Json>)
    ensures
        ref_views(places@) == containers(request@),
{
    let mut places: Vec<&Json> = Vec::new();
    let profile = request.get("profile");
    push_present(&mut places, Some(request));
    push_present(&mut places, profile);
    push_present(&mut places, request.get("options"));
    push_present(&mut places, request.get("auth"));
    push_present(&mut places, request.get("secrets"));
    if let Some(profile) = profile {
        push_present(&mut places, profile.get("options"));
        push_present(&mut places, profile.get("auth"));
        push_present(&mut places, profile.get("secrets"));
    }
    assert(ref_views(places@) =~= containers(request@));
    places
}

/// The text of one field of one container, where it is more than white space.
fn field_string(container: &Json, field: &str) -> (text: Option<String>)
    ensures
        text_of(text) == field_text(container@, field@),
{
    let text = match container.get(field) {
        Some(Json::String(text)) => trim(text.as_str()).to_owned(),
        Some(Json::Number(text)) => trim(text.as_str()).to_owned(),
        Some(Json::Bool(b)) => trim(if *b { "true" } else { "false" }).to_owned(),
        _ => {
            return None;
        },
    };
    if text.as_str().is_empty() {
        None
    } else {
        Some(text)
    }
}

/// The text option of a request that goes by any of the names `fields`: the first
/// container that has one under any of them gives it.
pub fn option_string(request: &Json, fields: &[&str]) -> (text: Option<String>)
    ensures
        text_of(text) == text_option(request@, names(fields@)),
{
    let places = request_containers(request);
    let ghost all = containers(request@);
    let ghost wanted = names(fields@);
    assert(all.skip(0) =~= all);
    for i in 0..places.len()
        invariant
            all == containers(request@),
            ref_views(places@) == all,
            wanted == names(fields@),
            first_text(all, wanted) == first_text(all.skip(i as int), wanted),
    {
        let ghost place = all.skip(i as int)[0];
        assert(all.skip(i as int).drop_first() =~= all.skip(i + 1));
        assert(wanted.skip(0) =~= wanted);
        for j in 0..fields.len()
            invariant
                i < places.len(),
                all == containers(request@),
                ref_views(places@) == all,
                wanted == names(fields@),
                place == all.skip(i as int)[0],
                place == places@[i as int]@,
                first_text(all, wanted) == first_text(all.skip(i as int), wanted),
                first_field_text(place, wanted) == first_field_text(place, wanted.skip(j as int)),
        {
            assert(wanted.skip(j as int).drop_first() =~= wanted.skip(j + 1));
            let text = field_string(places[i], fields[j]);
            if text.is_some() {
                return text;
            }
        }
    }
    None
}

/// The flag of a request that goes by any of the names `fields`: the first container
/// that has a boolean under any of them gives it.
pub fn bool_option(request: &Json, fields: &[&str]) -> (flag: Option<bool>)
    ensures
        flag == flag_option(request@, names(fields@)),
{
    let places = request_containers(request);
    let ghost all = containers(request@);
    let ghost wanted = names(fields@);
    assert(all.skip(0) =~= all);
    for i in 0..places.len()
        invariant
            all == containers(request@),
            ref_views(places@) == all,
            wanted == names(fields@),
            first_flag(all, wanted) == first_flag(all.skip(i as int), wanted),
    {
        let ghost place = all.skip(i as int)[0];
        assert(all.skip(i as int).drop_first() =~= all.skip(i + 1));
        assert(wanted.skip(0) =~= wanted);
        for j in 0..fields.len()
            invariant
                i < places.len(),
                all == containers(request@),
                ref_views(places@) == all,
                wanted == names(fields@),
                place == all.skip(i as int)[0],
                place == places@[i as int]@,
                first_flag(all, wanted) == first_flag(all.skip(i as int), wanted),
                first_field_flag(place, wanted) == first_field_flag(place, wanted.skip(j as int)),
        {
            assert(wanted.skip(j as int).drop_first() =~= wanted.skip(j + 1));
            if let Some(value) = places[i].get(fields[j]) {
                let flag = value.as_bool();
                if flag.is_some() {
                    return flag;
                }
            }
        }
    }
    None
}

/// Where the server is that a request describes by host, port and TLS flag; the
/// local host, port 9200 and no TLS where it does not say.
pub fn build_url(request: &Json) -> (url: String)
    ensures
        url@ == url_of_parts(request@),
{
    let host_fields = ["host", "endpoint"];
    let port_fields = ["port"];
    let tls_fields = ["tls", "ssl"];
    proof {
        assert(names(host_fields@) =~= seq!["host"@, "endpoint"@]);
        assert(names(port_fields@) =~= seq!["port"@]);
        assert(names(tls_fields@) =~= seq!["tls"@, "ssl"@]);
    }
    let host = match option_string(request, &host_fields) {
        Some(host) => host,
        None => "127.0.0.1".to_owned(),
    };
    let port = match option_string(request, &port_fields) {
        Some(port) => port,
        None => "9200".to_owned(),
    };
    let tls = match bool_option(request, &tls_fields) {
        Some(tls) => tls,
        None => false,
    };
    let mut url = if tls {
        "https".to_owned()
    } else {
        "http".to_owned()
    };
    url.append("://");
    url.append(host.as_str());
    url.append(":");
    url.append(port.as_str());
    url
}

/// The first place of a request that has an option decides it, and no later one does.
pub proof fn law_first_place_decides(request: JsonView, fields: Seq<Seq<char>>, i: int)
    requires
        0 <= i < containers(request).len(),
        forall|j: int|
            0 <= j < i ==> first_field_text(#[trigger] containers(request)[j], fields) is None,
        first_field_text(containers(request)[i], fields) is Some,
    ensures
        text_option(request, fields) == first_field_text(containers(request)[i], fields),
{
    lemma_first_place_decides(containers(request), fields, i);
}

proof fn lemma_first_place_decides(places: Seq<JsonView>, fields: Seq<Seq<char>>, i: int)
    requires
        0 <= i < places.len(),
        forall|j: int| 0 <= j < i ==> first_field_text(#[trigger] places[j], fields) is None,
        first_field_text(places[i], fields) is Some,
    ensures
        first_text(places, fields) == first_field_text(places[i], fields),
    decreases i,
{
    if i > 0 {
        let rest = places.drop_first();
        assert(first_field_text(places[0], fields) is None);
        assert forall|j: int| 0 <= j < i - 1 implies first_field_text(
            #[trigger] rest[j],
            fields,
        ) is None by {
            assert(rest[j] == places[j + 1]);
        }
        lemma_first_place_decides(rest, fields, i - 1);
    }
}

/// The first place of a request that has a flag decides it, and no later one does.
pub proof fn law_first_flag_decides(request: JsonView, fields: Seq<Seq<char>>, i: int)
    requires
        0 <= i < containers(request).len(),
        forall|j: int|
            0 <= j < i ==> first_field_flag(#[trigger] containers(request)[j], fields) is None,
        first_field_flag(containers(request)[i], fields) is Some,
    ensures
        flag_option(request, fields) == first_field_flag(containers(request)[i], fields),
{
    lemma_first_flag_decides(containers(request), fields, i);
}

proof fn lemma_first_flag_decides(places: Seq<JsonView>, fields: Seq<Seq<char>>, i: int)
    requires
        0 <= i < places.len(),
        forall|j: int| 0 <= j < i ==> first_field_flag(#[trigger] places[j], fields) is None,
        first_field_flag(places[i], fields) is Some,
    ensures
        first_flag(places, fields) == first_field_flag(places[i], fields),
    decreases i,
{
    if i > 0 {
        let rest = places.drop_first();
        assert(first_field_flag(places[0], fields) is None);
        assert forall|j: int| 0 <= j < i - 1 implies first_field_flag(
            #[trigger] rest[j],
            fields,
        ) is None by {
            assert(rest[j] == places[j + 1]);
        }
        lemma_first_flag_decides(rest, fields, i - 1);
    }
}

} // verus!
