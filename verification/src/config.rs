//! What a connection is made with, and how its secrets are kept out of messages.

use crate::json::{Json, JsonView};
use crate::request::{build_url, names, option_string, text_option, url_of_parts};
use crate::text::{
    after_first, after_first_match, before, before_char, contains_char, replace, replaced,
    same_text, split, split_char, text_of, texts, trim, trim_end_matches, trimmed, without_trailing,
};
use vstd::prelude::*;

verus! {

/// Where a search server is, how to authenticate there, and what must not show up in
/// a message.
#[derive(Debug, PartialEq, Eq)]
pub struct SearchConfig {
    pub base_url: String,
    pub username: Option<String>,
    pub password: Option<String>,
    pub api_key: Option<String>,
    pub bearer_token: Option<String>,
    pub redaction_values: Vec<String>,
}

/// What a configuration holds, as mathematical data.
#[verifier::ext_equal]
pub struct ConfigView {
    pub base_url: Seq<char>,
    pub username: Option<Seq<char>>,
    pub password: Option<Seq<char>>,
    pub api_key: Option<Seq<char>>,
    pub bearer_token: Option<Seq<char>>,
    pub redaction_values: Seq<Seq<char>>,
}

impl View for SearchConfig {
    type V = ConfigView;

    open spec fn view(&self) -> ConfigView {
        ConfigView {
            base_url: self.base_url@,
            username: text_of(self.username),
            password: text_of(self.password),
            api_key: text_of(self.api_key),
            bearer_token: text_of(self.bearer_token),
            redaction_values: texts(self.redaction_values@),
        }
    }
}

/// A connection to a search server.
#[derive(Debug, PartialEq, Eq)]
pub struct SearchConnection {
    pub config: SearchConfig,
}

impl View for SearchConnection {
    type V = ConfigView;

    open spec fn view(&self) -> ConfigView {
        self.config@
    }
}

/// How a request to the server authenticates.
#[derive(Debug, PartialEq, Eq)]
pub enum Authorization {
    /// The whole value of the `Authorization` header.
    Header(String),
    /// A bearer token.
    Bearer(String),
    /// A user, and a password where there is one.
    Basic(String, Option<String>),
    /// Nothing is sent.
    Absent,
}

/// What an authorization holds, as mathematical data.
pub enum AuthorizationView {
    Header(Seq<char>),
    Bearer(Seq<char>),
    Basic(Seq<char>, Option<Seq<char>>),
    Absent,
}

impl View for Authorization {
    type V = AuthorizationView;

    open spec fn view(&self) -> AuthorizationView {
        match self {
            Authorization::Header(value) => AuthorizationView::Header(value@),
            Authorization::Bearer(token) => AuthorizationView::Bearer(token@),
            Authorization::Basic(user, password) => AuthorizationView::Basic(
                user@,
                text_of(*password),
            ),
            Authorization::Absent => AuthorizationView::Absent,
        }
    }
}

/// The values with one more: trimmed, and only where something is left of it that the
/// values do not have yet.
pub open spec fn with_sensitive(values: Seq<Seq<char>>, value: Option<Seq<char>>) -> Seq<Seq<char>> {
    match value {
        Some(text) => {
            let secret = trimmed(text);
            if secret.len() > 0 && !values.contains(secret) {
                values.push(secret)
            } else {
                values
            }
        },
        None => values,
    }
}

/// The values with each of the parts, one after the other.
pub open spec fn with_parts(values: Seq<Seq<char>>, parts: Seq<Seq<char>>) -> Seq<Seq<char>>
    decreases parts.len(),
{
    if parts.len() == 0 {
        values
    } else {
        with_parts(with_sensitive(values, Some(parts[0])), parts.drop_first())
    }
}

/// The part of a URL between its scheme and the first `@` of what stands before the
/// first slash.
pub open spec fn url_auth(url: Seq<char>) -> Option<Seq<char>> {
    match after_first(url, "://"@) {
        Some(rest) => Some(before(before(rest, '/'), '@')),
        None => None,
    }
}

/// The values with what a URL gives away: the parts between the colons of its
/// authority.
pub open spec fn with_url_auth(values: Seq<Seq<char>>, url: Seq<char>) -> Seq<Seq<char>> {
    match url_auth(url) {
        Some(auth) => if auth.contains(':') {
            with_parts(values, split(auth, ':'))
        } else {
            values
        },
        None => values,
    }
}

/// The URL that a request names, or else the one it describes in parts.
pub open spec fn requested_url(request: JsonView) -> Seq<char> {
    match text_option(request, seq!["connectionString"@, "url"@, "dsn"@]) {
        Some(url) => url,
        None => url_of_parts(request),
    }
}

/// The configuration that a request asks for.
pub open spec fn requested_config(request: JsonView) -> ConfigView {
    let url = requested_url(request);
    let password = text_option(request, seq!["password"@]);
    let api_key = text_option(request, seq!["apiKey"@, "api_key"@]);
    let bearer_token = text_option(request, seq!["token"@, "bearerToken"@, "accessToken"@]);
    ConfigView {
        base_url: without_trailing(url, '/'),
        username: text_option(request, seq!["user"@, "username"@]),
        password,
        api_key,
        bearer_token,
        redaction_values: with_url_auth(
            with_sensitive(
                with_sensitive(with_sensitive(Seq::empty(), password), api_key),
                bearer_token,
            ),
            url,
        ),
    }
}

/// The message with each of the secrets masked, one after the other.
pub open spec fn masked(message: Seq<char>, secrets: Seq<Seq<char>>) -> Seq<char>
    decreases secrets.len(),
{
    if secrets.len() == 0 {
        message
    } else {
        let earlier = masked(message, secrets.drop_last());
        if secrets.last().len() == 0 {
            earlier
        } else {
            replaced(earlier, secrets.last(), "****"@)
        }
    }
}

impl ConfigView {
    /// The message without the server's URL and without any of the secrets.
    pub open spec fn redacted(self, message: Seq<char>) -> Seq<char> {
        masked(replaced(message, self.base_url, "<search-url>"@), self.redaction_values)
    }

    /// How a request authenticates: by API key, else by bearer token, else as a user.
    pub open spec fn authorization(self) -> AuthorizationView {
        match (self.api_key, self.bearer_token, self.username) {
            (Some(key), _, _) => AuthorizationView::Header("ApiKey "@ + key),
            (None, Some(token), _) => AuthorizationView::Bearer(token),
            (None, None, Some(user)) => AuthorizationView::Basic(user, self.password),
            (None, None, None) => AuthorizationView::Absent,
        }
    }
}

/// The text of an optional string slice.
pub open spec fn str_text(value: Option<&str>) -> Option<Seq<char>> {
    match value {
        Some(text) => Some(text@),
        None => None,
    }
}

/// A copy of an optional string.
fn copy_text(string: &Option<String>) -> (copy: Option<String>)
    ensures
        text_of(copy) == text_of(*string),
{
    match string {
        Some(text) => Some(text.clone()),
        None => None,
    }
}

/// A copy of a vector of strings.
fn copy_texts(strings: &Vec<String>) -> (copies: Vec<String>)
    ensures
        texts(copies@) == texts(strings@),
{
    let mut copies: Vec<String> = Vec::new();
    for i in 0..strings.len()
        invariant
            texts(copies@) == texts(strings@).take(i as int),
    {
        let copy = strings[i].clone();
        assert(texts(copies@.push(copy)) =~= texts(copies@).push(copy@));
        assert(texts(strings@).take(i + 1) =~= texts(strings@).take(i as int).push(copy@));
        copies.push(copy);
    }
    assert(texts(copies@) =~= texts(strings@));
    copies
}

/// An optional string as an optional slice.
fn as_slice(string: &Option<String>) -> (slice: Option<&str>)
    ensures
        str_text(slice) == text_of(*string),
{
    match string {
        Some(text) => Some(text.as_str()),
        None => None,
    }
}

/// Adds the value, trimmed, unless nothing is left of it or it is there already.
pub fn push_sensitive(values: &mut Vec<String>, value: Option<&str>)
    ensures
        texts(final(values)@) == with_sensitive(texts(old(values)@), str_text(value)),
{
    if let Some(text) = value {
        let secret = trim(text);
        if !secret.is_empty() {
            for i in 0..values.len()
                invariant
                    values == old(values),
                    value == Some(text),
                    secret@ == trimmed(text@),
                    secret@.len() > 0,
                    forall|j: int| 0 <= j < i ==> texts(values@)[j] != secret@,
            {
                if same_text(values[i].as_str(), secret) {
                    assert(texts(values@)[i as int] == secret@);
                    assert(texts(values@).contains(secret@));
                    return;
                }
            }
            assert(!texts(values@).contains(secret@));
            let added = secret.to_owned();
            assert(texts(values@.push(added)) =~= texts(values@).push(secret@));
            values.push(added);
        }
    }
}

/// Adds what a URL gives away: the parts between the colons of its authority, up to
/// the first `@`.
pub fn collect_url_auth(url: &str, values: &mut Vec<String>)
    ensures
        texts(final(values)@) == with_url_auth(texts(old(values)@), url@),
{
    match after_first_match(url, "://") {
        None => {},
        Some(rest) => {
            let auth = before_char(before_char(rest, '/'), '@');
            if contains_char(auth, ':') {
                let parts = split_char(auth, ':');
                let ghost all = split(auth@, ':');
                assert(all.skip(0) =~= all);
                for i in 0..parts.len()
                    invariant
                        texts(parts@) == all,
                        with_parts(texts(values@), all.skip(i as int)) == with_parts(
                            texts(old(values)@),
                            all,
                        ),
                {
                    assert(all.skip(i as int).drop_first() =~= all.skip(i + 1));
                    assert(all.skip(i as int)[0] == parts@[i as int]@);
                    push_sensitive(values, Some(parts[i].as_str()));
                }
            }
        },
    }
}

impl SearchConfig {
    /// The configuration that a request asks for. Every request asks for one.
    pub fn from_request(request: &Json) -> (config: Result<SearchConfig, String>)
        ensures
            config is Ok,
            config->Ok_0@ == requested_config(request@),
    {
        let url_fields = ["connectionString", "url", "dsn"];
        let user_fields = ["user", "username"];
        let password_fields = ["password"];
        let key_fields = ["apiKey", "api_key"];
        let token_fields = ["token", "bearerToken", "accessToken"];
        proof {
            assert(names(url_fields@) =~= seq!["connectionString"@, "url"@, "dsn"@]);
            assert(names(user_fields@) =~= seq!["user"@, "username"@]);
            assert(names(password_fields@) =~= seq!["password"@]);
            assert(names(key_fields@) =~= seq!["apiKey"@, "api_key"@]);
            assert(names(token_fields@) =~= seq!["token"@, "bearerToken"@, "accessToken"@]);
        }
        let base_url = match option_string(request, &url_fields) {
            Some(url) => url,
            None => build_url(request),
        };
        let username = option_string(request, &user_fields);
        let password = option_string(request, &password_fields);
        let api_key = option_string(request, &key_fields);
        let bearer_token = option_string(request, &token_fields);
        let mut redaction_values: Vec<String> = Vec::new();
        assert(texts(redaction_values@) =~= Seq::empty());
        push_sensitive(&mut redaction_values, as_slice(&password));
        push_sensitive(&mut redaction_values, as_slice(&api_key));
        push_sensitive(&mut redaction_values, as_slice(&bearer_token));
        collect_url_auth(base_url.as_str(), &mut redaction_values);
        Ok(
            SearchConfig {
                base_url: trim_end_matches(base_url.as_str(), '/').to_owned(),
                username,
                password,
                api_key,
                bearer_token,
                redaction_values,
            },
        )
    }

    /// The message without the server's URL and without any of the secrets.
    pub fn redact(&self, message: &str) -> (clean: String)
        ensures
            clean@ == self@.redacted(message@),
    {
        let mut clean = replace(message, self.base_url.as_str(), "<search-url>");
        let ghost start = clean@;
        let ghost all = texts(self.redaction_values@);
        assert(all.take(0) =~= Seq::empty());
        for i in 0..self.redaction_values.len()
            invariant
                all == texts(self.redaction_values@),
                clean@ == masked(start, all.take(i as int)),
        {
            assert(all.take(i + 1).drop_last() =~= all.take(i as int));
            assert(all.take(i + 1).last() == self.redaction_values@[i as int]@);
            let secret = self.redaction_values[i].as_str();
            if !secret.is_empty() {
                clean = replace(clean.as_str(), secret, "****");
            }
        }
        assert(all.take(all.len() as int) =~= all);
        clean
    }
}

impl Clone for SearchConfig {
    fn clone(&self) -> (copy: SearchConfig)
        ensures
            copy@ == self@,
    {
        SearchConfig {
            base_url: self.base_url.clone(),
            username: copy_text(&self.username),
            password: copy_text(&self.password),
            api_key: copy_text(&self.api_key),
            bearer_token: copy_text(&self.bearer_token),
            redaction_values: copy_texts(&self.redaction_values),
        }
    }
}

impl Clone for SearchConnection {
    fn clone(&self) -> (copy: SearchConnection)
        ensures
            copy@ == self@,
    {
        SearchConnection { config: self.config.clone() }
    }
}

impl SearchConnection {
    /// How a request authenticates: by API key, else by bearer token, else as a user.
    pub fn auth(&self) -> (authorization: Authorization)
        ensures
            authorization@ == self@.authorization(),
    {
        if let Some(api_key) = &self.config.api_key {
            let mut value = "ApiKey ".to_owned();
            value.append(api_key.as_str());
            Authorization::Header(value)
        } else if let Some(token) = &self.config.bearer_token {
            Authorization::Bearer(token.clone())
        } else if let Some(username) = &self.config.username {
            Authorization::Basic(username.clone(), copy_text(&self.config.password))
        } else {
            Authorization::Absent
        }
    }
}

} // verus!
