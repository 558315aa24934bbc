//! The credentialed session: a fixed client identity chosen once, a lazily
//! obtained bearer token, and the field logic of the remote responses.
//! The transport itself lives with the caller; this module decides what a
//! call needs and what each response means.
use vstd::prelude::*;
use vstd::string::StringExecFns;

verus! {

pub assume_specification<T>[ rand::random::<T> ]() -> (r: T)
    where
        rand::distr::StandardUniform: rand::distr::Distribution<T>,
;

#[verifier::external_type_specification]
#[verifier::external_body]
pub struct ExValue(serde_json::Value);

/// The named field a JSON value holds, when it is an object holding one;
/// a pure lookup in the value.
pub uninterp spec fn json_field_of(v: serde_json::Value, key: Seq<char>) -> Option<
    serde_json::Value,
>;

/// The string a JSON value holds, when it is a string.
pub uninterp spec fn json_str_of(v: serde_json::Value) -> Option<Seq<char>>;

/// The elements a JSON value holds, when it is an array.
pub uninterp spec fn json_items_of(v: serde_json::Value) -> Option<Seq<serde_json::Value>>;

/// Relies on serde_json::Value::get: the named field of a JSON object,
/// when the value is an object holding it.
#[verifier::external_body]
fn json_get<'a>(v: &'a serde_json::Value, key: &str) -> (r: Option<&'a serde_json::Value>)
    ensures
        match r {
            Some(f) => json_field_of(*v, key@) == Some(*f),
            None => json_field_of(*v, key@) is None,
        },
{
    v.get(key)
}

/// Relies on serde_json::Value::as_str: the string a JSON value holds,
/// when it is a string.
#[verifier::external_body]
fn json_as_string(v: &serde_json::Value) -> (r: Option<String>)
    ensures
        r.deep_view() == json_str_of(*v),
{
    v.as_str().map(str::to_owned)
}

/// Relies on serde_json::Value::as_array: the elements of a JSON array,
/// when the value is an array.
#[verifier::external_body]
fn json_as_array<'a>(v: &'a serde_json::Value) -> (r: Option<&'a Vec<serde_json::Value>>)
    ensures
        match r {
            Some(items) => json_items_of(*v) == Some(items@),
            None => json_items_of(*v) is None,
        },
{
    v.as_array()
}

/// The error taxonomy of the remote flow.
#[derive(Debug, PartialEq, Eq)]
pub enum ApiError {
    /// Credential acquisition failed or its response held no token.
    Auth,
    /// The transport failed before any status was received.
    Transport,
    /// The remote answered with a non-success status.
    Remote(u16),
    /// The room response lacked the expected identifier array.
    Resolution,
    /// A task response lacked its content field.
    MissingContent,
}

/// The fixed pool of client-identity strings; one is chosen per session.
pub open spec fn user_agent_at(i: int) -> Seq<char> {
    if i == 0 {
        "Mozilla/5.0 (Windows NT 10.0; Win64; x64) AppleWebKit/537.36 (KHTML, like Gecko) Chrome/98.0.4758.102 Safari/537.36"@
    } else if i == 1 {
        "Mozilla/5.0 (Macintosh; Intel Mac OS X 10_15_7) AppleWebKit/605.1.15 (KHTML, like Gecko) Version/15.3 Safari/605.1.15"@
    } else {
        "Mozilla/5.0 (Windows NT 10.0; Win64; x64; rv:97.0) Gecko/20100101 Firefox/97.0"@
    }
}

fn user_agent_for(idx: usize) -> (r: String)
    requires
        idx < 3,
    ensures
        r@ == user_agent_at(idx as int),
{
    if idx == 0 {
        "Mozilla/5.0 (Windows NT 10.0; Win64; x64) AppleWebKit/537.36 (KHTML, like Gecko) Chrome/98.0.4758.102 Safari/537.36".to_owned()
    } else if idx == 1 {
        "Mozilla/5.0 (Macintosh; Intel Mac OS X 10_15_7) AppleWebKit/605.1.15 (KHTML, like Gecko) Version/15.3 Safari/605.1.15".to_owned()
    } else {
        "Mozilla/5.0 (Windows NT 10.0; Win64; x64; rv:97.0) Gecko/20100101 Firefox/97.0".to_owned()
    }
}

/// The session state: a client identity fixed at construction and an
/// optional bearer token, absent until the first authenticated call.
pub struct SkysmartAPIClient {
    user_agent: String,
    token: Option<String>,
}

impl SkysmartAPIClient {
    pub closed spec fn spec_token(&self) -> Option<Seq<char>> {
        match self.token {
            Some(t) => Some(t@),
            None => None,
        }
    }

    pub closed spec fn spec_user_agent(&self) -> Seq<char> {
        self.user_agent@
    }

    /// Authentication is owed exactly while no token is held.
    pub open spec fn spec_needs_auth(&self) -> bool {
        self.spec_token() is None
    }

    /// A fresh session: no token yet, identity drawn from the fixed pool.
    pub fn new() -> (r: Self)
        ensures
            r.spec_token() is None,
            exists|i: int| 0 <= i < 3 && r.spec_user_agent() == user_agent_at(i),
    {
        let x: u32 = rand::random();
        let idx = (x % 3) as usize;
        let user_agent = user_agent_for(idx);
        let r = SkysmartAPIClient { user_agent, token: None };
        proof {
            assert(0 <= (idx as int) && (idx as int) < 3);
            assert(r.spec_user_agent() == user_agent_at(idx as int));
        }
        r
    }

    /// The session's fixed client-identity string.
    pub fn user_agent(&self) -> (r: String)
        ensures
            r@ == self.spec_user_agent(),
    {
        self.user_agent.clone()
    }

    /// Whether the next authenticated call must first acquire a token.
    pub fn needs_auth(&self) -> (r: bool)
        ensures
            r == self.spec_needs_auth(),
    {
        self.token.is_none()
    }

    /// Stores the token that credential acquisition produced.
    pub fn set_token(&mut self, token: String)
        ensures
            final(self).spec_token() == Some(token@),
            final(self).spec_user_agent() == old(self).spec_user_agent(),
    {
        self.token = Some(token);
    }

    /// Releases the held token, if any; the transport stays with the
    /// caller and is untouched.  Never fails.
    pub fn close(&mut self) -> (r: Result<(), ApiError>)
        ensures
            final(self).spec_token() is None,
            final(self).spec_user_agent() == old(self).spec_user_agent(),
            r is Ok,
    {
        self.token = None;
        Ok(())
    }

    /// The headers every authenticated call carries: fixed content type,
    /// the session's identity, and the bearer token.
    pub fn get_headers(&self) -> (r: Vec<(String, String)>)
        requires
            self.spec_token() is Some,
        ensures
            r.deep_view() == seq![
                ("Connection"@, "keep-alive"@),
                ("Content-Type"@, "application/json"@),
                ("User-Agent"@, self.spec_user_agent()),
                ("Accept"@, "application/json, text/plain, */*"@),
                ("Authorization"@, "Bearer "@ + self.spec_token()->0),
            ],
    {
        let bearer = match &self.token {
            Some(t) => "Bearer ".to_owned().concat(t.as_str()),
            None => String::new(),
        };
        let mut r: Vec<(String, String)> = Vec::new();
        r.push(("Connection".to_owned(), "keep-alive".to_owned()));
        r.push(("Content-Type".to_owned(), "application/json".to_owned()));
        r.push(("User-Agent".to_owned(), self.user_agent.clone()));
        r.push(("Accept".to_owned(), "application/json, text/plain, */*".to_owned()));
        r.push(("Authorization".to_owned(), bearer));
        proof {
            assert(r.deep_view() =~~= seq![
                ("Connection"@, "keep-alive"@),
                ("Content-Type"@, "application/json"@),
                ("User-Agent"@, self.spec_user_agent()),
                ("Accept"@, "application/json, text/plain, */*"@),
                ("Authorization"@, "Bearer "@ + self.spec_token()->0),
            ]);
        }
        r
    }
}

/// Within one session, once the token of the first authenticated call is
/// stored, a second call has nothing left to acquire: credential
/// acquisition happens once per session until it is closed.
pub proof fn lemma_session_reuse(before: SkysmartAPIClient, after: SkysmartAPIClient, t: String)
    requires
        before.spec_needs_auth(),
        after.spec_token() == Some(t@),
    ensures
        !after.spec_needs_auth(),
{
}

/// A present token field is the token; an absent one is an `Auth` error.
pub fn token_result(field: Option<String>) -> (r: Result<String, ApiError>)
    ensures
        match field {
            Some(t) => r == Ok::<String, ApiError>(t),
            None => r == Err::<String, ApiError>(ApiError::Auth),
        },
{
    match field {
        Some(t) => Ok(t),
        None => Err(ApiError::Auth),
    }
}

/// A present content field is the markup; an absent one is a
/// `MissingContent` error.
pub fn content_result(field: Option<String>) -> (r: Result<String, ApiError>)
    ensures
        match field {
            Some(t) => r == Ok::<String, ApiError>(t),
            None => r == Err::<String, ApiError>(ApiError::MissingContent),
        },
{
    match field {
        Some(t) => Ok(t),
        None => Err(ApiError::MissingContent),
    }
}

/// The values of the entries that are present, in order.
pub open spec fn present_strings(entries: Seq<Option<Seq<char>>>) -> Seq<Seq<char>>
    decreases entries.len(),
{
    if entries.len() == 0 {
        Seq::<Seq<char>>::empty()
    } else {
        present_strings(entries.drop_last()) + match entries.last() {
            Some(s) => seq![s],
            None => Seq::<Seq<char>>::empty(),
        }
    }
}

pub proof fn lemma_present_strings_take(entries: Seq<Option<Seq<char>>>, i: int)
    requires
        0 <= i < entries.len(),
    ensures
        present_strings(entries.take(i + 1)) == present_strings(entries.take(i)) + (match entries[i] {
            Some(s) => seq![s],
            None => Seq::<Seq<char>>::empty(),
        }),
{
    assert(entries.take(i + 1).drop_last() =~= entries.take(i));
    assert(entries.take(i + 1).last() == entries[i]);
}

/// Skipping absent entries can only shrink the list: a result list never
/// holds more entries than were offered.
pub proof fn lemma_present_strings_len(entries: Seq<Option<Seq<char>>>)
    ensures
        present_strings(entries).len() <= entries.len(),
    decreases entries.len(),
{
    if entries.len() > 0 {
        lemma_present_strings_len(entries.drop_last());
    }
}

/// A missing identifier array is a `Resolution` error; a present one is
/// filtered to its string entries, skipped entries causing no failure.
pub fn uuids_result(entries: Option<Vec<Option<String>>>) -> (r: Result<Vec<String>, ApiError>)
    ensures
        match entries {
            None => r == Err::<Vec<String>, ApiError>(ApiError::Resolution),
            Some(es) => r is Ok && r->Ok_0.deep_view() == present_strings(es.deep_view()),
        },
{
    match entries {
        None => Err(ApiError::Resolution),
        Some(es) => {
            let ghost ev = es.deep_view();
            let n = es.len();
            let mut out: Vec<String> = Vec::new();
            let mut i: usize = 0;
            proof {
                assert(ev.take(0) =~= Seq::<Option<Seq<char>>>::empty());
                assert(out.deep_view() =~~= present_strings(ev.take(0)));
            }
            while i < n
                invariant
                    n == es@.len(),
                    ev == es.deep_view(),
                    ev.len() == n,
                    i <= n,
                    out.deep_view() == present_strings(ev.take(i as int)),
                decreases n - i,
            {
                proof {
                    lemma_present_strings_take(ev, i as int);
                }
                match &es[i] {
                    Some(s) => {
                        let ghost prev = out.deep_view();
                        out.push(s.clone());
                        proof {
                            assert(ev[i as int] == Some(s@));
                            assert(out.deep_view() =~~= prev.push(s@));
                            assert(out.deep_view() =~~= present_strings(ev.take(i as int + 1)));
                        }
                    },
                    None => {
                        proof {
                            assert(ev[i as int] is None);
                            assert(present_strings(ev.take(i as int + 1)) =~~= present_strings(
                                ev.take(i as int),
                            ));
                        }
                    },
                }
                i = i + 1;
            }
            proof {
                assert(ev.take(n as int) =~= ev);
            }
            Ok(out)
        },
    }
}

/// The token a credential response carries: its `jwtToken` field's string
/// value, if the response holds one.
pub open spec fn spec_auth_token(v: serde_json::Value) -> Option<Seq<char>> {
    match json_field_of(v, "jwtToken"@) {
        Some(f) => json_str_of(f),
        None => None,
    }
}

/// Reads the token field of a credential response: a held token is
/// returned, and anything else is exactly an `Auth` error.
pub fn parse_auth_response(v: &serde_json::Value) -> (r: Result<String, ApiError>)
    ensures
        match spec_auth_token(*v) {
            Some(t) => r matches Ok(tok) && tok@ == t,
            None => r == Err::<String, ApiError>(ApiError::Auth),
        },
{
    let field = match json_get(v, "jwtToken") {
        Some(t) => json_as_string(t),
        None => None,
    };
    token_result(field)
}

/// The identifier array a room response carries: its `meta.stepUuids`
/// field's elements, if the response holds such an array.
pub open spec fn spec_room_items(v: serde_json::Value) -> Option<Seq<serde_json::Value>> {
    match json_field_of(v, "meta"@) {
        Some(m) => match json_field_of(m, "stepUuids"@) {
            Some(s) => json_items_of(s),
            None => None,
        },
        None => None,
    }
}

/// Each entry's string value, where it has one.
pub open spec fn spec_entry_strings(items: Seq<serde_json::Value>) -> Seq<Option<Seq<char>>> {
    items.map_values(|it: serde_json::Value| json_str_of(it))
}

/// Reads the nested identifier array of a room response: a held array is
/// filtered to its string entries, in order, skipped entries never fatal;
/// a missing array is exactly a `Resolution` error.
pub fn parse_room_response(v: &serde_json::Value) -> (r: Result<Vec<String>, ApiError>)
    ensures
        match spec_room_items(*v) {
            Some(items) => r matches Ok(u) && u.deep_view() == present_strings(
                spec_entry_strings(items),
            ),
            None => r == Err::<Vec<String>, ApiError>(ApiError::Resolution),
        },
{
    let arr = match json_get(v, "meta") {
        Some(m) => match json_get(m, "stepUuids") {
            Some(s) => json_as_array(s),
            None => None,
        },
        None => None,
    };
    match arr {
        None => uuids_result(None),
        Some(items) => {
            let ghost iv = items@;
            let n = items.len();
            let mut entries: Vec<Option<String>> = Vec::new();
            let mut i: usize = 0;
            proof {
                assert(spec_room_items(*v) == Some(iv));
                assert(iv.take(0) =~= Seq::<serde_json::Value>::empty());
                assert(entries.deep_view() =~~= spec_entry_strings(iv.take(0)));
            }
            while i < n
                invariant
                    n == items@.len(),
                    iv == items@,
                    i <= n,
                    entries.deep_view() == spec_entry_strings(iv.take(i as int)),
                decreases n - i,
            {
                let e = json_as_string(&items[i]);
                let ghost prev = entries.deep_view();
                proof {
                    assert(e.deep_view() == json_str_of(iv[i as int]));
                }
                entries.push(e);
                proof {
                    assert(entries.deep_view() =~~= prev.push(json_str_of(iv[i as int])));
                    assert(entries.deep_view() =~~= spec_entry_strings(iv.take(i as int + 1)));
                }
                i = i + 1;
            }
            proof {
                assert(iv.take(n as int) =~= iv);
            }
            uuids_result(Some(entries))
        },
    }
}

/// The markup a task response carries: its `content` field's string
/// value, if the response holds one.
pub open spec fn spec_task_content(v: serde_json::Value) -> Option<Seq<char>> {
    match json_field_of(v, "content"@) {
        Some(c) => json_str_of(c),
        None => None,
    }
}

/// Reads the content field of a task response: held markup is returned
/// verbatim, and anything else is exactly a `MissingContent` error.
pub fn parse_task_response(v: &serde_json::Value) -> (r: Result<String, ApiError>)
    ensures
        match spec_task_content(*v) {
            Some(c) => r matches Ok(markup) && markup@ == c,
            None => r == Err::<String, ApiError>(ApiError::MissingContent),
        },
{
    let field = match json_get(v, "content") {
        Some(c) => json_as_string(c),
        None => None,
    };
    content_result(field)
}

/// Success statuses are exactly the 2xx range; anything else is a
/// `Remote` error carrying the status.
pub fn check_status(status: u16) -> (r: Result<(), ApiError>)
    ensures
        r is Ok <==> 200 <= status < 300,
        !(200 <= status < 300) ==> r == Err::<(), ApiError>(ApiError::Remote(status)),
{
    if 200 <= status && status < 300 {
        Ok(())
    } else {
        Err(ApiError::Remote(status))
    }
}

} // verus!
