//! An authenticated API session: where requests go, how responses are
//! judged, and how tokens echoed in responses are scrubbed.
use vstd::prelude::*;

use crate::cli::{ApiRequest, Method};
use crate::config::Credentials;
use crate::error::Error;
use crate::json::{
    entry_keys, entry_vals, insert_all, insert_entry, lemma_array_view, lemma_insert_all_distinct,
    lemma_insert_all_members, lemma_object_view, views, Json, JsonView,
};
use crate::text::{
    chars_of, decimal, has_prefix, lemma_replace_absent, lemma_replace_removes, maskable, occurs,
    push_decimal, push_str, replace_all, replace_chars, starts_with, string_of, strip_trailing,
    strip_trailing_chars, texts,
};

verus! {

/// The text that stands in for a token in a response.
pub open spec fn redaction() -> Seq<char> {
    "[REDACTED]"@
}

/// The text with each nonempty secret, in turn, replaced by the redaction mark.
pub open spec fn redact_text(t: Seq<char>, secrets: Seq<Seq<char>>) -> Seq<char>
    decreases secrets.len(),
{
    if secrets.len() == 0 {
        t
    } else {
        let t1 = if secrets[0].len() > 0 {
            replace_all(t, secrets[0], redaction())
        } else {
            t
        };
        redact_text(t1, secrets.drop_first())
    }
}

/// The document with every string and every object key redacted. An object is
/// rebuilt by inserting its redacted members in order, so of two keys that
/// redact to the same text the later value stays, at the first position.
pub open spec fn redact_json(v: JsonView, secrets: Seq<Seq<char>>) -> JsonView
    decreases v,
{
    match v {
        JsonView::Str(t) => JsonView::Str(redact_text(t, secrets)),
        JsonView::Array(items) => JsonView::Array(
            Seq::new(
                items.len(),
                |i: int|
                    if 0 <= i < items.len() {
                        redact_json(items[i], secrets)
                    } else {
                        JsonView::Null
                    },
            ),
        ),
        JsonView::Object(keys, vals) => {
            let r = insert_all(redact_keys(keys, secrets), redact_vals(keys.len(), vals, secrets));
            JsonView::Object(r.0, r.1)
        },
        _ => v,
    }
}

/// The redacted keys of an object.
pub open spec fn redact_keys(keys: Seq<Seq<char>>, secrets: Seq<Seq<char>>) -> Seq<Seq<char>> {
    Seq::new(keys.len(), |i: int| redact_text(keys[i], secrets))
}

/// The first `n` redacted values of an object.
pub open spec fn redact_vals(n: nat, vals: Seq<JsonView>, secrets: Seq<Seq<char>>) -> Seq<
    JsonView,
>
    decreases vals,
{
    Seq::new(
        n,
        |i: int|
            if 0 <= i < vals.len() {
                redact_json(vals[i], secrets)
            } else {
                JsonView::Null
            },
    )
}

/// The text with every secret scrubbed.
pub fn redact_string(t: &String, secrets: &Vec<String>) -> (r: String)
    ensures
        r@ == redact_text(t@, texts(secrets@)),
{
    let ghost all = texts(secrets@);
    let mark = chars_of("[REDACTED]");
    let mut cur = chars_of(t.as_str());
    let mut k: usize = 0;
    assert(all.skip(0) =~= all);
    while k < secrets.len()
        invariant
            k <= secrets@.len(),
            all == texts(secrets@),
            mark@ == redaction(),
            redact_text(t@, all) == redact_text(cur@, all.skip(k as int)),
        decreases secrets@.len() - k,
    {
        let s = chars_of(secrets[k].as_str());
        assert(all.skip(k as int).drop_first() =~= all.skip(k + 1));
        assert(all.skip(k as int)[0] == s@);
        if s.len() > 0 {
            cur = replace_chars(&cur, &s, &mark);
        }
        k = k + 1;
    }
    string_of(&cur)
}

/// A copy of the document with every string and every object key redacted.
pub fn redacted(value: &Json, secrets: &Vec<String>) -> (r: Json)
    ensures
        r@ == redact_json(value@, texts(secrets@)),
    decreases value,
{
    let ghost s = texts(secrets@);
    match value {
        Json::Null => {
            assert(redact_json(value@, s) == JsonView::Null);
            Json::Null
        },
        Json::Bool(b) => {
            assert(redact_json(value@, s) == JsonView::Bool(*b));
            Json::Bool(*b)
        },
        Json::Number(n) => {
            assert(redact_json(value@, s) == JsonView::Number(n@));
            Json::Number(n.clone())
        },
        Json::Str(t) => {
            let r = Json::Str(redact_string(t, secrets));
            assert(r@ == redact_json(value@, s));
            r
        },
        Json::Array(items) => {
            proof {
                lemma_array_view(*items);
            }
            let ghost target = Seq::new(items@.len(), |i: int| redact_json(items@[i]@, s));
            let mut out: Vec<Json> = Vec::new();
            let mut i: usize = 0;
            while i < items.len()
                invariant
                    i <= items@.len(),
                    out@.len() == i,
                    s == texts(secrets@),
                    *value == Json::Array(*items),
                    target == Seq::new(items@.len(), |i: int| redact_json(items@[i]@, s)),
                    forall|j: int| 0 <= j < i ==> #[trigger] out@[j]@ == target[j],
                decreases items@.len() - i,
            {
                proof {
                    assert(decreases_to!(*value => (*value)->Array_0));
                    assert(decreases_to!(*items => items@));
                    assert(decreases_to!(items@ => items@[i as int]));
                    assert(decreases_to!(*value => items@[i as int]));
                }
                let r = redacted(&items[i], secrets);
                out.push(r);
                i = i + 1;
            }
            proof {
                lemma_array_view(out);
                assert(views(out@) =~= redact_json(value@, s)->Array_0);
                assert(Json::Array(out)@ == redact_json(value@, s));
            }
            Json::Array(out)
        },
        Json::Object(entries) => {
            proof {
                lemma_object_view(*entries);
            }
            let ghost keys = entry_keys(entries@);
            let ghost vals = entry_vals(entries@);
            let ghost rk = redact_keys(keys, s);
            let ghost rv = redact_vals(keys.len(), vals, s);
            let mut out: Vec<(String, Json)> = Vec::new();
            let mut i: usize = 0;
            assert(rk.take(0) =~= Seq::<Seq<char>>::empty());
            assert(entry_keys(out@) =~= Seq::<Seq<char>>::empty());
            assert(entry_vals(out@) =~= Seq::<JsonView>::empty());
            while i < entries.len()
                invariant
                    i <= entries@.len(),
                    s == texts(secrets@),
                    *value == Json::Object(*entries),
                    keys == entry_keys(entries@),
                    vals == entry_vals(entries@),
                    rk == redact_keys(keys, s),
                    rv == redact_vals(keys.len(), vals, s),
                    (entry_keys(out@), entry_vals(out@)) == insert_all(
                        rk.take(i as int),
                        rv.take(i as int),
                    ),
                decreases entries@.len() - i,
            {
                let k = redact_string(&entries[i].0, secrets);
                proof {
                    assert(decreases_to!(*value => (*value)->Object_0));
                    assert(decreases_to!(*entries => entries@));
                    assert(decreases_to!(entries@ => entries@[i as int]));
                    assert(decreases_to!(entries@[i as int] => entries@[i as int].1));
                    assert(decreases_to!(*value => entries@[i as int].1));
                }
                let v = redacted(&entries[i].1, secrets);
                insert_entry(&mut out, k, v);
                proof {
                    let k1 = rk.take(i + 1);
                    assert(k1.drop_last() =~= rk.take(i as int));
                    assert(rv.take(i + 1).take(i as int) =~= rv.take(i as int));
                }
                i = i + 1;
            }
            proof {
                lemma_object_view(out);
                assert(rk.take(entries@.len() as int) =~= rk);
                assert(rv.take(entries@.len() as int) =~= rv);
                assert(Json::Object(out)@ == redact_json(value@, s));
            }
            Json::Object(out)
        },
    }
}

/// Scrubs every secret from the strings and object keys of a document.
pub fn redact(value: &mut Json, secrets: &Vec<String>)
    ensures
        final(value)@ == redact_json(old(value)@, texts(secrets@)),
{
    let r = redacted(value, secrets);
    *value = r;
}

/// None of the nonempty secrets occurs in the text.
pub open spec fn text_clean(t: Seq<char>, secrets: Seq<Seq<char>>) -> bool {
    forall|k: int| 0 <= k < secrets.len() && secrets[k].len() > 0 ==> !occurs(t, secrets[k])
}

/// No secret occurs in any string or key of the document, and each object
/// has distinct keys and one value per key, as every parsed JSON object has.
pub open spec fn untouched(v: JsonView, secrets: Seq<Seq<char>>) -> bool
    decreases v, 1nat,
{
    match v {
        JsonView::Str(t) => text_clean(t, secrets),
        JsonView::Array(items) => all_untouched(items, secrets, items.len()),
        JsonView::Object(keys, vals) => {
            &&& keys.len() == vals.len()
            &&& keys.no_duplicates()
            &&& forall|i: int| 0 <= i < keys.len() ==> #[trigger] text_clean(keys[i], secrets)
            &&& all_untouched(vals, secrets, vals.len())
        },
        _ => true,
    }
}

/// The first `n` documents are untouched.
pub open spec fn all_untouched(items: Seq<JsonView>, secrets: Seq<Seq<char>>, n: nat) -> bool
    decreases items, n,
{
    if n == 0 {
        true
    } else if n <= items.len() {
        all_untouched(items, secrets, (n - 1) as nat) && untouched(items[n - 1], secrets)
    } else {
        false
    }
}

/// `s` occurs in no string and no key of the document.
pub open spec fn free_of(v: JsonView, s: Seq<char>) -> bool
    decreases v, 1nat,
{
    match v {
        JsonView::Str(t) => !occurs(t, s),
        JsonView::Array(items) => all_free_of(items, s, items.len()),
        JsonView::Object(keys, vals) => {
            &&& forall|i: int| 0 <= i < keys.len() ==> !occurs(#[trigger] keys[i], s)
            &&& all_free_of(vals, s, vals.len())
        },
        _ => true,
    }
}

/// `s` occurs in none of the first `n` documents.
pub open spec fn all_free_of(items: Seq<JsonView>, s: Seq<char>, n: nat) -> bool
    decreases items, n,
{
    if n == 0 {
        true
    } else if n <= items.len() {
        all_free_of(items, s, (n - 1) as nat) && free_of(items[n - 1], s)
    } else {
        false
    }
}

proof fn lemma_all_untouched(items: Seq<JsonView>, secrets: Seq<Seq<char>>, n: nat)
    requires
        n <= items.len(),
    ensures
        all_untouched(items, secrets, n) <==> forall|i: int|
            0 <= i < n ==> #[trigger] untouched(items[i], secrets),
    decreases n,
{
    if n > 0 {
        lemma_all_untouched(items, secrets, (n - 1) as nat);
        assert(all_untouched(items, secrets, n) == (all_untouched(items, secrets, (n - 1) as nat)
            && untouched(items[n - 1], secrets)));
    }
}

proof fn lemma_all_free_of(items: Seq<JsonView>, s: Seq<char>, n: nat)
    requires
        n <= items.len(),
    ensures
        all_free_of(items, s, n) <==> forall|i: int| 0 <= i < n ==> #[trigger] free_of(items[i], s),
    decreases n,
{
    if n > 0 {
        lemma_all_free_of(items, s, (n - 1) as nat);
        assert(all_free_of(items, s, n) == (all_free_of(items, s, (n - 1) as nat) && free_of(
            items[n - 1],
            s,
        )));
    }
}

proof fn lemma_redaction_mark()
    ensures
        redaction().len() == 10,
        redaction()[0] == '[',
        redaction().last() == ']',
{
    reveal_strlit("[REDACTED]");
}

proof fn lemma_redact_text_clean(t: Seq<char>, secrets: Seq<Seq<char>>)
    requires
        text_clean(t, secrets),
    ensures
        redact_text(t, secrets) == t,
    decreases secrets.len(),
{
    if secrets.len() > 0 {
        if secrets[0].len() > 0 {
            lemma_replace_absent(t, secrets[0], redaction());
        }
        let rest = secrets.drop_first();
        assert forall|k: int| 0 <= k < rest.len() && rest[k].len() > 0 implies !occurs(t, rest[k]) by {
            assert(rest[k] == secrets[k + 1]);
        }
        lemma_redact_text_clean(t, rest);
    }
}

proof fn lemma_redact_text_keeps_out(t: Seq<char>, secrets: Seq<Seq<char>>, s: Seq<char>)
    requires
        maskable(s, redaction()),
        !occurs(t, s),
    ensures
        !occurs(redact_text(t, secrets), s),
    decreases secrets.len(),
{
    if secrets.len() > 0 {
        lemma_redaction_mark();
        let t1 = if secrets[0].len() > 0 {
            replace_all(t, secrets[0], redaction())
        } else {
            t
        };
        if secrets[0].len() > 0 {
            lemma_replace_removes(t, secrets[0], redaction(), s);
        }
        lemma_redact_text_keeps_out(t1, secrets.drop_first(), s);
    }
}

proof fn lemma_redact_text_removes(t: Seq<char>, secrets: Seq<Seq<char>>, k: int)
    requires
        0 <= k < secrets.len(),
        maskable(secrets[k], redaction()),
    ensures
        !occurs(redact_text(t, secrets), secrets[k]),
    decreases secrets.len(),
{
    lemma_redaction_mark();
    let t1 = if secrets[0].len() > 0 {
        replace_all(t, secrets[0], redaction())
    } else {
        t
    };
    let rest = secrets.drop_first();
    if k == 0 {
        lemma_replace_removes(t, secrets[0], redaction(), secrets[0]);
        lemma_redact_text_keeps_out(t1, rest, secrets[0]);
    } else {
        assert(rest[k - 1] == secrets[k]);
        lemma_redact_text_removes(t1, rest, k - 1);
    }
}

/// Redaction leaves a document that holds none of the secrets exactly as it
/// is: titles that do not contain a token, and fields the program does not
/// know, come through unchanged.
pub proof fn lemma_redact_leaves_clean_documents(v: JsonView, secrets: Seq<Seq<char>>)
    requires
        untouched(v, secrets),
    ensures
        redact_json(v, secrets) == v,
    decreases v,
{
    match v {
        JsonView::Str(t) => {
            lemma_redact_text_clean(t, secrets);
        },
        JsonView::Array(items) => {
            lemma_all_untouched(items, secrets, items.len());
            let r = redact_json(v, secrets)->Array_0;
            assert forall|i: int| 0 <= i < items.len() implies r[i] == items[i] by {
                assert(untouched(items[i], secrets));
                lemma_redact_leaves_clean_documents(items[i], secrets);
            }
            assert(r =~= items);
        },
        JsonView::Object(keys, vals) => {
            let rk = redact_keys(keys, secrets);
            let rv = redact_vals(keys.len(), vals, secrets);
            lemma_all_untouched(vals, secrets, vals.len());
            assert forall|i: int| 0 <= i < keys.len() implies rk[i] == keys[i] by {
                assert(text_clean(keys[i], secrets));
                lemma_redact_text_clean(keys[i], secrets);
            }
            assert forall|i: int| 0 <= i < vals.len() implies rv[i] == vals[i] by {
                assert(untouched(vals[i], secrets));
                lemma_redact_leaves_clean_documents(vals[i], secrets);
            }
            assert(rk =~= keys);
            assert(rv =~= vals);
            lemma_insert_all_distinct(keys, vals);
        },
        _ => {},
    }
}

/// A token echoed in a response never survives redaction: after it, no string
/// and no key of the document contains a secret that the redaction mark
/// cannot bring back (one that is not part of the mark and has no brackets,
/// as tokens are).
pub proof fn lemma_redact_removes_tokens(v: JsonView, secrets: Seq<Seq<char>>, k: int)
    requires
        0 <= k < secrets.len(),
        maskable(secrets[k], redaction()),
    ensures
        free_of(redact_json(v, secrets), secrets[k]),
    decreases v,
{
    let s = secrets[k];
    match v {
        JsonView::Str(t) => {
            lemma_redact_text_removes(t, secrets, k);
        },
        JsonView::Array(items) => {
            let r = redact_json(v, secrets)->Array_0;
            assert forall|i: int| 0 <= i < r.len() implies #[trigger] free_of(r[i], s) by {
                lemma_redact_removes_tokens(items[i], secrets, k);
            }
            lemma_all_free_of(r, s, r.len());
        },
        JsonView::Object(keys, vals) => {
            let rk = redact_keys(keys, secrets);
            let rv = redact_vals(keys.len(), vals, secrets);
            lemma_insert_all_members(rk, rv);
            let r = insert_all(rk, rv);
            assert forall|i: int| 0 <= i < r.0.len() implies !occurs(#[trigger] r.0[i], s) by {
                let j = choose|j: int| 0 <= j < rk.len() && r.0[i] == rk[j];
                lemma_redact_text_removes(keys[j], secrets, k);
            }
            assert forall|i: int| 0 <= i < r.1.len() implies #[trigger] free_of(r.1[i], s) by {
                let j = choose|j: int| 0 <= j < rv.len() && r.1[i] == rv[j];
                if j < vals.len() {
                    lemma_redact_removes_tokens(vals[j], secrets, k);
                }
            }
            lemma_all_free_of(r.1, s, r.1.len());
        },
        _ => {},
    }
}

/// A response's error never depends on its body: two responses with the same
/// status that both fail, fail alike.
pub proof fn lemma_errors_ignore_body(status: u16, a: Option<JsonView>, b: Option<JsonView>)
    requires
        decode_result(status, a) is Err,
        decode_result(status, b) is Err,
    ensures
        decode_result(status, a) == decode_result(status, b),
{
}

/// The reason phrase that `reqwest::StatusCode` shows for a status code: its
/// canonical reason, or `<unknown status code>`.
pub uninterp spec fn status_reason(code: u16) -> Seq<char>;

/// How a status code is shown: the code in decimal, a space and its reason
/// phrase; nothing for a number that is no HTTP status code.
pub open spec fn shown_status(code: u16) -> Seq<char> {
    if 100 <= code <= 999 {
        decimal(code as nat) + " "@ + status_reason(code)
    } else {
        Seq::empty()
    }
}

/// `reqwest::StatusCode::from_u16(code)`, shown with `Display`. The source
/// writes the code in decimal, a space, and the reason phrase; `from_u16`
/// refuses numbers outside 100 to 999, which are shown as nothing.
#[verifier::external_body]
fn status_text(code: u16) -> (s: String)
    ensures
        100 <= code <= 999 ==> s@ == decimal(code as nat) + " "@ + status_reason(code),
        !(100 <= code <= 999) ==> s@ == Seq::<char>::empty(),
{
    match reqwest::StatusCode::from_u16(code) {
        Ok(status) => status.to_string(),
        Err(_) => String::new(),
    }
}

/// The exit code and message prefix for an unsuccessful status.
pub open spec fn status_failure(status: u16) -> (i32, Seq<char>) {
    if status == 400 {
        (1, "MLC rejected the query; check search criteria and identifier values"@)
    } else if status == 401 || status == 403 {
        (2, "MLC rejected authentication or access"@)
    } else if status == 404 {
        (3, "MLC resource not found"@)
    } else if status == 429 {
        (4, "MLC rate limit reached; retry later"@)
    } else {
        (1, "MLC request was unsuccessful"@)
    }
}

/// A 2xx status.
pub open spec fn is_success(status: u16) -> bool {
    200 <= status < 300
}

/// The message of an unsuccessful status, given the status as
/// `reqwest::StatusCode` shows it.
pub open spec fn failure_message(status: u16, shown: Seq<char>) -> Seq<char> {
    status_failure(status).1 + " (HTTP "@ + shown + ")"@
}

/// The error for an unsuccessful status, given the status as
/// `reqwest::StatusCode` shows it.
pub fn failure(status: u16, shown: &str) -> (e: Error)
    ensures
        e.is(status_failure(status).0, failure_message(status, shown@)),
{
    let (code, message): (i32, &str) = if status == 400 {
        (1, "MLC rejected the query; check search criteria and identifier values")
    } else if status == 401 || status == 403 {
        (2, "MLC rejected authentication or access")
    } else if status == 404 {
        (3, "MLC resource not found")
    } else if status == 429 {
        (4, "MLC rate limit reached; retry later")
    } else {
        (1, "MLC request was unsuccessful")
    };
    let mut text: Vec<char> = Vec::new();
    push_str(&mut text, message);
    push_str(&mut text, " (HTTP ");
    push_str(&mut text, shown);
    push_str(&mut text, ")");
    assert(text@ =~= failure_message(status, shown@));
    Error::new(code, string_of(&text).as_str())
}

/// What a response comes to: its document for a successful status and a body
/// that parsed as JSON, else the exit code and message of the error. No
/// message holds any part of the response body.
pub open spec fn decode_result(status: u16, body: Option<JsonView>) -> Result<
    JsonView,
    (i32, Seq<char>),
> {
    if !is_success(status) {
        Err(
            (
                status_failure(status).0,
                failure_message(status, shown_status(status)),
            ),
        )
    } else {
        match body {
            Some(b) => Ok(b),
            None => Err((1, "MLC returned invalid JSON"@)),
        }
    }
}

pub open spec fn opt_json(body: Option<Json>) -> Option<JsonView> {
    match body {
        Some(b) => Some(b@),
        None => None,
    }
}

/// Judges a response by its status and by its body, `None` when the body was
/// not valid JSON.
pub fn decode(status: u16, body: Option<Json>) -> (r: Result<Json, Error>)
    ensures
        match decode_result(status, opt_json(body)) {
            Ok(v) => r matches Ok(j) && j@ == v,
            Err((c, m)) => r matches Err(e) && e.is(c, m),
        },
{
    if !(200 <= status && status < 300) {
        let shown = status_text(status);
        return Err(failure(status, shown.as_str()));
    }
    match body {
        Some(b) => Ok(b),
        None => Err(Error::new(1, "MLC returned invalid JSON")),
    }
}

/// The API root used when no valid override is given.
pub open spec fn default_base() -> Seq<char> {
    "https://public-api.themlc.com/"@
}

/// An override of the API root is used when it is an HTTP(S) URL.
pub open spec fn valid_override(url: Seq<char>) -> bool {
    has_prefix(url, "http://"@) || has_prefix(url, "https://"@)
}

/// The API root: the override without its trailing slashes and with exactly
/// one added, when it is an HTTP(S) URL; the public MLC host otherwise.
pub open spec fn base_url(env_url: Option<Seq<char>>) -> Seq<char> {
    match env_url {
        Some(u) => if valid_override(u) {
            strip_trailing(u, '/').push('/')
        } else {
            default_base()
        },
        None => default_base(),
    }
}

/// The API root for the value of the `MLC_API_URL` override, if set.
pub fn api_base(env_url: Option<String>) -> (r: String)
    ensures
        r@ == base_url(match env_url {
            Some(u) => Some(u@),
            None => None,
        }),
{
    if let Some(url) = env_url {
        let v = chars_of(url.as_str());
        let http = chars_of("http://");
        let https = chars_of("https://");
        if starts_with(&v, &http) || starts_with(&v, &https) {
            let mut base = strip_trailing_chars(&v, '/');
            base.push('/');
            return string_of(&base);
        }
    }
    "https://public-api.themlc.com/".to_string()
}

/// The token request: `POST oauth/token` with the credentials as its body.
pub fn login_request(credentials: &Credentials) -> (r: ApiRequest)
    ensures
        r.method == Method::Post,
        r.path@ == "oauth/token"@,
        r.body matches Some(b) && b@ == JsonView::Object(
            seq!["username"@, "password"@],
            seq![JsonView::Str(credentials.username@), JsonView::Str(credentials.password@)],
        ),
{
    ApiRequest {
        method: Method::Post,
        path: "oauth/token".to_string(),
        body: Some(login_body(credentials)),
    }
}

/// The body of `POST /oauth/token`.
pub fn login_body(credentials: &Credentials) -> (r: Json)
    ensures
        r@ == JsonView::Object(
            seq!["username"@, "password"@],
            seq![JsonView::Str(credentials.username@), JsonView::Str(credentials.password@)],
        ),
{
    let mut entries: Vec<(String, Json)> = Vec::new();
    entries.push(("username".to_string(), Json::string(credentials.username.as_str())));
    entries.push(("password".to_string(), Json::string(credentials.password.as_str())));
    proof {
        lemma_object_view(entries);
        assert(entry_keys(entries@) =~= seq!["username"@, "password"@]);
        assert(entry_vals(entries@) =~= seq![
            JsonView::Str(credentials.username@),
            JsonView::Str(credentials.password@),
        ]);
    }
    Json::Object(entries)
}

/// The string stored under `key` of an object.
pub open spec fn string_member(body: JsonView, key: Seq<char>) -> Option<Seq<char>> {
    match body.get(key) {
        Some(v) => v.as_str(),
        None => None,
    }
}

/// The text, if any, as a list of zero or one texts.
pub open spec fn listed(o: Option<Seq<char>>) -> Seq<Seq<char>> {
    match o {
        Some(t) => seq![t],
        None => Seq::empty(),
    }
}

/// The ID token of a token response, when it is a nonempty string.
pub open spec fn id_token(body: JsonView) -> Option<Seq<char>> {
    match string_member(body, "idToken"@) {
        Some(t) => if t.len() > 0 {
            Some(t)
        } else {
            None
        },
        None => None,
    }
}

/// The tokens scrubbed from responses: the ID token, then the refresh and the
/// access token where the token response holds them as strings.
pub open spec fn session_secrets(body: JsonView, token: Seq<char>) -> Seq<Seq<char>> {
    seq![token] + listed(string_member(body, "refreshToken"@)) + listed(
        string_member(body, "accessToken"@),
    )
}

/// An authenticated session with the API.
pub struct Client {
    /// The API root, ending in `/`.
    pub base: String,
    /// The bearer token of data requests: the JWT ID token.
    pub token: String,
    /// The tokens scrubbed from every response.
    pub secrets: Vec<String>,
}

impl Client {
    /// The session that a token response opens. Usernames and passwords are
    /// not scrubbed: the API never echoes them, and scrubbing them would alter
    /// titles that contain the same text.
    pub fn from_login_response(base: String, body: &Json) -> (r: Result<Client, Error>)
        ensures
            match id_token(body@) {
                Some(t) => r matches Ok(c) && (c.base@ == base@ && c.token@ == t && texts(
                    c.secrets@,
                ) == session_secrets(body@, t)),
                None => r matches Err(e) && e.is(
                    2,
                    "MLC did not return an ID token; check credentials"@,
                ),
            },
    {
        let token = match body.get("idToken") {
            Some(v) => match v.as_str() {
                Some(t) => if !t.is_empty() {
                    t
                } else {
                    return Err(Error::new(2, "MLC did not return an ID token; check credentials"));
                },
                None => {
                    return Err(Error::new(2, "MLC did not return an ID token; check credentials"));
                },
            },
            None => {
                return Err(Error::new(2, "MLC did not return an ID token; check credentials"));
            },
        };
        let mut secrets: Vec<String> = Vec::new();
        secrets.push(token.to_string());
        let ghost s0 = secrets@;
        if let Some(v) = body.get("refreshToken") {
            if let Some(t) = v.as_str() {
                secrets.push(t.to_string());
            }
        }
        let ghost s1 = secrets@;
        if let Some(v) = body.get("accessToken") {
            if let Some(t) = v.as_str() {
                secrets.push(t.to_string());
            }
        }
        proof {
            assert(texts(s0) =~= seq![token@]);
            assert(texts(s1) =~= seq![token@] + listed(string_member(body@, "refreshToken"@)));
            assert(texts(secrets@) =~= session_secrets(body@, token@));
        }
        Ok(Client { base, token: token.to_string(), secrets })
    }

    /// The URL of an API path.
    pub fn url(&self, path: &str) -> (r: String)
        ensures
            r@ == self.base@ + path@,
    {
        let mut u = self.base.clone();
        u.append(path);
        u
    }

    /// The outcome of a data request: the response judged as `decode` does,
    /// with every session secret scrubbed from the document.
    pub fn receive(&self, status: u16, body: Option<Json>) -> (r: Result<Json, Error>)
        ensures
            match decode_result(status, opt_json(body)) {
                Ok(v) => r matches Ok(j) && j@ == redact_json(v, texts(self.secrets@)),
                Err((c, m)) => r matches Err(e) && e.is(c, m),
            },
    {
        let mut result = decode(status, body)?;
        redact(&mut result, &self.secrets);
        Ok(result)
    }
}


/// The exit code of an unsuccessful response follows the README's table: 2
/// for a refused authentication (401, 403), 3 for not found (404), 4 for a
/// rate limit (429), and 1 for every other status, a refused query (400)
/// included. A successful status with a JSON body gives that body, and one
/// with any other body fails with code 1.
pub proof fn lemma_exit_codes(status: u16, body: Option<JsonView>)
    ensures
        !(200 <= status < 300) ==> (decode_result(status, body) matches Err((c, m)) && c == (
        if status == 401 || status == 403 {
            2i32
        } else if status == 404 {
            3i32
        } else if status == 429 {
            4i32
        } else {
            1i32
        }) && m == (if status == 400 {
            "MLC rejected the query; check search criteria and identifier values"@
        } else if status == 401 || status == 403 {
            "MLC rejected authentication or access"@
        } else if status == 404 {
            "MLC resource not found"@
        } else if status == 429 {
            "MLC rate limit reached; retry later"@
        } else {
            "MLC request was unsuccessful"@
        }) + " (HTTP "@ + shown_status(status) + ")"@),
        200 <= status < 300 ==> decode_result(status, body) == match body {
            Some(b) => Ok::<JsonView, (i32, Seq<char>)>(b),
            None => Err((1i32, "MLC returned invalid JSON"@)),
        },
{
}

} // verus!
