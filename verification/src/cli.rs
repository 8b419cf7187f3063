//! The commands' arguments and the API requests that they become.
use vstd::prelude::*;

use crate::error::Error;
use crate::json::{
    entry_keys, entry_vals, key_pos, lemma_array_view, lemma_key_pos_at, lemma_key_pos_bounds,
    lemma_object_view, obj_get, views, Json, JsonView,
};
use crate::text::{is_ascii_alnum, is_ascii_alnum_char, chars_of};

verus! {

/// Search musical works or sound recordings.
pub enum Search {
    /// Search by title and writer (both required by the live API).
    Works(WorkSearch),
    /// Search by ISRC, recording title and/or artist.
    Recordings(RecordingSearch),
}

/// A work search: a title and at least one writer field.
pub struct WorkSearch {
    pub title: String,
    pub writer_first_name: Option<String>,
    pub writer_last_name: Option<String>,
    pub writer_ipi: Option<String>,
}

/// A recording search: at least one of title, artist and ISRC.
pub struct RecordingSearch {
    pub title: Option<String>,
    pub artist: Option<String>,
    pub isrc: Option<String>,
}

/// Retrieve musical works by MLC song code.
pub enum Work {
    /// Get one work by MLC song code.
    Get { id: String },
    /// Get multiple works by MLC song code in a single request.
    Batch { ids: Vec<String> },
}

/// Save credentials or check authentication.
pub enum Auth {
    /// Verify credentials with a login, then save them; with `no_input`,
    /// read them from the environment instead of prompting.
    Setup { no_input: bool },
    /// Show the credential source without authenticating or displaying secrets.
    Status,
}

/// The commands that query the API.
pub enum Query {
    Search(Search),
    Work(Work),
}

/// The HTTP method of an API request.
#[derive(Debug, PartialEq, Eq, Structural, Clone, Copy)]
pub enum Method {
    Get,
    Post,
}

/// An API request: method, path below the API root, and JSON body.
#[derive(Debug)]
pub struct ApiRequest {
    pub method: Method,
    pub path: String,
    pub body: Option<Json>,
}

pub open spec fn opt_view(o: Option<String>) -> Option<Seq<char>> {
    match o {
        Some(s) => Some(s@),
        None => None,
    }
}

/// The members made of the fields that are present, in order, each as a string.
pub open spec fn present(fields: Seq<(Seq<char>, Option<Seq<char>>)>) -> (
    Seq<Seq<char>>,
    Seq<JsonView>,
)
    decreases fields.len(),
{
    if fields.len() == 0 {
        (Seq::empty(), Seq::empty())
    } else {
        let r = present(fields.drop_last());
        match fields.last().1 {
            Some(t) => (r.0.push(fields.last().0), r.1.push(JsonView::Str(t))),
            None => r,
        }
    }
}

impl WorkSearch {
    /// The members of the writer filter.
    pub open spec fn writer_members(self) -> (Seq<Seq<char>>, Seq<JsonView>) {
        present(
            seq![
                ("writerFirstName"@, opt_view(self.writer_first_name)),
                ("writerLastName"@, opt_view(self.writer_last_name)),
                ("writerIPI"@, opt_view(self.writer_ipi)),
            ],
        )
    }

    /// The request body: the title, and the writer filter when it has a member.
    pub open spec fn body_view(self) -> JsonView {
        let w = self.writer_members();
        if w.0.len() == 0 {
            JsonView::Object(seq!["title"@], seq![JsonView::Str(self.title@)])
        } else {
            JsonView::Object(
                seq!["title"@, "writers"@],
                seq![JsonView::Str(self.title@), JsonView::Array(seq![JsonView::Object(w.0, w.1)])],
            )
        }
    }

    /// The body of `POST /search/songcode`.
    pub fn body(&self) -> (r: Json)
        ensures
            r@ == self.body_view(),
    {
        let mut writer: Vec<(String, Json)> = Vec::new();
        let ghost f0 = Seq::<(Seq<char>, Option<Seq<char>>)>::empty();
        assert((entry_keys(writer@), entry_vals(writer@)) == present(f0)) by {
            assert(entry_keys(writer@) =~= Seq::<Seq<char>>::empty());
            assert(entry_vals(writer@) =~= Seq::<JsonView>::empty());
        }
        self::add(&mut writer, "writerFirstName", &self.writer_first_name, Ghost(f0));
        let ghost f1 = f0.push(("writerFirstName"@, opt_view(self.writer_first_name)));
        self::add(&mut writer, "writerLastName", &self.writer_last_name, Ghost(f1));
        let ghost f2 = f1.push(("writerLastName"@, opt_view(self.writer_last_name)));
        self::add(&mut writer, "writerIPI", &self.writer_ipi, Ghost(f2));
        let ghost f3 = f2.push(("writerIPI"@, opt_view(self.writer_ipi)));
        assert(f3 =~= seq![
            ("writerFirstName"@, opt_view(self.writer_first_name)),
            ("writerLastName"@, opt_view(self.writer_last_name)),
            ("writerIPI"@, opt_view(self.writer_ipi)),
        ]);
        let mut body: Vec<(String, Json)> = Vec::new();
        body.push(("title".to_string(), Json::string(self.title.as_str())));
        if writer.len() > 0 {
            let ghost wv = Json::Object(writer)@;
            proof {
                lemma_object_view(writer);
            }
            let mut items: Vec<Json> = Vec::new();
            items.push(Json::Object(writer));
            proof {
                lemma_array_view(items);
                assert(views(items@) =~= seq![wv]);
            }
            body.push(("writers".to_string(), Json::Array(items)));
        }
        proof {
            lemma_object_view(body);
            assert(entry_keys(body@) =~= self.body_view()->Object_0);
            assert(entry_vals(body@) =~= self.body_view()->Object_1);
        }
        Json::Object(body)
    }
}

impl RecordingSearch {
    /// The request body: the filters that are present.
    pub open spec fn body_view(self) -> JsonView {
        let m = present(
            seq![
                ("title"@, opt_view(self.title)),
                ("artist"@, opt_view(self.artist)),
                ("isrc"@, opt_view(self.isrc)),
            ],
        );
        JsonView::Object(m.0, m.1)
    }

    /// The body of `POST /search/recordings`.
    pub fn body(&self) -> (r: Json)
        ensures
            r@ == self.body_view(),
    {
        let mut body: Vec<(String, Json)> = Vec::new();
        let ghost f0 = Seq::<(Seq<char>, Option<Seq<char>>)>::empty();
        assert((entry_keys(body@), entry_vals(body@)) == present(f0)) by {
            assert(entry_keys(body@) =~= Seq::<Seq<char>>::empty());
            assert(entry_vals(body@) =~= Seq::<JsonView>::empty());
        }
        self::add(&mut body, "title", &self.title, Ghost(f0));
        let ghost f1 = f0.push(("title"@, opt_view(self.title)));
        self::add(&mut body, "artist", &self.artist, Ghost(f1));
        let ghost f2 = f1.push(("artist"@, opt_view(self.artist)));
        self::add(&mut body, "isrc", &self.isrc, Ghost(f2));
        let ghost f3 = f2.push(("isrc"@, opt_view(self.isrc)));
        assert(f3 =~= seq![
            ("title"@, opt_view(self.title)),
            ("artist"@, opt_view(self.artist)),
            ("isrc"@, opt_view(self.isrc)),
        ]);
        proof {
            lemma_object_view(body);
        }
        Json::Object(body)
    }
}

/// Adds `key` with the value as a string when there is one.
fn add(
    body: &mut Vec<(String, Json)>,
    key: &str,
    value: &Option<String>,
    Ghost(fields): Ghost<Seq<(Seq<char>, Option<Seq<char>>)>>,
)
    requires
        (entry_keys(old(body)@), entry_vals(old(body)@)) == present(fields),
    ensures
        (entry_keys(final(body)@), entry_vals(final(body)@)) == present(
            fields.push((key@, opt_view(*value))),
        ),
{
    assert(fields.push((key@, opt_view(*value))).drop_last() =~= fields);
    if let Some(value) = value {
        let ghost before = body@;
        body.push((key.to_string(), Json::string(value.as_str())));
        assert(entry_keys(body@) =~= entry_keys(before).push(key@));
        assert(entry_vals(body@) =~= entry_vals(before).push(JsonView::Str(value@)));
    }
}

/// An MLC song code: nonempty, of ASCII letters, digits and hyphens only.
pub open spec fn valid_song_code(id: Seq<char>) -> bool {
    id.len() > 0 && forall|i: int| 0 <= i < id.len() ==> is_ascii_alnum(id[i]) || id[i] == '-'
}

/// The path of `GET /work/id/{id}`, for a valid song code.
pub fn work_path(id: &str) -> (r: Result<String, Error>)
    ensures
        match r {
            Ok(path) => valid_song_code(id@) && path@ == "work/id/"@ + id@,
            Err(e) => !valid_song_code(id@) && e.is(
                1,
                "MLC song codes must contain only letters, digits or hyphens"@,
            ),
        },
{
    let v = chars_of(id);
    let mut ok = v.len() > 0;
    let mut i: usize = 0;
    while i < v.len()
        invariant
            v@ == id@,
            i <= v@.len(),
            ok == (v@.len() > 0 && forall|j: int|
                0 <= j < i ==> is_ascii_alnum(v@[j]) || v@[j] == '-'),
        decreases v@.len() - i,
    {
        ok = ok && (is_ascii_alnum_char(v[i]) || v[i] == '-');
        i = i + 1;
    }
    if !ok {
        return Err(Error::new(1, "MLC song codes must contain only letters, digits or hyphens"));
    }
    let mut path = "work/id/".to_string();
    path.append(id);
    Ok(path)
}

/// The body of `POST /works` for the given song codes.
pub open spec fn batch_body(ids: Seq<String>) -> JsonView {
    JsonView::Array(
        Seq::new(ids.len(), |i: int| JsonView::single("mlcsongCode"@, JsonView::Str(ids[i]@))),
    )
}

/// The request that a search sends.
pub open spec fn search_request(s: Search) -> (Method, Seq<char>, JsonView) {
    match s {
        Search::Works(a) => (Method::Post, "search/songcode"@, a.body_view()),
        Search::Recordings(a) => (Method::Post, "search/recordings"@, a.body_view()),
    }
}

/// The API request that a query command sends.
pub fn query(q: &Query) -> (r: Result<ApiRequest, Error>)
    ensures
        match q {
            Query::Search(s) => r matches Ok(req) && (req.method == search_request(*s).0
                && req.path@ == search_request(*s).1 && (req.body matches Some(b) && b@
                == search_request(*s).2)),
            Query::Work(Work::Get { id }) => match r {
                Ok(req) => valid_song_code(id@) && req.method == Method::Get && req.path@
                    == "work/id/"@ + id@ && req.body is None,
                Err(e) => !valid_song_code(id@) && e.is(
                    1,
                    "MLC song codes must contain only letters, digits or hyphens"@,
                ),
            },
            Query::Work(Work::Batch { ids }) => r matches Ok(req) && (req.method == Method::Post
                && req.path@ == "works"@ && (req.body matches Some(b) && b@ == batch_body(ids@))),
        },
{
    match q {
        Query::Search(Search::Works(args)) => Ok(
            ApiRequest {
                method: Method::Post,
                path: "search/songcode".to_string(),
                body: Some(args.body()),
            },
        ),
        Query::Search(Search::Recordings(args)) => Ok(
            ApiRequest {
                method: Method::Post,
                path: "search/recordings".to_string(),
                body: Some(args.body()),
            },
        ),
        Query::Work(Work::Get { id }) => {
            let path = work_path(id.as_str())?;
            Ok(ApiRequest { method: Method::Get, path, body: None })
        },
        Query::Work(Work::Batch { ids }) => {
            let mut items: Vec<Json> = Vec::new();
            let mut i: usize = 0;
            while i < ids.len()
                invariant
                    i <= ids@.len(),
                    items@.len() == i,
                    forall|j: int|
                        0 <= j < i ==> #[trigger] items@[j]@ == JsonView::single(
                            "mlcsongCode"@,
                            JsonView::Str(ids@[j]@),
                        ),
                decreases ids@.len() - i,
            {
                items.push(Json::single("mlcsongCode", Json::string(ids[i].as_str())));
                i = i + 1;
            }
            proof {
                lemma_array_view(items);
                assert(views(items@) =~= batch_body(ids@)->Array_0);
            }
            Ok(ApiRequest { method: Method::Post, path: "works".to_string(), body: Some(Json::Array(items)) })
        },
    }
}

/// The read-only request that `doctor` sends to check data access: a work
/// search for "Yesterday" by a writer named McCartney.
pub fn doctor_probe() -> (r: ApiRequest)
    ensures
        r.method == Method::Post,
        r.path@ == "search/songcode"@,
        r.body matches Some(b) && b@ == JsonView::Object(
            seq!["title"@, "writers"@],
            seq![
                JsonView::Str("Yesterday"@),
                JsonView::Array(
                    seq![JsonView::Object(seq!["writerLastName"@], seq![JsonView::Str("McCartney"@)])],
                ),
            ],
        ),
{
    let probe = WorkSearch {
        title: "Yesterday".to_string(),
        writer_first_name: None,
        writer_last_name: Some("McCartney".to_string()),
        writer_ipi: None,
    };
    let body = probe.body();
    proof {
        let f = seq![
            ("writerFirstName"@, opt_view(probe.writer_first_name)),
            ("writerLastName"@, opt_view(probe.writer_last_name)),
            ("writerIPI"@, opt_view(probe.writer_ipi)),
        ];
        let e = Seq::<(Seq<char>, Option<Seq<char>>)>::empty();
        let f1 = seq![("writerFirstName"@, opt_view(probe.writer_first_name))];
        let f2 = f1.push(("writerLastName"@, opt_view(probe.writer_last_name)));
        assert(f1.drop_last() =~= e);
        assert(f2.drop_last() =~= f1);
        assert(f.drop_last() =~= f2);
        assert(present(e).0 =~= Seq::<Seq<char>>::empty());
        assert(present(f1) == present(e));
        assert(present(f2).0 =~= seq!["writerLastName"@]);
        assert(present(f2).1 =~= seq![JsonView::Str("McCartney"@)]);
        assert(present(f) == present(f2));
    }
    ApiRequest { method: Method::Post, path: "search/songcode".to_string(), body: Some(body) }
}


/// The characters a song code may hold: ASCII letters, digits and hyphens.
pub open spec fn song_code_char(c: char) -> bool {
    ('0' <= c && c <= '9') || ('a' <= c && c <= 'z') || ('A' <= c && c <= 'Z') || c == '-'
}

/// A song code of any length is accepted exactly when it is nonempty and made
/// of ASCII letters, digits and hyphens only: accepted codes stay accepted
/// when joined, and every such character alone is a code.
pub proof fn lemma_song_codes_of_any_length(id: Seq<char>, more: Seq<char>, c: char)
    ensures
        valid_song_code(id) <==> (id.len() > 0 && forall|i: int|
            0 <= i < id.len() ==> song_code_char(#[trigger] id[i])),
        valid_song_code(id) && valid_song_code(more) ==> valid_song_code(id + more),
        song_code_char(c) <==> valid_song_code(seq![c]),
{
    if valid_song_code(id) && valid_song_code(more) {
        let j = id + more;
        assert forall|i: int| 0 <= i < j.len() implies is_ascii_alnum(j[i]) || j[i] == '-' by {
            if i < id.len() {
                assert(j[i] == id[i]);
            } else {
                assert(j[i] == more[i - id.len()]);
            }
        }
    }
    assert(seq![c][0] == c);
}


/// The number of fields that are given.
pub open spec fn given(fields: Seq<(Seq<char>, Option<Seq<char>>)>) -> nat
    decreases fields.len(),
{
    if fields.len() == 0 {
        0
    } else {
        given(fields.drop_last()) + if fields.last().1 is Some {
            1nat
        } else {
            0nat
        }
    }
}

/// Filters with distinct names become members: every given filter is a member
/// holding its value as a string, a filter that is not given is no member,
/// and there is one member per given filter.
pub proof fn lemma_present_members(fields: Seq<(Seq<char>, Option<Seq<char>>)>)
    requires
        forall|i: int, j: int| 0 <= i < j < fields.len() ==> fields[i].0 != fields[j].0,
    ensures
        present(fields).0.len() == present(fields).1.len(),
        present(fields).0.len() == given(fields),
        forall|i: int|
            0 <= i < fields.len() && (#[trigger] fields[i]).1 is Some ==> obj_get(
                present(fields).0,
                present(fields).1,
                fields[i].0,
            ) == Some(JsonView::Str(fields[i].1->0)),
        forall|i: int|
            0 <= i < fields.len() && (#[trigger] fields[i]).1 is None ==> obj_get(
                present(fields).0,
                present(fields).1,
                fields[i].0,
            ) is None,
        forall|m: int|
            #![trigger present(fields).0[m]]
            0 <= m < present(fields).0.len() ==> exists|i: int|
                0 <= i < fields.len() && (#[trigger] fields[i]).0 == present(fields).0[m]
                    && fields[i].1 is Some,
    decreases fields.len(),
{
    if fields.len() > 0 {
        let p = fields.drop_last();
        let n = fields.len() - 1;
        let k = fields[n].0;
        assert(fields.last() == fields[n]);
        assert forall|i: int| 0 <= i < p.len() implies p[i] == fields[i] by {}
        lemma_present_members(p);
        let r = present(p);
        lemma_key_pos_bounds(r.0, k);
        assert forall|m: int| 0 <= m < r.0.len() implies r.0[m] != k by {
            let i = choose|i: int| 0 <= i < p.len() && (#[trigger] p[i]).0 == r.0[m] && p[i].1 is Some;
            assert(p[i] == fields[i]);
        }
        match fields[n].1 {
            Some(t) => {
                let keys = r.0.push(k);
                let vals = r.1.push(JsonView::Str(t));
                assert(present(fields) == (keys, vals));
                assert forall|i: int| 0 <= i < fields.len() && (#[trigger] fields[i]).1 is Some implies obj_get(
                    keys,
                    vals,
                    fields[i].0,
                ) == Some(JsonView::Str(fields[i].1->0)) by {
                    if i == n {
                        lemma_key_pos_at(keys, k, r.0.len() as int);
                    } else {
                        assert(p[i] == fields[i]);
                        let q = key_pos(r.0, fields[i].0);
                        lemma_key_pos_bounds(r.0, fields[i].0);
                        lemma_key_pos_at(keys, fields[i].0, q);
                    }
                }
                assert forall|i: int| 0 <= i < fields.len() && (#[trigger] fields[i]).1 is None implies obj_get(
                    keys,
                    vals,
                    fields[i].0,
                ) is None by {
                    assert(i != n);
                    assert(p[i] == fields[i]);
                    lemma_key_pos_bounds(r.0, fields[i].0);
                    lemma_key_pos_at(keys, fields[i].0, keys.len() as int);
                }
                assert forall|m: int| #![trigger keys[m]] 0 <= m < keys.len() implies exists|i: int|
                    0 <= i < fields.len() && (#[trigger] fields[i]).0 == keys[m] && fields[i].1 is Some by {
                    if m == r.0.len() {
                        assert(fields[n].0 == keys[m]);
                    } else {
                        let i = choose|i: int| 0 <= i < p.len() && (#[trigger] p[i]).0 == r.0[m] && p[i].1 is Some;
                        assert(p[i] == fields[i]);
                    }
                }
            },
            None => {
                assert(present(fields) == r);
                assert forall|i: int| 0 <= i < fields.len() && (#[trigger] fields[i]).1 is None implies obj_get(
                    r.0,
                    r.1,
                    fields[i].0,
                ) is None by {
                    if i < n {
                        assert(p[i] == fields[i]);
                    }
                }
                assert forall|i: int| 0 <= i < fields.len() && (#[trigger] fields[i]).1 is Some implies obj_get(
                    r.0,
                    r.1,
                    fields[i].0,
                ) == Some(JsonView::Str(fields[i].1->0)) by {
                    assert(p[i] == fields[i]);
                }
                assert forall|m: int| #![trigger r.0[m]] 0 <= m < r.0.len() implies exists|i: int|
                    0 <= i < fields.len() && (#[trigger] fields[i]).0 == r.0[m] && fields[i].1 is Some by {
                    let i = choose|i: int| 0 <= i < p.len() && (#[trigger] p[i]).0 == r.0[m] && p[i].1 is Some;
                    assert(p[i] == fields[i]);
                }
            },
        }
    }
}


/// The number of options that are set, as 0 or 1.
pub open spec fn set(o: Option<String>) -> nat {
    if o is Some {
        1
    } else {
        0
    }
}

/// A recording search sends every filter that is given, under its API name
/// and with its value, and nothing else.
pub proof fn lemma_recording_body_members(a: RecordingSearch)
    ensures
        a.body_view() matches JsonView::Object(keys, vals) && ({
            &&& keys.len() == vals.len()
            &&& keys.len() == set(a.title) + set(a.artist) + set(a.isrc)
            &&& obj_get(keys, vals, "title"@) == match a.title {
                Some(t) => Some(JsonView::Str(t@)),
                None => None,
            }
            &&& obj_get(keys, vals, "artist"@) == match a.artist {
                Some(t) => Some(JsonView::Str(t@)),
                None => None,
            }
            &&& obj_get(keys, vals, "isrc"@) == match a.isrc {
                Some(t) => Some(JsonView::Str(t@)),
                None => None,
            }
        }),
{
    reveal_strlit("title");
    reveal_strlit("artist");
    reveal_strlit("isrc");
    let f = seq![
        ("title"@, opt_view(a.title)),
        ("artist"@, opt_view(a.artist)),
        ("isrc"@, opt_view(a.isrc)),
    ];
    assert(f[0].0.len() == 5 && f[1].0.len() == 6 && f[2].0.len() == 4);
    lemma_present_members(f);
    assert(f.drop_last() =~= seq![f[0], f[1]]);
    assert(seq![f[0], f[1]].drop_last() =~= seq![f[0]]);
    assert(seq![f[0]].drop_last() =~= Seq::<(Seq<char>, Option<Seq<char>>)>::empty());
    assert(given(Seq::<(Seq<char>, Option<Seq<char>>)>::empty()) == 0);
    assert(seq![f[0]].last() == f[0]);
    assert(seq![f[0], f[1]].last() == f[1]);
    assert(f.last() == f[2]);
    assert(f[0].1 is Some <==> a.title is Some);
    assert(given(seq![f[0]]) == set(a.title));
    assert(given(seq![f[0], f[1]]) == set(a.title) + set(a.artist));
    assert(given(f) == set(a.title) + set(a.artist) + set(a.isrc));
    let r = present(f);
    assert(a.body_view() == JsonView::Object(r.0, r.1));
    assert(f[0].1 is Some || f[0].1 is None);
    assert(f[1].1 is Some || f[1].1 is None);
    assert(f[2].1 is Some || f[2].1 is None);
}

/// A work search sends its title, and, when a writer filter is given, one
/// writer holding every writer filter that is given, under its API name and
/// with its value, and nothing else.
pub proof fn lemma_work_body_members(a: WorkSearch)
    ensures
        a.body_view() matches JsonView::Object(keys, vals) && ({
            let n = set(a.writer_first_name) + set(a.writer_last_name) + set(a.writer_ipi);
            &&& keys.len() == vals.len()
            &&& obj_get(keys, vals, "title"@) == Some(JsonView::Str(a.title@))
            &&& n == 0 ==> keys.len() == 1
            &&& n > 0 ==> (keys.len() == 2 && (obj_get(keys, vals, "writers"@) matches Some(
                JsonView::Array(ws),
            ) && ws.len() == 1 && (ws[0] matches JsonView::Object(wk, wv) && wk.len() == wv.len()
                && wk.len() == n && obj_get(wk, wv, "writerFirstName"@) == match a.writer_first_name {
                Some(t) => Some(JsonView::Str(t@)),
                None => None,
            } && obj_get(wk, wv, "writerLastName"@) == match a.writer_last_name {
                Some(t) => Some(JsonView::Str(t@)),
                None => None,
            } && obj_get(wk, wv, "writerIPI"@) == match a.writer_ipi {
                Some(t) => Some(JsonView::Str(t@)),
                None => None,
            })))
        }),
{
    reveal_strlit("title");
    reveal_strlit("writers");
    reveal_strlit("writerFirstName");
    reveal_strlit("writerLastName");
    reveal_strlit("writerIPI");
    let f = seq![
        ("writerFirstName"@, opt_view(a.writer_first_name)),
        ("writerLastName"@, opt_view(a.writer_last_name)),
        ("writerIPI"@, opt_view(a.writer_ipi)),
    ];
    assert(f[0].0.len() == 15 && f[1].0.len() == 14 && f[2].0.len() == 9);
    lemma_present_members(f);
    assert(f.drop_last() =~= seq![f[0], f[1]]);
    assert(seq![f[0], f[1]].drop_last() =~= seq![f[0]]);
    assert(seq![f[0]].drop_last() =~= Seq::<(Seq<char>, Option<Seq<char>>)>::empty());
    assert(given(Seq::<(Seq<char>, Option<Seq<char>>)>::empty()) == 0);
    assert(seq![f[0]].last() == f[0]);
    assert(seq![f[0], f[1]].last() == f[1]);
    assert(f.last() == f[2]);
    assert(f[0].1 is Some <==> a.writer_first_name is Some);
    assert(given(seq![f[0]]) == set(a.writer_first_name));
    assert(given(seq![f[0], f[1]]) == set(a.writer_first_name) + set(a.writer_last_name));
    assert(given(f) == set(a.writer_first_name) + set(a.writer_last_name) + set(a.writer_ipi));
    assert(f[0].1 is Some || f[0].1 is None);
    assert(f[1].1 is Some || f[1].1 is None);
    assert(f[2].1 is Some || f[2].1 is None);
    assert(a.writer_members() == present(f));
    assert("title"@.len() == 5 && "writers"@.len() == 7);
    let ks = seq!["title"@, "writers"@];
    lemma_key_pos_at(ks, "title"@, 0);
    lemma_key_pos_at(ks, "writers"@, 1);
    lemma_key_pos_at(seq!["title"@], "title"@, 0);
}

} // verus!
