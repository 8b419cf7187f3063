//! JSON documents as exchanged with the API, and their mathematical model.
//!
//! A number keeps its textual form, so that values pass through unchanged.
//! An object is a list of entries; it is built and updated as a map is: an
//! `insert` of a key that is present replaces the value of its first entry.
use vstd::prelude::*;

verus! {

/// The mathematical model of a JSON document. An object is modelled by its
/// keys and, position for position, its values.
pub enum JsonView {
    Null,
    Bool(bool),
    Number(Seq<char>),
    Str(Seq<char>),
    Array(Seq<JsonView>),
    Object(Seq<Seq<char>>, Seq<JsonView>),
}

/// A JSON document.
#[derive(Debug, PartialEq)]
pub enum Json {
    Null,
    Bool(bool),
    Number(String),
    Str(String),
    Array(Vec<Json>),
    Object(Vec<(String, Json)>),
}

impl View for Json {
    type V = JsonView;

    open spec fn view(&self) -> JsonView
        decreases self,
    {
        match self {
            Json::Null => JsonView::Null,
            Json::Bool(b) => JsonView::Bool(*b),
            Json::Number(n) => JsonView::Number(n@),
            Json::Str(s) => JsonView::Str(s@),
            Json::Array(items) => JsonView::Array(
                Seq::new(
                    items@.len(),
                    |i: int|
                        if 0 <= i < items@.len() {
                            items@[i].view()
                        } else {
                            JsonView::Null
                        },
                ),
            ),
            Json::Object(entries) => JsonView::Object(
                Seq::new(entries@.len(), |i: int| entries@[i].0@),
                Seq::new(
                    entries@.len(),
                    |i: int|
                        if 0 <= i < entries@.len() {
                            entries@[i].1.view()
                        } else {
                            JsonView::Null
                        },
                ),
            ),
        }
    }
}

/// The models of a list of documents.
pub open spec fn views(items: Seq<Json>) -> Seq<JsonView> {
    Seq::new(items.len(), |i: int| items[i]@)
}

/// The keys of a list of object entries.
pub open spec fn entry_keys(entries: Seq<(String, Json)>) -> Seq<Seq<char>> {
    Seq::new(entries.len(), |i: int| entries[i].0@)
}

/// The models of the values of a list of object entries.
pub open spec fn entry_vals(entries: Seq<(String, Json)>) -> Seq<JsonView> {
    Seq::new(entries.len(), |i: int| entries[i].1@)
}

pub proof fn lemma_array_view(items: Vec<Json>)
    ensures
        Json::Array(items)@ == JsonView::Array(views(items@)),
{
    let a = Json::Array(items)@;
    let s = a->Array_0;
    assert(s.len() == items@.len());
    assert forall|i: int| 0 <= i < s.len() implies s[i] == items@[i]@ by {}
    assert(s =~= views(items@));
}

pub proof fn lemma_object_view(entries: Vec<(String, Json)>)
    ensures
        Json::Object(entries)@ == JsonView::Object(entry_keys(entries@), entry_vals(entries@)),
{
    let a = Json::Object(entries)@;
    let ks = a->Object_0;
    let vs = a->Object_1;
    assert(vs.len() == entries@.len());
    assert forall|i: int| 0 <= i < vs.len() implies vs[i] == entries@[i].1@ by {}
    assert(ks =~= entry_keys(entries@));
    assert(vs =~= entry_vals(entries@));
}

/// The position of the first occurrence of key `k`, or -1 when there is none.
pub open spec fn key_pos(keys: Seq<Seq<char>>, k: Seq<char>) -> int
    decreases keys.len(),
{
    if keys.len() == 0 {
        -1
    } else if keys[0] == k {
        0
    } else {
        let p = key_pos(keys.drop_first(), k);
        if p < 0 {
            -1
        } else {
            p + 1
        }
    }
}

/// The object after setting key `k` to `v`, as `map[k] = v` does.
pub open spec fn obj_insert(obj: (Seq<Seq<char>>, Seq<JsonView>), k: Seq<char>, v: JsonView) -> (
    Seq<Seq<char>>,
    Seq<JsonView>,
) {
    let p = key_pos(obj.0, k);
    if p >= 0 {
        (obj.0, obj.1.update(p, v))
    } else {
        (obj.0.push(k), obj.1.push(v))
    }
}

/// The value stored under key `k`.
pub open spec fn obj_get(keys: Seq<Seq<char>>, vals: Seq<JsonView>, k: Seq<char>) -> Option<
    JsonView,
> {
    let p = key_pos(keys, k);
    if p >= 0 {
        Some(vals[p])
    } else {
        None
    }
}

/// The object after inserting each key of `keys`, with the value at the same
/// position of `vals`, in turn into an empty object.
pub open spec fn insert_all(keys: Seq<Seq<char>>, vals: Seq<JsonView>) -> (
    Seq<Seq<char>>,
    Seq<JsonView>,
)
    decreases keys.len(),
{
    if keys.len() == 0 {
        (Seq::empty(), Seq::empty())
    } else {
        obj_insert(insert_all(keys.drop_last(), vals.take(keys.len() - 1)), keys.last(), vals[keys.len() - 1])
    }
}

/// Every key of the inserted object is one of the given keys, and every value
/// one of the given values.
pub proof fn lemma_insert_all_members(keys: Seq<Seq<char>>, vals: Seq<JsonView>)
    requires
        vals.len() == keys.len(),
    ensures
        insert_all(keys, vals).0.len() == insert_all(keys, vals).1.len(),
        forall|i: int|
            0 <= i < insert_all(keys, vals).0.len() ==> exists|j: int|
                0 <= j < keys.len() && #[trigger] insert_all(keys, vals).0[i] == keys[j],
        forall|i: int|
            0 <= i < insert_all(keys, vals).1.len() ==> exists|j: int|
                0 <= j < vals.len() && #[trigger] insert_all(keys, vals).1[i] == vals[j],
    decreases keys.len(),
{
    if keys.len() > 0 {
        let n = keys.len() - 1;
        let pk = keys.drop_last();
        let pv = vals.take(n);
        lemma_insert_all_members(pk, pv);
        let prev = insert_all(pk, pv);
        lemma_key_pos_bounds(prev.0, keys.last());
        let r = insert_all(keys, vals);
        assert forall|i: int| 0 <= i < r.0.len() implies exists|j: int|
            0 <= j < keys.len() && #[trigger] r.0[i] == keys[j] by {
            if i < prev.0.len() {
                let j = choose|j: int| 0 <= j < pk.len() && prev.0[i] == pk[j];
                assert(r.0[i] == prev.0[i]);
                assert(keys[j] == pk[j]);
            } else {
                assert(r.0[i] == keys[n]);
            }
        }
        assert forall|i: int| 0 <= i < r.1.len() implies exists|j: int|
            0 <= j < vals.len() && #[trigger] r.1[i] == vals[j] by {
            if i < prev.1.len() && i != key_pos(prev.0, keys.last()) {
                let j = choose|j: int| 0 <= j < pv.len() && prev.1[i] == pv[j];
                assert(r.1[i] == prev.1[i]);
                assert(vals[j] == pv[j]);
            } else {
                assert(r.1[i] == vals[n]);
            }
        }
    }
}

/// Inserting keys that are all different, one value each, gives the object
/// with those keys and values.
pub proof fn lemma_insert_all_distinct(keys: Seq<Seq<char>>, vals: Seq<JsonView>)
    requires
        vals.len() == keys.len(),
        keys.no_duplicates(),
    ensures
        insert_all(keys, vals) == (keys, vals),
    decreases keys.len(),
{
    if keys.len() > 0 {
        let n = keys.len() - 1;
        let pk = keys.drop_last();
        let pv = vals.take(n);
        assert(pk.no_duplicates()) by {
            assert forall|i: int, j: int| 0 <= i < pk.len() && 0 <= j < pk.len() && i != j implies pk[i]
                != pk[j] by {
                assert(pk[i] == keys[i] && pk[j] == keys[j]);
            }
        }
        lemma_insert_all_distinct(pk, pv);
        lemma_key_pos_bounds(pk, keys.last());
        if key_pos(pk, keys.last()) >= 0 {
            let p = key_pos(pk, keys.last());
            assert(keys[p] == keys[n]);
        }
        assert(pk.push(keys.last()) =~= keys);
        assert(pv.push(vals[n]) =~= vals);
    }
}

impl JsonView {
    /// `value.get(key)`: the member of an object; nothing for any other value.
    pub open spec fn get(self, k: Seq<char>) -> Option<JsonView> {
        match self {
            JsonView::Object(keys, vals) => obj_get(keys, vals, k),
            _ => None,
        }
    }

    /// `value.as_str()`.
    pub open spec fn as_str(self) -> Option<Seq<char>> {
        match self {
            JsonView::Str(s) => Some(s),
            _ => None,
        }
    }

    /// The object with the single given member.
    pub open spec fn single(k: Seq<char>, v: JsonView) -> JsonView {
        JsonView::Object(seq![k], seq![v])
    }
}

pub proof fn lemma_key_pos_bounds(keys: Seq<Seq<char>>, k: Seq<char>)
    ensures
        -1 <= key_pos(keys, k) < keys.len(),
        key_pos(keys, k) >= 0 ==> keys[key_pos(keys, k)] == k,
        key_pos(keys, k) < 0 ==> forall|i: int| 0 <= i < keys.len() ==> keys[i] != k,
        key_pos(keys, k) >= 0 ==> forall|i: int| 0 <= i < key_pos(keys, k) ==> keys[i] != k,
    decreases keys.len(),
{
    if keys.len() > 0 && keys[0] != k {
        let t = keys.drop_first();
        lemma_key_pos_bounds(t, k);
        assert forall|i: int| 0 < i < keys.len() implies keys[i] == t[i - 1] by {}
    }
}

pub proof fn lemma_key_pos_at(keys: Seq<Seq<char>>, k: Seq<char>, j: int)
    requires
        0 <= j <= keys.len(),
        forall|i: int| 0 <= i < j ==> keys[i] != k,
        j < keys.len() ==> keys[j] == k,
    ensures
        key_pos(keys, k) == (if j < keys.len() {
            j
        } else {
            -1
        }),
{
    lemma_key_pos_bounds(keys, k);
}

/// The position of the first entry whose key is `k`.
pub fn find_key(entries: &Vec<(String, Json)>, k: &str) -> (r: Option<usize>)
    ensures
        match r {
            Some(p) => key_pos(entry_keys(entries@), k@) == p,
            None => key_pos(entry_keys(entries@), k@) == -1,
        },
{
    let ghost keys = entry_keys(entries@);
    let ks = k.to_string();
    let mut j: usize = 0;
    while j < entries.len()
        invariant
            j <= entries@.len(),
            keys == entry_keys(entries@),
            ks@ == k@,
            forall|i: int| 0 <= i < j ==> keys[i] != k@,
        decreases entries@.len() - j,
    {
        if entries[j].0 == ks {
            proof {
                lemma_key_pos_at(keys, k@, j as int);
            }
            return Some(j);
        }
        j = j + 1;
    }
    proof {
        lemma_key_pos_at(keys, k@, j as int);
    }
    None
}

/// Sets `k` to `v` in the entries of an object, as `map[k] = v` does.
pub fn insert_entry(entries: &mut Vec<(String, Json)>, k: String, v: Json)
    ensures
        (entry_keys(final(entries)@), entry_vals(final(entries)@)) == obj_insert(
            (entry_keys(old(entries)@), entry_vals(old(entries)@)),
            k@,
            v@,
        ),
{
    let ghost keys = entry_keys(entries@);
    let ghost vals = entry_vals(entries@);
    let ghost kv = k@;
    let ghost vv = v@;
    match find_key(entries, k.as_str()) {
        Some(p) => {
            proof {
                lemma_key_pos_bounds(keys, k@);
            }
            entries.set(p, (k, v));
            assert(entry_keys(entries@) =~= keys);
            assert(entry_vals(entries@) =~= vals.update(p as int, vv));
        },
        None => {
            entries.push((k, v));
            assert(entry_keys(entries@) =~= keys.push(kv));
            assert(entry_vals(entries@) =~= vals.push(vv));
        },
    }
}

/// Appends a member to the entries of an object under construction.
pub fn push_member(entries: &mut Vec<(String, Json)>, k: &str, v: Json)
    ensures
        entry_keys(final(entries)@) == entry_keys(old(entries)@).push(k@),
        entry_vals(final(entries)@) == entry_vals(old(entries)@).push(v@),
{
    let ghost vv = v@;
    let ghost before = entries@;
    entries.push((k.to_string(), v));
    assert(entry_keys(entries@) =~= entry_keys(before).push(k@));
    assert(entry_vals(entries@) =~= entry_vals(before).push(vv));
}

/// An object with the given members, built with `push_member`.
pub fn object(entries: Vec<(String, Json)>) -> (r: Json)
    ensures
        r@ == JsonView::Object(entry_keys(entries@), entry_vals(entries@)),
{
    proof {
        lemma_object_view(entries);
    }
    Json::Object(entries)
}

impl Json {
    /// A string document.
    pub fn string(s: &str) -> (r: Json)
        ensures
            r@ == JsonView::Str(s@),
    {
        Json::Str(s.to_string())
    }

    /// An object with one entry.
    pub fn single(k: &str, v: Json) -> (r: Json)
        ensures
            r@ == JsonView::single(k@, v@),
    {
        let mut entries: Vec<(String, Json)> = Vec::new();
        entries.push((k.to_string(), v));
        proof {
            lemma_object_view(entries);
            assert(entry_keys(entries@) =~= seq![k@]);
            assert(entry_vals(entries@) =~= seq![v@]);
        }
        Json::Object(entries)
    }

    /// The member stored under `k` (`value.get(k)`).
    pub fn get(&self, k: &str) -> (r: Option<&Json>)
        ensures
            match r {
                Some(j) => self@.get(k@) == Some(j@),
                None => self@.get(k@) is None,
            },
    {
        match self {
            Json::Object(entries) => {
                proof {
                    lemma_object_view(*entries);
                }
                match find_key(entries, k) {
                    Some(p) => {
                        proof {
                            lemma_key_pos_bounds(entry_keys(entries@), k@);
                        }
                        Some(&entries[p].1)
                    },
                    None => None,
                }
            },
            _ => None,
        }
    }

    /// The text of a string document (`value.as_str()`).
    pub fn as_str(&self) -> (r: Option<&str>)
        ensures
            match r {
                Some(s) => self@.as_str() == Some(s@),
                None => self@.as_str() is None,
            },
    {
        match self {
            Json::Str(s) => Some(s.as_str()),
            _ => None,
        }
    }
}

} // verus!
