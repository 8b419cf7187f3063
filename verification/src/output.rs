//! What a collection looks like in a terminal: one table row per item.
use vstd::prelude::*;

use crate::client::string_member;
use crate::json::{lemma_array_view, obj_get, views, Json, JsonView};
use crate::text::{
    chars_of, decimal, push_decimal, push_str, remove_controls, string_of, texts, trim, trimmed,
    without_controls,
};

verus! {

/// The first of the keys whose member is a string, and that string.
pub open spec fn first_string(v: JsonView, keys: Seq<Seq<char>>) -> Option<Seq<char>>
    decreases keys.len(),
{
    if keys.len() == 0 {
        None
    } else {
        match string_member(v, keys[0]) {
            Some(t) => Some(t),
            None => first_string(v, keys.drop_first()),
        }
    }
}

/// A table cell: the first string member among the keys, without control
/// characters; empty when there is none.
pub open spec fn field_text(v: JsonView, keys: Seq<Seq<char>>) -> Seq<char> {
    without_controls(
        match first_string(v, keys) {
            Some(t) => t,
            None => Seq::empty(),
        },
    )
}

/// The parts joined with `sep` between them (`[..].join(sep)`).
pub open spec fn join(parts: Seq<Seq<char>>, sep: Seq<char>) -> Seq<char>
    decreases parts.len(),
{
    if parts.len() == 0 {
        Seq::empty()
    } else if parts.len() == 1 {
        parts[0]
    } else {
        join(parts.drop_last(), sep) + sep + parts.last()
    }
}

/// A writer's name: first and last name, trimmed.
pub open spec fn person(w: JsonView) -> Seq<char> {
    trim(field_text(w, seq!["writerFirstName"@]) + " "@ + field_text(w, seq!["writerLastName"@]))
}

/// The names of a list of writers.
pub open spec fn persons(ws: Seq<JsonView>) -> Seq<Seq<char>> {
    Seq::new(ws.len(), |i: int| person(ws[i]))
}

/// The people of an item: its writers' names when it has a list of writers,
/// its artist otherwise.
pub open spec fn people_text(v: JsonView) -> Seq<char> {
    match v.get("writers"@) {
        Some(JsonView::Array(ws)) => join(persons(ws), ", "@),
        _ => field_text(v, seq!["artist"@, "artists"@]),
    }
}

pub open spec fn key_texts(keys: Seq<&str>) -> Seq<Seq<char>> {
    Seq::new(keys.len(), |i: int| keys[i]@)
}

/// The first string member among the keys.
fn first_string_of<'a>(value: &'a Json, keys: &[&str]) -> (r: Option<&'a str>)
    ensures
        match r {
            Some(t) => first_string(value@, key_texts(keys@)) == Some(t@),
            None => first_string(value@, key_texts(keys@)) is None,
        },
{
    let ghost ks = key_texts(keys@);
    let mut k: usize = 0;
    assert(ks.skip(0) =~= ks);
    while k < keys.len()
        invariant
            k <= keys@.len(),
            ks == key_texts(keys@),
            first_string(value@, ks) == first_string(value@, ks.skip(k as int)),
        decreases keys@.len() - k,
    {
        assert(ks.skip(k as int).drop_first() =~= ks.skip(k + 1));
        assert(ks.skip(k as int)[0] == keys@[k as int]@);
        if let Some(v) = value.get(keys[k]) {
            if let Some(t) = v.as_str() {
                return Some(t);
            }
        }
        k = k + 1;
    }
    assert(ks.skip(k as int).len() == 0);
    None
}

/// A table cell for the first of `keys` that holds a string.
pub fn field(value: &Json, keys: &[&str]) -> (r: String)
    ensures
        r@ == field_text(value@, key_texts(keys@)),
{
    let text = match first_string_of(value, keys) {
        Some(t) => chars_of(t),
        None => Vec::new(),
    };
    assert(text@ =~= match first_string(value@, key_texts(keys@)) {
        Some(t) => t,
        None => Seq::empty(),
    });
    let clean = remove_controls(&text);
    string_of(&clean)
}

/// A writer's name.
fn person_name(w: &Json) -> (r: Vec<char>)
    ensures
        r@ == person(w@),
{
    let first_keys: [&str; 1] = ["writerFirstName"];
    let last_keys: [&str; 1] = ["writerLastName"];
    let first = field(w, &first_keys);
    let last = field(w, &last_keys);
    proof {
        assert(key_texts(first_keys@) =~= seq!["writerFirstName"@]);
        assert(key_texts(last_keys@) =~= seq!["writerLastName"@]);
    }
    let mut name: Vec<char> = Vec::new();
    push_str(&mut name, first.as_str());
    push_str(&mut name, " ");
    push_str(&mut name, last.as_str());
    assert(name@ =~= first@ + " "@ + last@);
    trimmed(&name)
}

/// The people column of an item.
pub fn people(value: &Json) -> (r: String)
    ensures
        r@ == people_text(value@),
{
    if let Some(writers) = value.get("writers") {
        if let Json::Array(ws) = writers {
            proof {
                lemma_array_view(*ws);
            }
            let ghost names = persons(views(ws@));
            let mut out: Vec<char> = Vec::new();
            let mut i: usize = 0;
            assert(names.take(0) =~= Seq::<Seq<char>>::empty());
            while i < ws.len()
                invariant
                    i <= ws@.len(),
                    names == persons(views(ws@)),
                    out@ == join(names.take(i as int), ", "@),
                decreases ws@.len() - i,
            {
                let name = person_name(&ws[i]);
                let ghost before = out@;
                if i > 0 {
                    push_str(&mut out, ", ");
                }
                let mut k: usize = 0;
                let ghost mid = out@;
                while k < name.len()
                    invariant
                        k <= name@.len(),
                        out@ == mid + name@.take(k as int),
                    decreases name@.len() - k,
                {
                    out.push(name[k]);
                    k = k + 1;
                    assert(out@ =~= mid + name@.take(k as int));
                }
                proof {
                    assert(name@.take(name@.len() as int) =~= name@);
                    let t = names.take(i + 1);
                    assert(t.drop_last() =~= names.take(i as int));
                    assert(t.last() == name@);
                    if i == 0 {
                        assert(out@ =~= name@);
                    } else {
                        assert(out@ =~= before + ", "@ + name@);
                    }
                }
                i = i + 1;
            }
            assert(names.take(ws@.len() as int) =~= names);
            return string_of(&out);
        }
    }
    let r = field(value, &["artist", "artists"]);
    assert(key_texts(seq!["artist", "artists"]) =~= seq!["artist"@, "artists"@]);
    r
}

/// The column titles of the table.
pub open spec fn table_header() -> Seq<Seq<char>> {
    seq!["MLC code"@, "Title"@, "ISWC / ISRC"@, "Artist / Writers"@]
}

/// The row of an item: its song code, title, ISWC or ISRC, and people.
pub open spec fn row_of(item: JsonView) -> Seq<Seq<char>> {
    seq![
        field_text(item, seq!["mlcSongCode"@, "mlcsongCode"@, "id"@]),
        field_text(item, seq!["workTitle"@, "primaryTitle"@, "title"@]),
        field_text(item, seq!["iswc"@, "isrc"@]),
        people_text(item),
    ]
}

/// The rows of a list of items.
pub open spec fn rows_of(items: Seq<JsonView>) -> Seq<Seq<Seq<char>>> {
    Seq::new(items.len(), |i: int| row_of(items[i]))
}

/// The texts of the cells of a list of rows.
pub open spec fn row_texts(rows: Seq<Vec<String>>) -> Seq<Seq<Seq<char>>> {
    Seq::new(rows.len(), |i: int| texts(rows[i]@))
}

/// The text of a `comfy_table::Table` with the given header and rows.
pub uninterp spec fn rendered_table(header: Seq<Seq<char>>, rows: Seq<Seq<Seq<char>>>) -> Seq<char>;

/// `comfy_table::Table::new()` with the header and rows, shown with
/// `Display`. The table's width does not depend on the terminal: content
/// arrangement stays disabled and no cell is styled.
#[verifier::external_body]
fn render_table(header: &Vec<String>, rows: &Vec<Vec<String>>) -> (s: String)
    ensures
        s@ == rendered_table(texts(header@), row_texts(rows@)),
{
    let mut table = comfy_table::Table::new();
    table.set_header(header.clone());
    for row in rows.iter() {
        table.add_row(row.clone());
    }
    table.to_string()
}

/// A table followed by its number of rows.
pub open spec fn counted_text(table: Seq<char>, count: nat) -> Seq<char> {
    table + "\n"@ + decimal(count) + " result(s)"@
}

/// The rows of a collection's table; nothing for a value that is not an array.
pub fn table_rows(value: &Json) -> (r: Option<Vec<Vec<String>>>)
    ensures
        match value@ {
            JsonView::Array(items) => r matches Some(rows) && row_texts(rows@) == rows_of(items),
            _ => r is None,
        },
{
    match value {
        Json::Array(items) => {
            proof {
                lemma_array_view(*items);
            }
            let mut rows: Vec<Vec<String>> = Vec::new();
            let mut i: usize = 0;
            while i < items.len()
                invariant
                    i <= items@.len(),
                    rows@.len() == i,
                    forall|j: int| 0 <= j < i ==> texts(#[trigger] rows@[j]@) == row_of(items@[j]@),
                decreases items@.len() - i,
            {
                let item = &items[i];
                let mut row: Vec<String> = Vec::new();
                row.push(field(item, &["mlcSongCode", "mlcsongCode", "id"]));
                row.push(field(item, &["workTitle", "primaryTitle", "title"]));
                row.push(field(item, &["iswc", "isrc"]));
                row.push(people(item));
                proof {
                    assert(key_texts(seq!["mlcSongCode", "mlcsongCode", "id"]) =~= seq![
                        "mlcSongCode"@,
                        "mlcsongCode"@,
                        "id"@,
                    ]);
                    assert(key_texts(seq!["workTitle", "primaryTitle", "title"]) =~= seq![
                        "workTitle"@,
                        "primaryTitle"@,
                        "title"@,
                    ]);
                    assert(key_texts(seq!["iswc", "isrc"]) =~= seq!["iswc"@, "isrc"@]);
                    assert(texts(row@) =~= row_of(items@[i as int]@));
                }
                rows.push(row);
                i = i + 1;
            }
            assert(row_texts(rows@) =~= rows_of(views(items@)));
            Some(rows)
        },
        _ => None,
    }
}

/// A table followed by a line with its number of rows.
pub fn counted(table: &str, count: usize) -> (r: String)
    ensures
        r@ == counted_text(table@, count as nat),
{
    let mut text: Vec<char> = chars_of(table);
    push_str(&mut text, "\n");
    push_decimal(&mut text, count as u64);
    push_str(&mut text, " result(s)");
    string_of(&text)
}

/// The terminal view of a collection: the table of its items and their
/// count. Nothing for a value that is not an array.
pub fn table_text(value: &Json) -> (r: Option<String>)
    ensures
        match value@ {
            JsonView::Array(items) => r matches Some(t) && t@ == counted_text(
                rendered_table(table_header(), rows_of(items)),
                items.len(),
            ),
            _ => r is None,
        },
{
    let rows = match table_rows(value) {
        Some(rows) => rows,
        None => {
            return None;
        },
    };
    let mut header: Vec<String> = Vec::new();
    header.push("MLC code".to_string());
    header.push("Title".to_string());
    header.push("ISWC / ISRC".to_string());
    header.push("Artist / Writers".to_string());
    assert(texts(header@) =~= table_header());
    assert(row_texts(rows@).len() == rows@.len());
    assert(value@ matches JsonView::Array(items) ==> rows_of(items).len() == items.len());
    let table = render_table(&header, &rows);
    Some(counted(table.as_str(), rows.len()))
}

/// What is printed for a result: on a terminal, unless JSON was asked for,
/// the table of a collection (`Some`); otherwise the JSON document (`None`).
pub fn terminal_table(value: &Json, json: bool, terminal: bool) -> (r: Option<String>)
    ensures
        json || !terminal ==> r is None,
        !json && terminal ==> match value@ {
            JsonView::Array(items) => r matches Some(t) && t@ == counted_text(
                rendered_table(table_header(), rows_of(items)),
                items.len(),
            ),
            _ => r is None,
        },
{
    if json || !terminal {
        return None;
    }
    table_text(value)
}


/// The string member `k` of a value, if it has one.
pub open spec fn str_at(v: JsonView, k: Seq<char>) -> Option<Seq<char>> {
    match v {
        JsonView::Object(keys, vals) => match obj_get(keys, vals, k) {
            Some(JsonView::Str(s)) => Some(s),
            _ => None,
        },
        _ => None,
    }
}

/// A cell for the first of two keys that holds a string: that string without
/// control characters.
proof fn lemma_cell_of_two(v: JsonView, a: Seq<char>, b: Seq<char>)
    ensures
        str_at(v, a) matches Some(s) ==> field_text(v, seq![a, b]) == without_controls(s),
        str_at(v, a) is None ==> (str_at(v, b) matches Some(s) ==> field_text(v, seq![a, b])
            == without_controls(s)),
        str_at(v, a) is None && str_at(v, b) is None ==> field_text(v, seq![a, b])
            == without_controls(Seq::empty()),
{
    let ks = seq![a, b];
    assert(ks.drop_first() =~= seq![b]);
    assert(ks.drop_first().drop_first() =~= Seq::<Seq<char>>::empty());
    assert(str_at(v, a) == string_member(v, a));
    assert(str_at(v, b) == string_member(v, b));
    assert(first_string(v, seq![b]) == match string_member(v, b) {
        Some(t) => Some(t),
        None => first_string(v, Seq::<Seq<char>>::empty()),
    });
    assert(first_string(v, ks) == match string_member(v, a) {
        Some(t) => Some(t),
        None => first_string(v, seq![b]),
    });
}

/// A cell for the first of three keys that holds a string: that string
/// without control characters.
proof fn lemma_cell_of_three(v: JsonView, a: Seq<char>, b: Seq<char>, c: Seq<char>)
    ensures
        str_at(v, a) matches Some(s) ==> field_text(v, seq![a, b, c]) == without_controls(s),
        str_at(v, a) is None ==> (str_at(v, b) matches Some(s) ==> field_text(v, seq![a, b, c])
            == without_controls(s)),
        str_at(v, a) is None && str_at(v, b) is None ==> (str_at(v, c) matches Some(s)
            ==> field_text(v, seq![a, b, c]) == without_controls(s)),
{
    let ks = seq![a, b, c];
    assert(ks.drop_first() =~= seq![b, c]);
    assert(seq![b, c].drop_first() =~= seq![c]);
    assert(seq![c].drop_first() =~= Seq::<Seq<char>>::empty());
    assert(str_at(v, a) == string_member(v, a));
    assert(str_at(v, b) == string_member(v, b));
    assert(str_at(v, c) == string_member(v, c));
    assert(first_string(v, seq![c]) == match string_member(v, c) {
        Some(t) => Some(t),
        None => first_string(v, Seq::<Seq<char>>::empty()),
    });
    assert(first_string(v, seq![b, c]) == match string_member(v, b) {
        Some(t) => Some(t),
        None => first_string(v, seq![c]),
    });
    assert(first_string(v, ks) == match string_member(v, a) {
        Some(t) => Some(t),
        None => first_string(v, seq![b, c]),
    });
}

/// Each item of a collection becomes one row of four cells, in the order of
/// the header. The ISWC / ISRC column shows the item's `iswc` when it is a
/// string, else its `isrc`; the code column its `mlcSongCode`, `mlcsongCode`
/// or `id`; the title column its `workTitle`, `primaryTitle` or `title`; each
/// without control characters. The people column shows the writer of a
/// one-writer list as first and last name, or else the item's `artist`.
pub proof fn lemma_table_columns(items: Seq<JsonView>, i: int)
    requires
        0 <= i < items.len(),
    ensures
        rows_of(items).len() == items.len(),
        rows_of(items)[i].len() == 4,
        table_header()[2] == "ISWC / ISRC"@,
        str_at(items[i], "iswc"@) matches Some(s) ==> rows_of(items)[i][2] == without_controls(s),
        str_at(items[i], "iswc"@) is None ==> (str_at(items[i], "isrc"@) matches Some(s)
            ==> rows_of(items)[i][2] == without_controls(s)),
        str_at(items[i], "iswc"@) is None && str_at(items[i], "isrc"@) is None ==> rows_of(
            items,
        )[i][2] == without_controls(Seq::empty()),
        str_at(items[i], "mlcSongCode"@) matches Some(s) ==> rows_of(items)[i][0]
            == without_controls(s),
        str_at(items[i], "mlcSongCode"@) is None ==> (str_at(items[i], "mlcsongCode"@) matches Some(
            s) ==> rows_of(items)[i][0] == without_controls(s)),
        str_at(items[i], "workTitle"@) matches Some(s) ==> rows_of(items)[i][1] == without_controls(
            s,
        ),
        str_at(items[i], "workTitle"@) is None ==> (str_at(items[i], "primaryTitle"@) matches Some(
            s) ==> rows_of(items)[i][1] == without_controls(s)),
        str_at(items[i], "workTitle"@) is None && str_at(items[i], "primaryTitle"@) is None ==> (
        str_at(items[i], "title"@) matches Some(s) ==> rows_of(items)[i][1] == without_controls(
            s,
        )),
        items[i].get("writers"@) matches Some(JsonView::Array(ws)) ==> (ws.len() == 1 ==> (str_at(
            ws[0],
            "writerFirstName"@,
        ) matches Some(f) ==> (str_at(ws[0], "writerLastName"@) matches Some(l) ==> rows_of(
            items,
        )[i][3] == trim(without_controls(f) + " "@ + without_controls(l))))),
        !(items[i].get("writers"@) matches Some(JsonView::Array(_))) ==> (str_at(
            items[i],
            "artist"@,
        ) matches Some(a) ==> rows_of(items)[i][3] == without_controls(a)),
{
    let v = items[i];
    lemma_cell_of_two(v, "iswc"@, "isrc"@);
    lemma_cell_of_three(v, "mlcSongCode"@, "mlcsongCode"@, "id"@);
    lemma_cell_of_three(v, "workTitle"@, "primaryTitle"@, "title"@);
    lemma_cell_of_two(v, "artist"@, "artists"@);
    if let Some(JsonView::Array(ws)) = v.get("writers"@) {
        if ws.len() == 1 {
            let w = ws[0];
            let k1 = seq!["writerFirstName"@];
            let k2 = seq!["writerLastName"@];
            assert(k1.drop_first() =~= Seq::<Seq<char>>::empty());
            assert(k2.drop_first() =~= Seq::<Seq<char>>::empty());
            assert(persons(ws) =~= seq![person(w)]);
        }
    }
}


/// A writer's name from its first and last name, as the people column shows
/// it.
pub open spec fn full_name(f: Seq<char>, l: Seq<char>) -> Seq<char> {
    trim(without_controls(f) + " "@ + without_controls(l))
}

/// The people column of an item with a list of two writers names both, in
/// order, separated by a comma and a space.
pub proof fn lemma_two_writers(item: JsonView, ws: Seq<JsonView>)
    requires
        item.get("writers"@) == Some(JsonView::Array(ws)),
        ws.len() == 2,
        str_at(ws[0], "writerFirstName"@) is Some,
        str_at(ws[0], "writerLastName"@) is Some,
        str_at(ws[1], "writerFirstName"@) is Some,
        str_at(ws[1], "writerLastName"@) is Some,
    ensures
        row_of(item)[3] == full_name(
            str_at(ws[0], "writerFirstName"@)->0,
            str_at(ws[0], "writerLastName"@)->0,
        ) + ", "@ + full_name(
            str_at(ws[1], "writerFirstName"@)->0,
            str_at(ws[1], "writerLastName"@)->0,
        ),
{
    let k1 = seq!["writerFirstName"@];
    let k2 = seq!["writerLastName"@];
    assert(k1.drop_first() =~= Seq::<Seq<char>>::empty());
    assert(k2.drop_first() =~= Seq::<Seq<char>>::empty());
    let ps = persons(ws);
    assert(ps.drop_last() =~= seq![person(ws[0])]);
    assert(ps.last() == person(ws[1]));
    assert(join(seq![person(ws[0])], ", "@) == person(ws[0]));
    assert(join(ps, ", "@) == join(ps.drop_last(), ", "@) + ", "@ + ps.last());
}

} // verus!
