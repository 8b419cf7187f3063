use mlc_cli::cli::{doctor_probe, query, Method, Query, RecordingSearch, Search, Work, WorkSearch};
use mlc_cli::json::Json;
use serde_json::Value;

fn value(j: &Json) -> Value {
    match j {
        Json::Null => Value::Null,
        Json::Bool(b) => Value::Bool(*b),
        Json::Number(n) => serde_json::from_str(n).unwrap(),
        Json::Str(s) => Value::String(s.clone()),
        Json::Array(items) => Value::Array(items.iter().map(value).collect()),
        Json::Object(entries) => {
            let mut map = serde_json::Map::new();
            for (k, v) in entries {
                map.insert(k.clone(), value(v));
            }
            Value::Object(map)
        }
    }
}

fn json(text: &str) -> Value {
    serde_json::from_str(text).unwrap()
}

#[test]
fn work_search_combines_title_and_writer_with_api_field_names() {
    let args = WorkSearch {
        title: "Example".into(),
        writer_first_name: Some("Jane".into()),
        writer_last_name: Some("Doe".into()),
        writer_ipi: Some("00001234567".into()),
    };
    assert_eq!(
        value(&args.body()),
        json(r#"{"title":"Example", "writers":[{"writerFirstName":"Jane", "writerLastName":"Doe", "writerIPI":"00001234567"}]}"#)
    );
}

#[test]
fn recording_filters_match_api_schema() {
    let args = RecordingSearch {
        isrc: Some("AAABC1200001".into()),
        artist: Some("Example Artist".into()),
        title: Some("Example".into()),
    };
    assert_eq!(
        value(&args.body()),
        json(r#"{"isrc":"AAABC1200001", "artist":"Example Artist", "title":"Example"}"#)
    );
}

#[test]
fn absent_filters_are_left_out_of_bodies() {
    let args = WorkSearch {
        title: "Yesterday".into(),
        writer_first_name: None,
        writer_last_name: Some("McCartney".into()),
        writer_ipi: None,
    };
    assert_eq!(
        value(&args.body()),
        json(r#"{"title":"Yesterday","writers":[{"writerLastName":"McCartney"}]}"#)
    );
    let bare = WorkSearch {
        title: "Yesterday".into(),
        writer_first_name: None,
        writer_last_name: None,
        writer_ipi: None,
    };
    assert_eq!(value(&bare.body()), json(r#"{"title":"Yesterday"}"#));
    let only_isrc = RecordingSearch { title: None, artist: None, isrc: Some("GBAYE0601477".into()) };
    assert_eq!(value(&only_isrc.body()), json(r#"{"isrc":"GBAYE0601477"}"#));
}

#[test]
fn queries_map_to_documented_endpoints() {
    let search = query(&Query::Search(Search::Recordings(RecordingSearch {
        title: Some("Yesterday".into()),
        artist: None,
        isrc: None,
    })))
    .unwrap();
    assert_eq!(search.method, Method::Post);
    assert_eq!(search.path, "search/recordings");
    assert_eq!(value(search.body.as_ref().unwrap()), json(r#"{"title":"Yesterday"}"#));

    let works = query(&Query::Search(Search::Works(WorkSearch {
        title: "Yesterday".into(),
        writer_first_name: None,
        writer_last_name: Some("McCartney".into()),
        writer_ipi: None,
    })))
    .unwrap();
    assert_eq!(works.path, "search/songcode");

    let get = query(&Query::Work(Work::Get { id: "AB-12".into() })).unwrap();
    assert_eq!(get.method, Method::Get);
    assert_eq!(get.path, "work/id/AB-12");
    assert!(get.body.is_none());

    let batch = query(&Query::Work(Work::Batch { ids: vec!["A1".into(), "B2".into()] })).unwrap();
    assert_eq!(batch.method, Method::Post);
    assert_eq!(batch.path, "works");
    assert_eq!(
        value(batch.body.as_ref().unwrap()),
        json(r#"[{"mlcsongCode":"A1"},{"mlcsongCode":"B2"}]"#)
    );
}

#[test]
fn song_codes_are_validated_before_any_request() {
    for id in ["", "../admin", "A B", "x?y=1"] {
        let error = query(&Query::Work(Work::Get { id: id.into() })).unwrap_err();
        assert_eq!(error.code, 1);
        assert_eq!(error.message, "MLC song codes must contain only letters, digits or hyphens");
    }
}

#[test]
fn doctor_probes_with_a_small_work_search() {
    let probe = doctor_probe();
    assert_eq!(probe.method, Method::Post);
    assert_eq!(probe.path, "search/songcode");
    let search = Query::Search(Search::Works(WorkSearch {
        title: "Yesterday".into(),
        writer_first_name: None,
        writer_last_name: Some("McCartney".into()),
        writer_ipi: None,
    }));
    let request = query(&search).unwrap();
    assert_eq!(probe.body, request.body);
}
