//! Vector literals and the handlers of vector writes.
use nodedb_data::error::{Error, ErrorCode};
use nodedb_data::vectors::handlers::{
    delete_by_surrogate_reply, delete_found_node, execute_vector_batch_insert,
    execute_vector_delete, execute_vector_insert, vector_delete_plan, vector_delete_reply,
    FoundDelete, SyncAdmit, VectorAction, VectorInsert, VectorReply,
};
use nodedb_data::vectors::literal::{
    floats_from_value, parse_vector_string, Element, FieldValue, NonFinite, Numeric,
};
use nodedb_data::vectors::multi::{
    best_documents, execute_multi_vector_delete, execute_multi_vector_insert,
    execute_multi_vector_score_search, group_candidates, multi_vector_delete_reply, parse_mode,
    Candidate, MultiVectorInsert, MultiVectorScoreMode, ScoredDoc,
};
use nodedb_data::vectors::registry::{
    parse_metric, vector_index_key, DistanceMetric, IndexKey, IndexType, VectorRegistry,
};

/// How a text reads as a number of single precision.
fn classify(s: &str) -> Numeric {
    match s.parse::<f32>() {
        Err(_) => Numeric::Unreadable,
        Ok(v) if v.is_nan() => Numeric::NonFinite(NonFinite::NotANumber),
        Ok(v) if v == f32::INFINITY => Numeric::NonFinite(NonFinite::Positive),
        Ok(v) if v == f32::NEG_INFINITY => Numeric::NonFinite(NonFinite::Negative),
        Ok(_) => Numeric::Finite,
    }
}

fn parsed(s: &str) -> Option<Vec<f32>> {
    parse_vector_string(s, &classify)
        .map(|v| v.iter().map(|e| e.parse().expect("a number")).collect())
}

#[test]
fn parse_vector_string_accepts_all_forms() {
    assert_eq!(parsed("[0.1, 0.2, 0.3]"), Some(vec![0.1, 0.2, 0.3]));
    assert_eq!(parsed("ARRAY[0.1, 0.2, 0.3]"), Some(vec![0.1, 0.2, 0.3]));
    assert_eq!(parsed("array[1,2,3]"), Some(vec![1.0, 2.0, 3.0]));
    assert_eq!(
        parsed("ArrayLiteral([Literal(Float(0.9)), Literal(Float(0.1))])"),
        Some(vec![0.9, 0.1])
    );
    assert_eq!(parsed("ArrayLiteral([Literal(Float(0.9)), Literal(Float(bad))])"), None);
    assert_eq!(parsed("ArrayLiteral([Literal(Float(0.9)), Literal(Float(0.1"), None);
    assert_eq!(parsed("ArrayLiteral([Literal(Float(0.9)), Literal(Int(3))])"), None);
    assert_eq!(parsed("[0.1, 0.2, 0.3] extra"), None, "trailing text must be refused");
    assert_eq!(parsed("not-json"), None);
    assert_eq!(parsed("7"), None, "bare number must be refused");
    assert_eq!(parsed("[nan]"), None, "NaN must be refused");
    assert_eq!(parsed("[inf]"), None, "inf must be refused");
    assert_eq!(parsed("[0.1, \"bad\"]"), None);
    assert_eq!(parsed("{}"), None);
    assert_eq!(parsed("[1 2 3]"), None, "whitespace separators are not part of the grammar");
    assert_eq!(
        parsed("[0.1, 0.2 0.3]"),
        None,
        "whitespace-separated elements are refused wholesale"
    );
}

fn float(v: f64) -> Element {
    Element::Number { shown: format!("{v}"), finite: (v as f32).is_finite() }
}

fn integer(v: i64) -> Element {
    Element::Number { shown: format!("{v}"), finite: true }
}

fn text(s: &str) -> FieldValue {
    FieldValue::Text(s.to_string())
}

fn floats(collection: &str, value: &FieldValue) -> Result<Option<Vec<f32>>, Error> {
    floats_from_value(collection, "embedding", value, &classify)
        .map(|v| v.map(|v| v.iter().map(|e| e.parse().expect("a number")).collect()))
}

#[test]
fn floats_from_value_accepts_arrays_and_json_strings() {
    assert_eq!(
        floats("c", &FieldValue::List(vec![float(0.1), integer(2), float(3.0)]))
            .expect("valid array"),
        Some(vec![0.1, 2.0, 3.0])
    );
    assert_eq!(floats("c", &text("[0.1, 0.2, 0.3]")).expect("valid json"), Some(vec![0.1, 0.2, 0.3]));
    assert_eq!(floats("c", &text("ARRAY[0.1, 0.2]")).expect("valid sql"), Some(vec![0.1, 0.2]));
    assert_eq!(floats("c", &FieldValue::Other).expect("not a vector"), None);
}

#[test]
fn floats_from_value_rejects_malformed() {
    for bad in ["not-json", "7", "[0.1, \"bad\"]", "{}", "[nan]", "[1 2 3]"] {
        let res = floats("c", &text(bad));
        assert!(
            matches!(res, Err(Error::RejectedConstraint { .. })),
            "String({bad:?}) must be rejected, got {res:?}"
        );
    }
    let res = floats("c", &FieldValue::List(vec![float(0.1), Element::Text("bad".to_string())]));
    assert!(
        matches!(res, Err(Error::RejectedConstraint { .. })),
        "array with a non-numeric element must be rejected"
    );
}

#[test]
fn floats_from_value_rejects_empty() {
    for empty in ["", "[]", "[,,]", "[ ]"] {
        let res = floats("c", &text(empty));
        assert!(
            matches!(res, Err(Error::RejectedConstraint { .. })),
            "String({empty:?}) must be rejected as an empty vector, got {res:?}"
        );
    }
    let res = floats("c", &FieldValue::List(vec![]));
    assert!(
        matches!(res, Err(Error::RejectedConstraint { .. })),
        "an empty array must be rejected as an empty vector"
    );
}

#[test]
fn errors_name_collection_and_field() {
    match floats("docs", &text("not-json")) {
        Err(Error::RejectedConstraint { collection, constraint, detail }) => {
            assert_eq!(collection, "docs", "error must name the collection");
            assert!(
                constraint.contains("embedding"),
                "error must name the field, got {constraint:?}"
            );
            assert!(!detail.is_empty(), "error must carry the offending input");
            assert!(detail.contains("\"not-json\""), "{detail}");
        }
        other => panic!("expected RejectedConstraint, got {other:?}"),
    }
}

#[test]
fn a_list_takes_decimals_and_no_infinity() {
    let decimal = Element::Decimal {
        shown: "1.5".to_string(),
        single: Some(("1.5".to_string(), true)),
    };
    assert_eq!(floats("c", &FieldValue::List(vec![decimal])).expect("a decimal"), Some(vec![1.5]));
    let wide = Element::Decimal { shown: "1e99".to_string(), single: None };
    assert!(floats("c", &FieldValue::List(vec![wide])).is_err());
    assert!(floats("c", &FieldValue::List(vec![float(1e300)])).is_err());
    assert!(floats("c", &FieldValue::List(vec![Element::Other("null".into())])).is_err());
    let spelled = FieldValue::List(vec![Element::Text("2.5".into())]);
    assert_eq!(floats("c", &spelled).expect("a number as text"), Some(vec![2.5]));
}

fn insert(len: usize, dim: usize, surrogate: u32) -> VectorInsert<'static> {
    VectorInsert {
        database_id: 0,
        tid: 1,
        collection: "docs",
        field_name: "emb",
        vector_len: len,
        dim,
        surrogate,
    }
}

#[test]
fn an_index_keeps_its_dimension() {
    let mut reg = VectorRegistry::new();
    let (reply, action) = execute_vector_insert(&mut reg, &insert(3, 3, 0), None);
    assert!(matches!(reply, VectorReply::Done));
    assert!(matches!(action, VectorAction::Hnsw { create: true, params: None, .. }));
    let (reply, action) = execute_vector_insert(&mut reg, &insert(2, 2, 0), None);
    assert!(matches!(
        reply,
        VectorReply::Rejected(ErrorCode::RejectedConstraint { constraint, .. })
            if constraint == "dimension mismatch: index has 3, got 2"
    ));
    assert!(matches!(action, VectorAction::Nothing));
    let (reply, _) = execute_vector_insert(&mut reg, &insert(2, 3, 0), None);
    assert!(matches!(
        reply,
        VectorReply::Rejected(ErrorCode::RejectedConstraint { constraint, .. })
            if constraint == "vector dimension mismatch: expected 3, got 2"
    ));
    assert_eq!(reg.dim_of(&vector_index_key(0, 1, "docs", "emb")), Some(3));
}

#[test]
fn a_held_insert_changes_nothing() {
    let mut reg = VectorRegistry::new();
    for held in [SyncAdmit::Duplicate, SyncAdmit::Fenced, SyncAdmit::Gap] {
        let (reply, action) = execute_vector_insert(&mut reg, &insert(3, 3, 0), Some(held));
        assert!(matches!(reply, VectorReply::Held(h) if h == held));
        assert!(matches!(action, VectorAction::Nothing));
    }
    assert!(reg.dim_of(&vector_index_key(0, 1, "docs", "emb")).is_none());
}

#[test]
fn an_inverted_file_index_binds_its_rows() {
    let mut reg = VectorRegistry::new();
    reg.set_config(vector_index_key(0, 1, "docs", "emb"), IndexType::IvfPq);
    let (_, action) = execute_vector_insert(&mut reg, &insert(3, 3, 7), None);
    assert!(matches!(action, VectorAction::Ivf { create: true, bind: true, .. }));
    let (_, action) = execute_vector_insert(&mut reg, &insert(3, 3, 0), None);
    assert!(matches!(action, VectorAction::Ivf { create: false, bind: false, .. }));
}

#[test]
fn a_batch_stops_at_the_first_wrong_length() {
    let mut reg = VectorRegistry::new();
    let r = execute_vector_batch_insert(&mut reg, 0, 1, "docs", &vec![2, 2, 3, 2], 2, &vec![9]);
    assert_eq!(r.inserted, 2);
    assert_eq!(r.surrogates, vec![9, 0]);
    assert!(matches!(
        r.reply,
        Err(ErrorCode::RejectedConstraint { constraint, .. })
            if constraint == "dimension mismatch in batch: expected 2, got 3"
    ));
    let r = execute_vector_batch_insert(&mut reg, 0, 1, "docs", &vec![2, 2], 2, &vec![]);
    assert!(matches!(r.reply, Ok(2)));
}

#[test]
fn a_delete_finds_an_index_of_its_collection() {
    let mut reg = VectorRegistry::new();
    assert!(execute_vector_delete(&reg, 0, 1, "docs").is_none());
    reg.set_dim(vector_index_key(0, 1, "docs_old", ""), 2);
    assert!(execute_vector_delete(&reg, 0, 1, "docs").is_none());
    reg.set_dim(vector_index_key(0, 1, "docs", "emb"), 2);
    assert_eq!(execute_vector_delete(&reg, 0, 1, "docs").expect("an index").name, "docs:emb");
    reg.set_dim(vector_index_key(0, 1, "docs", ""), 2);
    assert_eq!(execute_vector_delete(&reg, 0, 1, "docs").expect("an index").name, "docs");
    assert!(matches!(vector_delete_reply(Some(true)), VectorReply::Done));
    assert!(matches!(vector_delete_reply(None), VectorReply::Rejected(ErrorCode::NotFound)));
    assert!(matches!(delete_by_surrogate_reply(true, None), VectorReply::Applied));
    assert!(matches!(delete_by_surrogate_reply(false, Some(true)), VectorReply::Done));
    assert!(matches!(
        delete_by_surrogate_reply(false, Some(false)),
        VectorReply::Rejected(ErrorCode::NotFound)
    ));
}

#[test]
fn a_deleted_node_takes_the_fields_of_its_row_along() {
    let mut reg = VectorRegistry::new();
    let surrogate_of = |_: &IndexKey, node: u32| match node {
        3 => Some(0xAB),
        4 => Some(7),
        _ => None,
    };
    let fields_of = |key: &str| (key == "000000ab").then_some(key.to_string());
    let plan = |reg: &VectorRegistry, node: u32| {
        vector_delete_plan(reg, 0, 1, "docs", node, &surrogate_of, &fields_of)
    };
    assert!(plan(&reg, 3).is_none());
    reg.set_dim(vector_index_key(0, 1, "docs", "emb"), 2);
    let bound = plan(&reg, 3).expect("an index");
    assert_eq!((bound.index.name.as_str(), bound.node), ("docs:emb", 3));
    assert_eq!(bound.payload.as_deref(), Some("000000ab"));
    assert!(plan(&reg, 4).expect("an index").payload.is_none(), "the row cannot be read");
    assert!(plan(&reg, 5).expect("an index").payload.is_none(), "bound to no row");

    let found = |node: Option<u32>| {
        delete_found_node(&reg, 0, 1, "docs", node, &surrogate_of, &fields_of)
    };
    assert!(matches!(found(None), FoundDelete::Absent));
    assert!(matches!(
        found(Some(3)),
        FoundDelete::Remove(x) if x.node == 3 && x.payload.as_deref() == Some("000000ab")
    ));
}

#[test]
fn each_metric_has_its_names() {
    assert_eq!(parse_metric("euclidean"), DistanceMetric::L2);
    assert_eq!(parse_metric("ip"), DistanceMetric::InnerProduct);
    assert_eq!(parse_metric("l1"), DistanceMetric::Manhattan);
    assert_eq!(parse_metric("linf"), DistanceMetric::Chebyshev);
    assert_eq!(parse_metric("hamming"), DistanceMetric::Hamming);
    assert_eq!(parse_metric("jaccard"), DistanceMetric::Jaccard);
    assert_eq!(parse_metric("pearson"), DistanceMetric::Pearson);
    assert_eq!(parse_metric("anything"), DistanceMetric::Cosine);
}

fn many(data_len: usize, count: usize, dim: usize) -> MultiVectorInsert<'static> {
    MultiVectorInsert {
        database_id: 0,
        tid: 1,
        collection: "docs",
        field_name: "tokens",
        document_surrogate: 4,
        data_len,
        count,
        dim,
    }
}

#[test]
fn a_document_of_several_vectors_is_sliced() {
    let mut reg = VectorRegistry::new();
    let plan = execute_multi_vector_insert(&mut reg, &many(6, 3, 2)).expect("insert");
    assert_eq!(plan.slices, vec![(0, 2), (2, 4), (4, 6)]);
    assert!(plan.create);
    assert!(matches!(
        execute_multi_vector_insert(&mut reg, &many(5, 3, 2)),
        Err(ErrorCode::RejectedConstraint { constraint, .. })
            if constraint == "data length mismatch: expected 6 (3×2), got 5"
    ));
    assert!(execute_multi_vector_insert(&mut reg, &many(0, 0, 2)).is_err());
    assert!(execute_multi_vector_insert(&mut reg, &many(9, 3, 3)).is_err());
    assert!(execute_multi_vector_delete(&reg, 0, 1, "docs", "tokens").is_ok());
    assert!(matches!(
        execute_multi_vector_delete(&reg, 0, 1, "docs", "other"),
        Err(ErrorCode::NotFound)
    ));
    assert!(multi_vector_delete_reply(1).is_ok());
    assert!(multi_vector_delete_reply(0).is_err());
}

#[test]
fn a_scored_search_fetches_enough() {
    let mut reg = VectorRegistry::new();
    reg.set_dim(vector_index_key(0, 1, "docs", "tokens"), 2);
    let search = |top_k: usize, ef: usize, mode: &str| {
        execute_multi_vector_score_search(&reg, 0, 1, "docs", "tokens", top_k, ef, mode)
    };
    let s = search(5, 0, "max_sim").expect("a search");
    assert_eq!((s.over_fetch, s.ef), (100, 200));
    let s = search(50, 20, "avg_sim").expect("a search");
    assert_eq!((s.over_fetch, s.ef), (500, 500));
    let s = search(usize::MAX, 20_000, "sum_sim").expect("a search");
    assert_eq!((s.over_fetch, s.ef), (10_000, 20_000));
    assert!(matches!(
        search(1, 1, "min"),
        Err(ErrorCode::RejectedConstraint { constraint, .. })
            if constraint == "unknown score mode 'min'; supported: max_sim, avg_sim, sum_sim"
    ));
    assert_eq!(parse_mode("max_sim"), Some(MultiVectorScoreMode::MaxSim));
    assert!(matches!(
        execute_multi_vector_score_search(&reg, 0, 1, "x", "", 1, 1, "max_sim"),
        Err(ErrorCode::NotFound)
    ));
}

#[test]
fn the_best_documents_are_kept() {
    let candidates: Vec<Candidate> = [Some(7), Some(8), None, Some(7)]
        .into_iter()
        .enumerate()
        .map(|(i, surrogate)| Candidate { id: i as u32, surrogate })
        .collect();
    let groups = group_candidates(&candidates);
    assert!(groups.contains(&(7, vec![0, 3])));
    assert!(groups.contains(&(8, vec![1])));
    let docs = vec![
        ScoredDoc { surrogate: 1, score: 5 },
        ScoredDoc { surrogate: 2, score: 9 },
        ScoredDoc { surrogate: 3, score: 7 },
    ];
    let best: Vec<u32> = best_documents(docs, 2).iter().map(|d| d.surrogate).collect();
    assert_eq!(best, vec![2, 3]);
}
