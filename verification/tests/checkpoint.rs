//! Names and contents of checkpoints.
use nodedb_data::checkpoint::encoding::{dec_component, enc_component};
use nodedb_data::checkpoint::sparse_vector::{
    load_sparse_vector_checkpoints, parse_legacy_sparse_vector_key, parse_sparse_vector_key,
    sparse_vector_checkpoint_prefix, sparse_vector_checkpoint_stem, SparseFile,
};
use nodedb_data::checkpoint::spatial::{
    checkpoint_stem, parse_spatial_key, spatial_checkpoint_prefix, spatial_doc_map,
};
use nodedb_data::checkpoint::vector::{
    is_plain_path_component, parse_build_key, parse_vector_ckpt_stem, vector_ckpt_dir,
    vector_ckpt_gen_dir, vector_ckpt_stem,
};
use nodedb_data::ids::{DatabaseId, TenantId};
use nodedb_data::spatial::{BoundingBox, SpatialKey, SpatialState};

#[test]
fn sparse_vector_checkpoint_stem_roundtrips_through_parse() {
    let stem = sparse_vector_checkpoint_stem(7, 42, "my_docs", "title_field");
    let parsed = parse_sparse_vector_key(&stem).expect("new-format parse");
    assert_eq!(parsed.0, DatabaseId::new(7));
    assert_eq!(parsed.1, TenantId::new(42));
    assert_eq!(parsed.2, "my_docs");
    assert_eq!(parsed.3, "title_field");
}

#[test]
fn sparse_vector_checkpoint_prefix_matches_stem_for_same_collection() {
    let stem = sparse_vector_checkpoint_stem(3, 9, "d_b", "f");
    let prefix = sparse_vector_checkpoint_prefix(3, 9, "d_b");
    assert!(stem.starts_with(&prefix), "stem {stem} must start with prefix {prefix}");
}

#[test]
fn legacy_3part_parses_under_default_db() {
    let parsed = parse_legacy_sparse_vector_key("5_docs_title").expect("legacy parse");
    assert_eq!(parsed.0, DatabaseId::default_id());
    assert_eq!(parsed.1, TenantId::new(5));
    assert_eq!(parsed.2, "docs");
    assert_eq!(parsed.3, "title");
}

#[test]
fn new_format_takes_precedence_over_legacy() {
    let stem = sparse_vector_checkpoint_stem(1, 2, "c", "f");
    assert!(parse_sparse_vector_key(&stem).is_some());
}

#[test]
fn sparse_vector_checkpoint_non_numeric_stem_is_none() {
    assert!(parse_sparse_vector_key("a_b_c_d").is_none());
    assert!(parse_legacy_sparse_vector_key("a_b_c").is_none());
}

#[test]
fn enc_dec_roundtrips_special_chars() {
    for raw in ["geom", "my_coll", "a%b", "x/y", "weird_:_name", "a_b_c"] {
        assert_eq!(dec_component(&enc_component(raw)), raw);
    }
}

#[test]
fn an_encoded_name_lacks_the_separator() {
    assert!(!enc_component("a_b_c").contains('_'));
    assert!(!enc_component("x/y").contains('/'));
    assert_eq!(dec_component(&enc_component("grüße_☃")), "grüße_☃");
}

#[test]
fn spatial_checkpoint_stem_roundtrips_through_parse() {
    let db = DatabaseId::new(7);
    let tid = TenantId::new(42);
    let stem = checkpoint_stem(db, tid, "my_places", "geo_field");
    let parsed = parse_spatial_key(&stem).expect("new-format parse");
    assert_eq!(parsed.0, db);
    assert_eq!(parsed.1, tid);
    assert_eq!(parsed.2, "my_places");
    assert_eq!(parsed.3, "geo_field");
}

#[test]
fn spatial_checkpoint_prefix_matches_stem_for_same_collection() {
    let stem = checkpoint_stem(DatabaseId::new(3), TenantId::new(9), "p_l", "f");
    let prefix = spatial_checkpoint_prefix(3, 9, "p_l");
    assert!(stem.starts_with(&prefix), "stem {stem} must start with prefix {prefix}");
}

#[test]
fn spatial_checkpoint_non_numeric_stem_is_none() {
    assert!(parse_spatial_key("a_b_c_d").is_none());
}

#[test]
fn a_prefix_selects_no_other_collection() {
    let prefix = spatial_checkpoint_prefix(3, 9, "p");
    let other = checkpoint_stem(DatabaseId::new(3), TenantId::new(9), "p_l", "f");
    assert!(!other.starts_with(&prefix));
}

#[test]
fn vector_checkpoint_per_core_dirs_are_distinct() {
    let d0 = vector_ckpt_dir("/data", 0);
    let d1 = vector_ckpt_dir("/data", 1);
    assert_ne!(d0, d1, "different cores must get different checkpoint dirs");
    assert!(d0.contains("core-0"), "core-0 dir must contain 'core-0'");
    assert!(d1.contains("core-1"), "core-1 dir must contain 'core-1'");
}

#[test]
fn paths_per_core_dirs_are_distinct() {
    let d0 = vector_ckpt_dir("/data", 0);
    let d1 = vector_ckpt_dir("/data", 1);
    assert_ne!(d0, d1, "different cores must get different checkpoint dirs");
    assert!(d0.contains("core-0"));
    assert!(d1.contains("core-1"));
}

#[test]
fn generation_dirs_are_distinct() {
    let base = "/data/vector-ckpt/core-0";
    assert_ne!(vector_ckpt_gen_dir(base, 0), vector_ckpt_gen_dir(base, 1));
}

#[test]
fn paths_stem_roundtrips_through_parse() {
    for coll_key in ["docs", "docs:emb", "2/docs", "a-tenant-b", "-key-"] {
        let stem = vector_ckpt_stem(3, 9, coll_key);
        let (db, tid, parsed) = parse_vector_ckpt_stem(&stem).expect("stem must parse");
        assert_eq!(db, DatabaseId::new(3));
        assert_eq!(tid, TenantId::new(9));
        assert_eq!(parsed, coll_key);
    }
}

#[test]
fn only_written_stems_are_read() {
    assert!(parse_vector_ckpt_stem("db-0-tenant-1-key-4a").is_some());
    for foreign in [
        "db-0-tenant-1-key-4A",
        "db-+0-tenant-1-key-4a",
        "db-00-tenant-1-key-4a",
        "db-0-tenant-01-key-4a",
        "db-0-tenant-1-key-4",
        "db-0-tenant-1-key-ff",
        "db-0-tenant-1",
    ] {
        assert!(parse_vector_ckpt_stem(foreign).is_none(), "{foreign}");
    }
}

#[test]
fn stem_is_a_plain_path_component() {
    for coll_key in ["docs", "../../etc/passwd", "a/b", "C:evil", ".."] {
        let stem = vector_ckpt_stem(0, 1, coll_key);
        assert!(
            is_plain_path_component(&format!("{stem}.ckpt")),
            "{coll_key:?} produced a non-plain stem: {stem}"
        );
    }
    assert!(!is_plain_path_component(".."));
    assert!(!is_plain_path_component("a/b"));
}

#[test]
fn field_stems_extend_the_collection_stem() {
    let bare = vector_ckpt_stem(0, 1, "docs");
    let field = vector_ckpt_stem(0, 1, "docs:emb");
    assert!(field.starts_with(&bare));
    assert!(!vector_ckpt_stem(0, 1, "docs_archive").starts_with(&format!("{bare}3a")));
}

#[test]
fn field_qualified_key_keeps_its_remainder() {
    let (_, _, coll) = parse_build_key("0:1:docs:emb").expect("must parse");
    assert_eq!(coll, "docs:emb");
}

#[test]
fn non_numeric_key_is_none() {
    assert!(parse_build_key("a:b:c").is_none());
    assert!(parse_build_key("0:1").is_none());
}

#[test]
fn a_document_map_decodes_to_its_entries() {
    let mut state = SpatialState::new();
    let key = || SpatialKey { db: 1, tid: 2, coll: "c".into(), field: "g".into() };
    assert!(spatial_doc_map(&state, &key()).expect("encode").is_none());
    let bbox = BoundingBox { min_lng: 0, min_lat: 0, max_lng: 0, max_lat: 0 };
    state.insert_entry(key(), 7, bbox, "d7".to_string());
    let bytes = spatial_doc_map(&state, &key()).expect("encode").expect("entries");
    let read: Vec<(u64, String)> = zerompk::from_msgpack(&bytes).expect("decode");
    assert_eq!(read, vec![(7, "d7".to_string())]);
}

#[test]
fn older_names_are_loaded_and_renamed() {
    let file = |name: &str, readable: bool| SparseFile { name: name.to_string(), readable };
    let files = vec![
        file("5_docs_title.ckpt", true),
        file(&format!("{}.ckpt", sparse_vector_checkpoint_stem(1, 2, "c", "f")), true),
        file("1_2_c_unreadable.ckpt", false),
        file("a_b.ckpt", true),
        file("5_docs_title.tmp", true),
    ];
    let loads = load_sparse_vector_checkpoints(&files);
    assert_eq!(loads.len(), 2);
    assert_eq!(loads[0].file, 0);
    let rename = loads[0].entry.rename.as_ref().expect("an older name is renamed");
    assert_eq!(rename.from, "5_docs_title");
    assert_eq!(rename.to, sparse_vector_checkpoint_stem(0, 5, "docs", "title"));
    assert_eq!(loads[1].file, 1);
    assert!(loads[1].entry.rename.is_none());
    assert_eq!((loads[1].entry.db, loads[1].entry.tid), (1, 2));
}
