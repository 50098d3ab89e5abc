use hexane::processor::{
    build_records, parse_media_type, plan_embedding, Datasource, EmbeddingPlan, MediaType,
};
use hexane::jsonval::Json;
use hexane::upload::{
    processed_count, stored_file_name, total_size, update_category, upload_allowed,
    FileActionForm, UPLOAD_LIMIT_BYTES,
};

#[test]
fn upload_allowed_within_limit_with_credit() {
    assert_eq!(UPLOAD_LIMIT_BYTES, 20 * 1024 * 1024);
    assert!(upload_allowed(0, true));
    assert!(upload_allowed(UPLOAD_LIMIT_BYTES, true));
    assert!(!upload_allowed(UPLOAD_LIMIT_BYTES + 1, true));
    assert!(!upload_allowed(0, false));
}

#[test]
fn category_field_lowercases_and_replaces_default() {
    assert_eq!(update_category("default".to_string(), "Work"), "work");
    assert_eq!(update_category("default".to_string(), ""), "default");
    assert_eq!(update_category("chosen".to_string(), "Other"), "chosen");
}

#[test]
fn stored_name_is_hash_dash_suffix() {
    assert_eq!(stored_file_name("cafe12", "Ab3xYz9Q"), "cafe12-Ab3xYz9Q");
}

#[test]
fn total_size_sums_file_sizes() {
    assert_eq!(total_size(&vec![1, 2, 3]), Some(6));
    assert_eq!(total_size(&Vec::new()), Some(0));
    assert_eq!(total_size(&vec![i64::MAX, 1]), None);
}

#[test]
fn processed_count_counts_timestamps() {
    assert_eq!(processed_count(&vec![true, false, true]), 2);
    assert_eq!(processed_count(&Vec::new()), 0);
}

#[test]
fn media_type_dispatch_accepts_exactly_two() {
    assert!(matches!(
        parse_media_type("text/plain"),
        Ok(MediaType::PlainText)
    ));
    assert!(matches!(
        parse_media_type("application/pdf"),
        Ok(MediaType::Pdf)
    ));
    assert!(parse_media_type("image/png").is_err());
    assert!(parse_media_type("").is_err());
}

#[test]
fn empty_document_skips_embedding() {
    assert!(matches!(plan_embedding(0), EmbeddingPlan::SkipEmbedding));
    assert!(matches!(plan_embedding(3), EmbeddingPlan::RequestEmbeddings));
}

#[test]
fn records_pair_chunks_with_vectors_in_order() {
    let chunks = vec!["first".to_string(), "second".to_string()];
    let vectors = vec![
        Json::Num("1".to_string()),
        Json::Num("2".to_string()),
    ];
    let records = build_records(99, chunks, vectors);
    assert_eq!(records.len(), 2);
    assert_eq!(records[0].file_id, 99);
    assert_eq!(records[0].text, "first");
    assert!(matches!(&records[0].vector, Json::Num(s) if s == "1"));
    assert_eq!(records[1].file_id, 99);
    assert_eq!(records[1].text, "second");
    assert!(matches!(&records[1].vector, Json::Num(s) if s == "2"));
}

#[test]
fn claimed_file_and_action_form_carry_fields() {
    let d = Datasource {
        id: 1,
        user_id: 2,
        path: "u/abc-123".to_string(),
        media_type: "text/plain".to_string(),
    };
    assert_eq!(d.id, 1);
    assert_eq!(d.user_id, 2);
    let form = FileActionForm {
        delete: "cafe12".to_string(),
    };
    assert_eq!(form.delete, "cafe12");
}
