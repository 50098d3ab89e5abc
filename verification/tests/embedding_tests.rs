use hexane::embedding::{
    chat_cost, embedding_cost, embedding_request, parse_embedding_response, EmbedError,
};
use hexane::jsonval::{string_array, take_key, Json};

fn num(s: &str) -> Json {
    Json::Num(s.to_string())
}

fn vector(values: &[&str]) -> Json {
    Json::Arr(values.iter().map(|v| num(v)).collect())
}

fn response(tokens: &str, embeddings: Vec<Json>) -> Json {
    let data: Vec<Json> = embeddings
        .into_iter()
        .map(|e| Json::Obj(vec![("embedding".to_string(), e)]))
        .collect();
    Json::Obj(vec![
        (
            "usage".to_string(),
            Json::Obj(vec![("total_tokens".to_string(), num(tokens))]),
        ),
        ("data".to_string(), Json::Arr(data)),
    ])
}

#[test]
fn response_with_matching_count_is_accepted_in_order() {
    let resp = response("42", vec![vector(&["1", "2"]), vector(&["3", "4"])]);
    let (vecs, tokens) = parse_embedding_response(resp, 2).unwrap();
    assert_eq!(tokens, 42);
    assert_eq!(vecs.len(), 2);
    match &vecs[0] {
        Json::Arr(items) => match &items[0] {
            Json::Num(s) => assert_eq!(s, "1"),
            _ => panic!("first vector should hold numbers"),
        },
        _ => panic!("first vector should be an array"),
    }
    match &vecs[1] {
        Json::Arr(items) => match &items[0] {
            Json::Num(s) => assert_eq!(s, "3"),
            _ => panic!("second vector should hold numbers"),
        },
        _ => panic!("second vector should be an array"),
    }
}

#[test]
fn response_with_wrong_count_is_rejected() {
    let resp = response("42", vec![vector(&["1"])]);
    assert!(matches!(
        parse_embedding_response(resp, 2),
        Err(EmbedError::VectorCountMismatch)
    ));
}

#[test]
fn response_without_usage_is_rejected() {
    let resp = Json::Obj(vec![("data".to_string(), Json::Arr(vec![]))]);
    assert!(matches!(
        parse_embedding_response(resp, 0),
        Err(EmbedError::MalformedUsage)
    ));
}

#[test]
fn response_without_data_array_is_rejected() {
    let resp = Json::Obj(vec![
        (
            "usage".to_string(),
            Json::Obj(vec![("total_tokens".to_string(), num("7"))]),
        ),
        ("data".to_string(), Json::Str("oops".to_string())),
    ]);
    assert!(matches!(
        parse_embedding_response(resp, 0),
        Err(EmbedError::MalformedData)
    ));
}

#[test]
fn response_item_without_embedding_is_rejected() {
    let resp = Json::Obj(vec![
        (
            "usage".to_string(),
            Json::Obj(vec![("total_tokens".to_string(), num("7"))]),
        ),
        (
            "data".to_string(),
            Json::Arr(vec![Json::Obj(vec![("other".to_string(), num("1"))])]),
        ),
    ]);
    assert!(matches!(
        parse_embedding_response(resp, 1),
        Err(EmbedError::MalformedData)
    ));
}

#[test]
fn embedding_cost_is_tokens_times_price_over_thousand() {
    assert_eq!(embedding_cost(1000, 100), Some(100));
    assert_eq!(embedding_cost(1500, 100), Some(150));
    assert_eq!(embedding_cost(999, 1), Some(0));
    assert_eq!(embedding_cost(0, 1_000_000), Some(0));
    assert_eq!(embedding_cost(u64::MAX, u64::MAX), None);
}

#[test]
fn chat_cost_prices_prompt_and_completion_separately() {
    assert_eq!(chat_cost(1000, 1000, 30, 60), Some(90));
    assert_eq!(chat_cost(500, 0, 30, 60), Some(15));
    assert_eq!(chat_cost(0, 0, 30, 60), Some(0));
    assert_eq!(chat_cost(u64::MAX, u64::MAX, u64::MAX, u64::MAX), None);
}

#[test]
fn request_carries_model_and_input() {
    let input = string_array(&vec!["chunk one".to_string(), "chunk two".to_string()]);
    let req = embedding_request("test-model", input);
    match req.get("model") {
        Some(Json::Str(m)) => assert_eq!(m, "test-model"),
        _ => panic!("request should carry the model name"),
    }
    match req.get("input") {
        Some(Json::Arr(items)) => {
            assert_eq!(items.len(), 2);
            match &items[0] {
                Json::Str(s) => assert_eq!(s, "chunk one"),
                _ => panic!("input should hold the chunk strings"),
            }
        },
        _ => panic!("request should carry the input array"),
    }
}

#[test]
fn json_getters_read_numbers_and_keys() {
    let j = Json::Obj(vec![
        ("n".to_string(), num("12345")),
        ("s".to_string(), Json::Str("x".to_string())),
    ]);
    assert!(matches!(j.get("n"), Some(Json::Num(_))));
    assert_eq!(j.get("n").unwrap().as_u64(), Some(12345));
    assert_eq!(j.get("s").unwrap().as_u64(), None);
    assert!(j.get("missing").is_none());
    let taken = take_key(j, "s");
    assert!(matches!(taken, Some(Json::Str(_))));
}
