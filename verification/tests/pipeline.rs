use hexane::chunker::chunk_document;
use hexane::config::{Backend, ChatCompletion, Config, Embedding, FileProcessor, Pricing};
use hexane::jsonval::Json;
use hexane::processor::{build_records, extract_plain_text, plan_embedding, EmbeddingPlan};

#[test]
fn zero_byte_file_is_processed_with_no_rows() {
    // A zero-byte plain-text file: extraction passes the empty content
    // through, the chunker yields no chunks, no embedding request is made,
    // and the bulk insert holds zero rows.
    let text = extract_plain_text(String::new());
    let chunks = chunk_document(&text);
    assert_eq!(chunks.len(), 0);
    assert!(matches!(
        plan_embedding(chunks.len()),
        EmbeddingPlan::SkipEmbedding
    ));
    let records = build_records(5, chunks, Vec::<Json>::new());
    assert_eq!(records.len(), 0);
}

#[test]
fn config_parses_stop_words_by_line() {
    let config = Config {
        file_store: "/var/lib/files".to_string(),
        backend: Backend {
            template_directory: "templates".to_string(),
            resources: "resources".to_string(),
            stop_words: "stop-words.txt".to_string(),
            system_prompt: "answer from the context".to_string(),
        },
        file_processor: FileProcessor {
            max_active_process: 4,
        },
        embedding: Embedding {
            api: "https://provider.example/v1/embeddings".to_string(),
            model: "embedder".to_string(),
            key: "k".to_string(),
            pricing: 100,
        },
        chat_completion: ChatCompletion {
            api: "https://provider.example/v1/chat".to_string(),
            key: "k".to_string(),
            body_param: Json::Null,
            pricing: Pricing {
                input: 30,
                output: 60,
            },
        },
    };
    let stop = config.get_stop_words("the\nof");
    assert_eq!(
        hexane::query::process_query("The size of it", &stop),
        "size it"
    );
    assert_eq!(config.file_processor.max_active_process, 4);
}
