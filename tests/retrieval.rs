use clipsage::capture::{first_line_of, infer_tags, is_blank, should_capture, summarize};
use clipsage::clip::{ClipItem, Timestamp};
use clipsage::codec::{decode_embedding, encode_embedding, CodecError};
use clipsage::engine::{combine_search, EngineError};
use clipsage::merge::{contains_id, merge_results};
use clipsage::rank::{rank_by_similarity, rank_indices, score_order};
use clipsage::record::{clip_from_row, clip_to_row, rows_to_clips, ClipRow};

fn clip(id: &str, secs: i64, embedding: Option<Vec<f32>>) -> ClipItem {
    ClipItem {
        id: id.to_string(),
        content: format!("content of {}", id),
        summary: String::new(),
        tags: vec![],
        timestamp: Timestamp { secs, nanos: 0 },
        source: None,
        embedding: embedding.map(|v| v.iter().map(|f| f.to_bits()).collect()),
    }
}

fn ids(items: &[ClipItem]) -> Vec<String> {
    items.iter().map(|c| c.id.clone()).collect()
}

fn row(tags: &str, timestamp: &str, embedding: Option<Vec<u8>>) -> ClipRow {
    ClipRow {
        id: "r1".to_string(),
        content: "hello world".to_string(),
        summary: "hello".to_string(),
        tags: tags.to_string(),
        timestamp: timestamp.to_string(),
        source: Some("clipboard".to_string()),
        embedding,
    }
}

#[test]
fn encode_is_little_endian() {
    let v = vec![1.0f32.to_bits(), 0x0102_0304u32];
    assert_eq!(encode_embedding(&v), vec![0x00, 0x00, 0x80, 0x3f, 0x04, 0x03, 0x02, 0x01]);
}

#[test]
fn encode_empty_is_empty() {
    assert_eq!(encode_embedding(&vec![]), Vec::<u8>::new());
}

#[test]
fn decode_reads_words() {
    let b = vec![0x00, 0x00, 0x80, 0x3f, 0xff, 0xff, 0xff, 0xff];
    assert_eq!(decode_embedding(&b), Ok(vec![1.0f32.to_bits(), u32::MAX]));
}

#[test]
fn decode_rejects_partial_chunk() {
    assert_eq!(decode_embedding(&vec![1, 2, 3, 4, 5]), Err(CodecError::EmbeddingLength));
    assert_eq!(decode_embedding(&vec![1, 2, 3]), Err(CodecError::EmbeddingLength));
}

#[test]
fn floats_round_trip_bit_exact() {
    let floats = [0.0f32, -0.0, 1.5, -3.25e-7, f32::MAX, f32::MIN_POSITIVE, f32::INFINITY, f32::NAN];
    let bits: Vec<u32> = floats.iter().map(|f| f.to_bits()).collect();
    let back = decode_embedding(&encode_embedding(&bits)).unwrap();
    assert_eq!(back, bits);
    let again: Vec<f32> = back.iter().map(|b| f32::from_bits(*b)).collect();
    assert_eq!(again[2], 1.5);
    assert_eq!(again[3], -3.25e-7);
    assert!(again[7].is_nan());
}

#[test]
fn score_order_follows_float_order() {
    assert_eq!(score_order(0.0f32.to_bits()), 0);
    assert_eq!(score_order((-0.0f32).to_bits()), 0);
    assert_eq!(score_order(1.0f32.to_bits()), 0x3f80_0000);
    assert_eq!(score_order((-1.0f32).to_bits()), -0x3f80_0000);
    assert!(score_order(f32::NAN.to_bits()) < score_order(f32::NEG_INFINITY.to_bits()));
    assert!(score_order((-f32::NAN).to_bits()) < score_order(f32::NEG_INFINITY.to_bits()));
    let xs = [f32::NEG_INFINITY, -1.0f32, -0.5, -1e-9, 0.0, 1e-9, 0.25, 0.5, 1.0, f32::INFINITY];
    for w in xs.windows(2) {
        assert!(score_order(w[0].to_bits()) < score_order(w[1].to_bits()));
    }
}

#[test]
fn rank_indices_orders_by_key_then_place() {
    let keys = vec![5, 9, 5, 1, 9];
    let eligible = vec![true, true, true, true, false];
    assert_eq!(rank_indices(&keys, &eligible, 10), vec![1, 0, 2, 3]);
    assert_eq!(rank_indices(&keys, &eligible, 2), vec![1, 0]);
    assert_eq!(rank_indices(&keys, &eligible, 0), Vec::<usize>::new());
}

#[test]
fn rank_by_similarity_skips_clips_without_embedding() {
    let working = vec![
        clip("a", 3, Some(vec![1.0, 0.0])),
        clip("b", 2, None),
        clip("c", 1, Some(vec![0.0, 1.0])),
        clip("d", 0, Some(vec![1.0, 1.0])),
    ];
    let scores = vec![0.2f32.to_bits(), 0.9f32.to_bits(), 0.7f32.to_bits(), (-0.4f32).to_bits()];
    let r = rank_by_similarity(working, &scores, 50);
    assert_eq!(ids(&r), vec!["c", "a", "d"]);
}

#[test]
fn rank_by_similarity_puts_nan_last() {
    let working = vec![
        clip("n", 3, Some(vec![f32::NAN])),
        clip("m", 2, Some(vec![-1.0])),
        clip("p", 1, Some(vec![1.0])),
    ];
    let scores = vec![f32::NAN.to_bits(), (-1.0f32).to_bits(), 0.3f32.to_bits()];
    let r = rank_by_similarity(working, &scores, 50);
    assert_eq!(ids(&r), vec!["p", "m", "n"]);
}

#[test]
fn rank_by_similarity_keeps_recency_on_ties_and_limit() {
    let working = vec![
        clip("a", 3, Some(vec![1.0])),
        clip("b", 2, Some(vec![1.0])),
        clip("c", 1, Some(vec![1.0])),
    ];
    let scores = vec![0.5f32.to_bits(), 0.5f32.to_bits(), 0.5f32.to_bits()];
    let r = rank_by_similarity(working, &scores, 2);
    assert_eq!(ids(&r), vec!["a", "b"]);
}

#[test]
fn merge_drops_repeated_ids() {
    let lexical = vec![clip("x", 1, None), clip("y", 2, None)];
    let semantic = vec![clip("y", 2, None), clip("z", 3, None), clip("x", 1, None)];
    let r = merge_results(lexical, semantic, 50);
    assert_eq!(ids(&r), vec!["x", "y", "z"]);
}

#[test]
fn merge_keeps_lexical_positions() {
    let lexical = vec![clip("p", 1, None), clip("q", 2, None), clip("s", 3, None)];
    let semantic = vec![clip("s", 3, None), clip("t", 4, None), clip("p", 1, None)];
    let r = merge_results(lexical, semantic, 50);
    assert_eq!(ids(&r), vec!["p", "q", "s", "t"]);
}

#[test]
fn merge_truncates_to_limit() {
    let lexical = vec![clip("a", 1, None)];
    let semantic = vec![clip("b", 2, None), clip("c", 3, None)];
    assert_eq!(ids(&merge_results(lexical, semantic, 2)), vec!["a", "b"]);
    assert!(merge_results(vec![clip("a", 1, None)], vec![], 0).is_empty());
}

#[test]
fn contains_id_finds_only_present_ids() {
    let items = vec![clip("a", 1, None), clip("b", 2, None)];
    assert!(contains_id(&items, &"b".to_string()));
    assert!(!contains_id(&items, &"c".to_string()));
}

#[test]
fn lexical_match_appears_despite_low_similarity() {
    let hello = clip("hello", 1, Some(vec![1.0, 0.0]));
    let other = clip("other", 2, Some(vec![0.0, 1.0]));
    let lexical = vec![hello.clone()];
    let working = vec![other, hello];
    let scores = vec![0.95f32.to_bits(), (-0.9f32).to_bits()];
    let r = combine_search(lexical, Ok((working, scores)), 1).unwrap();
    assert_eq!(ids(&r), vec!["hello"]);
}

#[test]
fn provider_failure_fails_the_search() {
    let lexical = vec![clip("hello", 1, None)];
    let r = combine_search(lexical, Err(EngineError::ProviderUnavailable), 50);
    assert_eq!(r.unwrap_err(), EngineError::ProviderUnavailable);
    let r = combine_search(vec![], Err(EngineError::ProviderError), 50);
    assert_eq!(r.unwrap_err(), EngineError::ProviderError);
}

#[test]
fn combine_search_merges_both_halves() {
    let lexical = vec![clip("b", 2, Some(vec![0.0]))];
    let working = vec![clip("a", 3, Some(vec![1.0])), clip("b", 2, Some(vec![0.0])), clip("c", 1, Some(vec![0.5]))];
    let scores = vec![0.1f32.to_bits(), 0.9f32.to_bits(), 0.5f32.to_bits()];
    let r = combine_search(lexical, Ok((working, scores)), 50).unwrap();
    assert_eq!(ids(&r), vec!["b", "c", "a"]);
}

#[test]
fn row_reads_back() {
    let blob = encode_embedding(&vec![0.5f32.to_bits(), (-2.0f32).to_bits()]);
    let c = clip_from_row(row("[\"url\",\"code\"]", "2024-01-02T03:04:05.5+00:00", Some(blob))).unwrap();
    assert_eq!(c.id, "r1");
    assert_eq!(c.tags, vec!["url".to_string(), "code".to_string()]);
    assert_eq!(c.timestamp, Timestamp { secs: 1_704_164_645, nanos: 500_000_000 });
    assert_eq!(c.source, Some("clipboard".to_string()));
    assert_eq!(c.embedding, Some(vec![0.5f32.to_bits(), (-2.0f32).to_bits()]));
}

#[test]
fn row_with_offset_is_read_as_utc() {
    let c = clip_from_row(row("[]", "2024-01-02T05:04:05+02:00", None)).unwrap();
    assert_eq!(c.timestamp, Timestamp { secs: 1_704_164_645, nanos: 0 });
    assert_eq!(c.embedding, None);
    assert!(c.tags.is_empty());
}

#[test]
fn row_errors_are_reported() {
    assert_eq!(clip_from_row(row("not json", "2024-01-02T03:04:05Z", None)).unwrap_err(), CodecError::Tags);
    assert_eq!(clip_from_row(row("[]", "yesterday", None)).unwrap_err(), CodecError::Timestamp);
    assert_eq!(
        clip_from_row(row("[]", "2024-01-02T03:04:05Z", Some(vec![1, 2, 3, 4, 5]))).unwrap_err(),
        CodecError::EmbeddingLength
    );
}

#[test]
fn rows_to_clips_stops_at_first_error() {
    let good = row("[]", "2024-01-02T03:04:05Z", None);
    let bad = row("[]", "2024-13-40T00:00:00Z", None);
    assert_eq!(rows_to_clips(vec![good.clone(), bad]).unwrap_err(), CodecError::Timestamp);
    assert_eq!(rows_to_clips(vec![good.clone(), good]).unwrap().len(), 2);
}

#[test]
fn insert_without_embedding_stores_the_fetched_one() {
    let mut c = clip("new", 1_704_164_645, None);
    c.content = "hello world".to_string();
    let fetched = vec![0.25f32.to_bits(), 0.75f32.to_bits()];
    let r = clip_to_row(c, Some(fetched.clone())).unwrap();
    assert_eq!(r.tags, "[]");
    assert_eq!(r.content, "hello world");
    assert_eq!(r.embedding, Some(encode_embedding(&fetched)));
    let back = clip_from_row(r).unwrap();
    assert_eq!(back.embedding, Some(fetched));
    assert_eq!(back.timestamp, Timestamp { secs: 1_704_164_645, nanos: 0 });
}

#[test]
fn insert_keeps_its_own_embedding() {
    let mut c = clip("own", 0, Some(vec![1.0]));
    c.tags = vec!["a".to_string(), "b c".to_string()];
    let r = clip_to_row(c, Some(vec![7])).unwrap();
    assert_eq!(r.embedding, Some(encode_embedding(&vec![1.0f32.to_bits()])));
    assert_eq!(r.tags, "[\"a\",\"b c\"]");
    assert_eq!(r.timestamp, "1970-01-01T00:00:00+00:00");
}

#[test]
fn insert_succeeds_with_representable_timestamp() {
    let c = clip("tags", -86_400, Some(vec![]));
    let r = clip_to_row(c, None).unwrap();
    assert_eq!(r.timestamp, "1969-12-31T00:00:00+00:00");
    assert_eq!(r.embedding, Some(vec![]));
}

#[test]
fn insert_escapes_tags_as_json() {
    let mut c = clip("esc", 0, Some(vec![]));
    c.tags = vec!["a\"b\\".to_string(), "\u{1}\n\u{8}\u{c}\t\r".to_string(), "é/".to_string()];
    let r = clip_to_row(c, None).unwrap();
    assert_eq!(r.tags, "[\"a\\\"b\\\\\",\"\\u0001\\n\\b\\f\\t\\r\",\"é/\"]");
    let back = clip_from_row(r).unwrap();
    assert_eq!(back.tags[0], "a\"b\\");
    assert_eq!(back.tags[1], "\u{1}\n\u{8}\u{c}\t\r");
}

#[test]
fn insert_rejects_unrepresentable_timestamp() {
    let c = clip("far", i64::MAX, None);
    assert_eq!(clip_to_row(c, Some(vec![])).unwrap_err(), CodecError::Timestamp);
}

#[test]
fn blank_texts_are_recognised() {
    assert!(is_blank(""));
    assert!(is_blank(" \t\n "));
    assert!(!is_blank("  x "));
    assert!(is_blank("\u{3000}\u{a0}\u{2028}"));
    assert!(!is_blank("\u{200b}"));
}

#[test]
fn capture_rules() {
    let last = "previous".to_string();
    assert!(should_capture(&last, &"fresh text".to_string()));
    assert!(!should_capture(&last, &"previous".to_string()));
    assert!(!should_capture(&last, &"    \n".to_string()));
    assert!(!should_capture(&last, &"abc".to_string()));
    assert!(should_capture(&last, &"abcd".to_string()));
    assert!(should_capture(&last, &"éé".to_string()));
}

#[test]
fn tags_are_inferred_in_order() {
    assert_eq!(infer_tags(&"see https://example.com".to_string()), vec!["url"]);
    assert_eq!(infer_tags(&"let x = 1; mail me@host.org".to_string()), vec!["code", "email"]);
    assert_eq!(infer_tags(&"plain words".to_string()), Vec::<String>::new());
    let long = "a".repeat(201);
    assert_eq!(infer_tags(&long), vec!["long-text"]);
    assert_eq!(infer_tags(&"a".repeat(200)), Vec::<String>::new());
}

#[test]
fn first_line_rules() {
    assert_eq!(first_line_of("one\ntwo"), "one");
    assert_eq!(first_line_of("one\r\ntwo"), "one");
    assert_eq!(first_line_of("no break"), "no break");
    assert_eq!(first_line_of(""), "");
    assert_eq!(first_line_of("\nrest"), "");
    assert_eq!(first_line_of("tail\r"), "tail\r");
}

#[test]
fn summary_of_short_text_is_its_first_line() {
    assert_eq!(summarize(&"short\nsecond".to_string()), "short");
    let fifty = "b".repeat(50);
    assert_eq!(summarize(&fifty), fifty);
}

#[test]
fn summary_of_long_text_is_cut() {
    let text = format!("{}\n{}", "a".repeat(30), "c".repeat(30));
    let expected = format!("{}\n{}...", "a".repeat(30), "c".repeat(16));
    assert_eq!(summarize(&text), expected);
}

#[test]
fn summary_cut_moves_back_to_a_character_boundary() {
    let text = format!("{}é{}", "a".repeat(46), "z".repeat(10));
    assert_eq!(summarize(&text), format!("{}...", "a".repeat(46)));
    let text = format!("{}é{}", "a".repeat(45), "z".repeat(10));
    assert_eq!(summarize(&text), format!("{}é...", "a".repeat(45)));
    let text = format!("{}😀{}", "a".repeat(44), "z".repeat(10));
    assert_eq!(summarize(&text), format!("{}...", "a".repeat(44)));
}
