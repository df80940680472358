use jsonl_compactor::compactor::blob_reference;
use jsonl_compactor::compactor::compact_chunk;
use jsonl_compactor::compactor::compact_row;
use jsonl_compactor::compactor::exceeds_missing_threshold;
use jsonl_compactor::compactor::finish_chunk;
use jsonl_compactor::compactor::finish_row;
use jsonl_compactor::compactor::process_row;
use jsonl_compactor::compactor::BlobFetch;
use jsonl_compactor::compactor::BlobReference;
use jsonl_compactor::compactor::RowError;
use jsonl_compactor::compactor::RowOutcome;
use jsonl_compactor::compactor::RunError;
use jsonl_compactor::container::compress_row;
use jsonl_compactor::container::gunzip;
use jsonl_compactor::container::Container;
use jsonl_compactor::encoding::DecodingError;
use jsonl_compactor::json::JsonValue;
use jsonl_compactor::json::Row;
use std::io::Write;

fn gz(content: &[u8]) -> Vec<u8> {
    let mut encoder = flate2::write::GzEncoder::new(Vec::new(), flate2::Compression::fast());
    encoder.write_all(content).unwrap();
    encoder.finish().unwrap()
}

fn row(blob_id: &str, src_encoding: &str) -> Row {
    let mut row = Row::new();
    row.insert("blob_id".to_string(), JsonValue::String(blob_id.to_string()));
    row.insert("path".to_string(), JsonValue::String("src/main.rs".to_string()));
    row.insert("src_encoding".to_string(), JsonValue::String(src_encoding.to_string()));
    row
}

fn ok_outcome(n: usize) -> RowOutcome {
    RowOutcome::Compressed(compress_row(format!("{{\"n\":{}}}\n", n).as_bytes(), Container::Gzip).unwrap())
}

#[test]
fn one_missing_row_in_four_is_too_many() {
    let outcomes = vec![ok_outcome(0), ok_outcome(1), ok_outcome(2), RowOutcome::MissingBlob];
    assert_eq!(
        finish_chunk(&outcomes, Container::Gzip),
        Err(RunError::TooManyMissing { missing_count: 1, chunk_size: 4 })
    );
    assert_eq!(
        finish_chunk(&outcomes, Container::Zstd),
        Err(RunError::TooManyMissing { missing_count: 1, chunk_size: 4 })
    );
}

#[test]
fn one_missing_row_in_a_hundred_is_borne() {
    let mut outcomes: Vec<RowOutcome> = (0..100).map(ok_outcome).collect();
    outcomes[40] = RowOutcome::MissingBlob;
    let artifact = finish_chunk(&outcomes, Container::Gzip).unwrap();
    let mut expected = String::new();
    for n in 0..100 {
        if n != 40 {
            expected.push_str(&format!("{{\"n\":{}}}\n", n));
        }
    }
    assert_eq!(gunzip(&artifact), Some(expected.into_bytes()));
    outcomes.pop();
    assert_eq!(
        finish_chunk(&outcomes, Container::Gzip),
        Err(RunError::TooManyMissing { missing_count: 1, chunk_size: 99 })
    );
}

#[test]
fn the_threshold_is_one_in_a_hundred() {
    assert!(!exceeds_missing_threshold(0, 0));
    assert!(!exceeds_missing_threshold(0, 1));
    assert!(exceeds_missing_threshold(1, 1));
    assert!(exceeds_missing_threshold(1, 4));
    assert!(exceeds_missing_threshold(1, 99));
    assert!(!exceeds_missing_threshold(1, 100));
    assert!(!exceeds_missing_threshold(163, 16_384));
    assert!(exceeds_missing_threshold(164, 16_384));
    assert!(!exceeds_missing_threshold(usize::MAX / 100, usize::MAX));
    assert!(exceeds_missing_threshold(usize::MAX / 100 + 1, usize::MAX));
    assert!(exceeds_missing_threshold(usize::MAX, usize::MAX));
    for size in 1usize..400 {
        for missing in 0..=size.min(8) {
            let ratio = missing as f64 / size as f64;
            assert_eq!(exceeds_missing_threshold(missing, size), ratio > 0.01);
        }
    }
}

#[test]
fn a_fatal_row_ends_the_chunk_before_the_count() {
    let outcomes = vec![
        RowOutcome::MissingBlob,
        RowOutcome::Fatal(RowError::CorruptBlob),
        RowOutcome::Fatal(RowError::MalformedRecord),
    ];
    assert_eq!(finish_chunk(&outcomes, Container::Gzip), Err(RunError::Fatal(RowError::CorruptBlob)));
    let decoding = RowError::Decoding(DecodingError::DecodingFailed("UTF-8".to_string()));
    let outcomes = vec![ok_outcome(0), RowOutcome::Fatal(decoding.clone())];
    assert_eq!(finish_chunk(&outcomes, Container::Zstd), Err(RunError::Fatal(decoding)));
}

#[test]
fn an_empty_chunk_gives_an_empty_artifact() {
    assert_eq!(gunzip(&finish_chunk(&Vec::new(), Container::Gzip).unwrap()), Some(Vec::new()));
    assert_eq!(finish_chunk(&Vec::new(), Container::Zstd), Ok(Vec::new()));
}

#[test]
fn a_row_names_its_blob() {
    assert_eq!(
        blob_reference(&row("0a1b", "UTF-8")),
        Some(BlobReference { blob_id: "0a1b".to_string(), src_encoding: "UTF-8".to_string() })
    );
    assert_eq!(blob_reference(&Row::new()), None);
    let mut no_encoding = Row::new();
    no_encoding.insert("blob_id".to_string(), JsonValue::String("x".to_string()));
    assert_eq!(blob_reference(&no_encoding), None);
    let mut null_id = row("x", "UTF-8");
    null_id.insert("blob_id".to_string(), JsonValue::Null);
    assert_eq!(blob_reference(&null_id), None);
    let mut number = row("x", "UTF-8");
    number.insert("src_encoding".to_string(), JsonValue::Number(1));
    assert_eq!(blob_reference(&number), None);
}

#[test]
fn a_row_takes_the_decoded_text_of_its_blob() {
    let blob = BlobFetch::Found(gz(&[0x63, 0x61, 0x66, 0xe9]));
    let full = process_row(&row("id0", "ISO-8859-1"), &blob).unwrap();
    assert_eq!(
        full.to_json_line(),
        "{\"blob_id\":\"id0\",\"path\":\"src/main.rs\",\"src_encoding\":\"ISO-8859-1\",\"contents\":\"caf\u{e9}\"}\n"
    );
    let mut had_contents = row("id0", "UTF-8");
    had_contents.insert("contents".to_string(), JsonValue::Null);
    had_contents.insert("after".to_string(), JsonValue::Bool(true));
    let full = process_row(&had_contents, &BlobFetch::Found(gz(b"new"))).unwrap();
    assert_eq!(
        full.to_json_line(),
        "{\"blob_id\":\"id0\",\"path\":\"src/main.rs\",\"src_encoding\":\"UTF-8\",\"contents\":\"new\",\"after\":true}\n"
    );
}

#[test]
fn rows_fail_each_in_their_way() {
    let good = BlobFetch::Found(gz(b"text"));
    assert_eq!(process_row(&row("a", "UTF-8"), &BlobFetch::Missing), Err(RowError::MissingBlob));
    assert_eq!(process_row(&row("a", "UTF-8"), &BlobFetch::Failed), Err(RowError::BlobUnreadable));
    assert_eq!(
        process_row(&row("a", "UTF-8"), &BlobFetch::Found(b"plain".to_vec())),
        Err(RowError::CorruptBlob)
    );
    assert_eq!(process_row(&Row::new(), &good), Err(RowError::MalformedRecord));
    assert_eq!(process_row(&Row::new(), &BlobFetch::Missing), Err(RowError::MalformedRecord));
    assert_eq!(
        process_row(&row("a", "FOO"), &good),
        Err(RowError::Decoding(DecodingError::UnsupportedEncoding("FOO".to_string())))
    );
    assert_eq!(
        process_row(&row("a", "UTF-8"), &BlobFetch::Found(gz(&[0x61, 0xff]))),
        Err(RowError::Decoding(DecodingError::DecodingFailed("UTF-8".to_string())))
    );
}

#[test]
fn outcomes_sort_missing_from_fatal() {
    assert_eq!(compact_row(&row("a", "UTF-8"), &BlobFetch::Missing, Container::Gzip), RowOutcome::MissingBlob);
    assert_eq!(
        compact_row(&row("a", "UTF-8"), &BlobFetch::Failed, Container::Gzip),
        RowOutcome::Fatal(RowError::BlobUnreadable)
    );
    assert_eq!(finish_row(Err(RowError::MissingBlob), Container::Zstd), RowOutcome::MissingBlob);
    assert_eq!(
        finish_row(Err(RowError::CorruptBlob), Container::Zstd),
        RowOutcome::Fatal(RowError::CorruptBlob)
    );
    let full = process_row(&row("a", "UTF-8"), &BlobFetch::Found(gz(b"x"))).unwrap();
    let line = full.to_json_line();
    assert_eq!(
        finish_row(Ok(full), Container::Zstd),
        RowOutcome::Compressed(compress_row(line.as_bytes(), Container::Zstd).unwrap())
    );
}

#[test]
fn a_chunk_is_worked_through_row_after_row() {
    let rows = vec![row("a", "UTF-8"), row("b", "KOI8-R"), row("c", "ibm866")];
    let blobs = vec![
        BlobFetch::Found(gz("caf\u{e9}".as_bytes())),
        BlobFetch::Found(gz(&[0xf0, 0xf2])),
        BlobFetch::Found(gz(&[0x80, 0x0a])),
    ];
    let expected = concat_lines(&[("a", "UTF-8", "caf\u{e9}"), ("b", "KOI8-R", "\u{41f}\u{420}"), ("c", "ibm866", "\u{410}\\n")]);
    let artifact = compact_chunk(&rows, &blobs, Container::Gzip).unwrap();
    assert_eq!(gunzip(&artifact), Some(expected.clone().into_bytes()));
    let artifact = compact_chunk(&rows, &blobs, Container::Zstd).unwrap();
    assert_eq!(zstd::stream::decode_all(&artifact[..]).unwrap(), expected.into_bytes());
}

fn concat_lines(rows: &[(&str, &str, &str)]) -> String {
    let mut all = String::new();
    for (id, encoding, contents) in rows {
        all.push_str(&format!(
            "{{\"blob_id\":\"{}\",\"path\":\"src/main.rs\",\"src_encoding\":\"{}\",\"contents\":\"{}\"}}\n",
            id, encoding, contents
        ));
    }
    all
}

#[test]
fn a_chunk_stops_at_its_first_fatal_row() {
    let rows = vec![row("a", "UTF-8"), row("b", "FOO"), row("c", "UTF-8")];
    let blobs = vec![BlobFetch::Missing, BlobFetch::Found(gz(b"x")), BlobFetch::Failed];
    assert_eq!(
        compact_chunk(&rows, &blobs, Container::Gzip),
        Err(RunError::Fatal(RowError::Decoding(DecodingError::UnsupportedEncoding("FOO".to_string()))))
    );
}

#[test]
fn a_chunk_with_a_missing_blob_among_few_rows_fails() {
    let rows = vec![row("a", "UTF-8"), row("b", "UTF-8"), row("c", "UTF-8"), row("d", "UTF-8")];
    let blobs = vec![
        BlobFetch::Found(gz(b"1")),
        BlobFetch::Found(gz(b"2")),
        BlobFetch::Found(gz(b"3")),
        BlobFetch::Missing,
    ];
    assert_eq!(
        compact_chunk(&rows, &blobs, Container::Gzip),
        Err(RunError::TooManyMissing { missing_count: 1, chunk_size: 4 })
    );
}

#[test]
fn parsed_lines_hold_the_contents() {
    let rows = vec![row("q", "WINDOWS-1251")];
    let blobs = vec![BlobFetch::Found(gz(&[0x22, 0xcf, 0x5c, 0x0a]))];
    let artifact = compact_chunk(&rows, &blobs, Container::Gzip).unwrap();
    let text = String::from_utf8(gunzip(&artifact).unwrap()).unwrap();
    assert!(text.ends_with('\n'));
    assert_eq!(text.matches('\n').count(), 1);
    let parsed: serde_json::Value = serde_json::from_str(&text).unwrap();
    assert_eq!(parsed.get("contents").unwrap().as_str(), Some("\"\u{41f}\\\n"));
    assert_eq!(parsed.get("blob_id").unwrap().as_str(), Some("q"));
}
