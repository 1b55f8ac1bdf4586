use seqdupes::pipeline::{compress_duplicates, DedupError};

fn run(input: &str, by_header: bool) -> seqdupes::pipeline::RunOutput {
    compress_duplicates(&input.as_bytes().to_vec(), by_header).unwrap()
}

fn json_object(bytes: &[u8]) -> serde_json::Map<String, serde_json::Value> {
    let v: serde_json::Value = serde_json::from_slice(bytes).unwrap();
    v.as_object().unwrap().clone()
}

const SIMPLE_FASTA: &str = "\
>s1 first\n\
ACGT\n\
>s2 second\n\
GGGG\n\
>s3 third\n\
ACGT\n\
>s4 fourth\n\
TTTT\n";

#[test]
fn test_basic_dedup() {
    let out = run(SIMPLE_FASTA, false);
    assert!(String::from_utf8(out.output.clone()).unwrap().contains('>'));
    let json = json_object(&out.json);
    assert_eq!(json.len(), 3);
}

#[test]
fn test_by_header_flag() {
    // Three records, two sharing a header: header mode sees two groups.
    let input = "\
>dup same header\n\
ACGT\n\
>other one\n\
GGGG\n\
>dup same header\n\
TTTT\n";
    let out = run(input, true);
    assert!(String::from_utf8(out.output.clone()).unwrap().contains('>'));
    let json = json_object(&out.json);
    assert_eq!(json.len(), 2);
}

#[test]
fn test_empty_file() {
    let out = run("", false);
    assert!(out.output.is_empty());
    assert_eq!(out.json, b"{}".to_vec());
    assert_eq!(out.total, 0);
    assert_eq!(out.unique, 0);
}

#[test]
fn test_all_duplicates() {
    // All three sequences are the same, so only one unique remains.
    let input = "\
>a\n\
ACGT\n\
>b\n\
ACGT\n\
>c\n\
ACGT\n";
    let out = run(input, false);
    let json = json_object(&out.json);
    assert_eq!(json.len(), 1);
}

#[test]
fn test_fastq_input() {
    let out = run(SIMPLE_FASTQ, false);
    assert!(String::from_utf8(out.output.clone()).unwrap().contains('@'));
    let json = json_object(&out.json);
    assert_eq!(json.len(), 2);
}

#[test]
fn test_stderr_stats() {
    let out = run(SIMPLE_FASTA, false);
    let line = format!(
        "Processed {} sequences: {} unique, {} duplicates removed",
        out.total,
        out.unique,
        out.total - out.unique
    );
    assert_eq!(line, "Processed 4 sequences: 3 unique, 1 duplicates removed");
}

#[test]
fn counts_partition_the_input() {
    // total is the sum of the header-list lengths; unique is the group count.
    let out = run(SIMPLE_FASTA, false);
    let json = json_object(&out.json);
    let header_sum: usize = json.values().map(|v| v.as_array().unwrap().len()).sum();
    assert_eq!(out.total, 4);
    assert_eq!(header_sum, out.total);
    assert_eq!(json.len(), out.unique);
}

#[test]
fn dedup_is_idempotent_on_its_output() {
    let first = run(SIMPLE_FASTA, false);
    let second = compress_duplicates(&first.output, false).unwrap();
    assert_eq!(second.total, first.unique);
    assert_eq!(second.unique, second.total);
}

#[test]
fn reported_headers_come_from_the_input() {
    let out = run(SIMPLE_FASTA, false);
    let json = json_object(&out.json);
    let expected = ["s1 first", "s2 second", "s3 third", "s4 fourth"];
    for headers in json.values() {
        for h in headers.as_array().unwrap() {
            assert!(expected.contains(&h.as_str().unwrap()));
        }
    }
}

#[test]
fn four_records_one_shared_sequence() {
    // Records 1 and 3 share ACGT: three groups remain, one with two headers.
    let out = run(SIMPLE_FASTA, false);
    assert_eq!(out.total, 4);
    assert_eq!(out.unique, 3);
    let json = json_object(&out.json);
    assert_eq!(json.len(), 3);
    let dupes = json.get("s3 third").unwrap().as_array().unwrap();
    assert_eq!(dupes.len(), 2);
    assert_eq!(dupes[0].as_str().unwrap(), "s1 first");
    assert_eq!(dupes[1].as_str().unwrap(), "s3 third");
    // Groups appear in first-encounter order; the representative header is
    // the last one seen, the payload the first.
    let text = String::from_utf8(out.output).unwrap();
    assert_eq!(text, ">s3 third\nACGT\n>s2 second\nGGGG\n>s4 fourth\nTTTT\n");
}

#[test]
fn exact_json_rendering() {
    let out = run(SIMPLE_FASTA, false);
    let text = String::from_utf8(out.json).unwrap();
    assert_eq!(
        text,
        "{\"s2 second\":[\"s2 second\"],\"s3 third\":[\"s1 first\",\"s3 third\"],\"s4 fourth\":[\"s4 fourth\"]}"
    );
}

#[test]
fn header_mode_keeps_first_sequence() {
    // Two records with the same header but different sequences: one group,
    // two headers, and the emitted sequence is the first of the two.
    let input = "\
>name here\n\
ACGT\n\
>name here\n\
GGGG\n";
    let out = run(input, true);
    assert_eq!(out.total, 2);
    assert_eq!(out.unique, 1);
    let json = json_object(&out.json);
    assert_eq!(json.len(), 1);
    let headers = json.get("name here").unwrap().as_array().unwrap();
    assert_eq!(headers.len(), 2);
    let text = String::from_utf8(out.output).unwrap();
    assert_eq!(text, ">name here\nACGT\n");
}

#[test]
fn unrecognized_first_byte_fails() {
    let r = compress_duplicates(&b"X not a record".to_vec(), false);
    assert!(matches!(r, Err(DedupError::UnrecognizedFormat(b'X'))));
}

#[test]
fn malformed_fastq_record_fails() {
    // A FASTQ record missing its quality lines cannot be decoded.
    let r = compress_duplicates(&b"@read1\nACGT\n".to_vec(), false);
    assert!(matches!(r, Err(DedupError::MalformedRecord(_))));
}

#[test]
fn malformed_fasta_bytes_fail() {
    // A header line holding invalid UTF-8 cannot be decoded.
    let mut input: Vec<u8> = b">ok\nACGT\n>bad ".to_vec();
    input.extend_from_slice(&[0xFF, 0xFE]);
    input.extend_from_slice(b"\nACGT\n");
    let r = compress_duplicates(&input, false);
    assert!(matches!(r, Err(DedupError::MalformedRecord(_))));
}

const SIMPLE_FASTQ: &str = "\
@r1 one\n\
ACGT\n\
+\n\
IIII\n\
@r2 two\n\
GGGG\n\
+\n\
JJJJ\n\
@r3 three\n\
ACGT\n\
+\n\
KKKK\n";

#[test]
fn fastq_three_records_two_shared() {
    // Two of three FASTQ records share a sequence: two four-line records
    // remain, and the shared group keeps the first duplicate's quality.
    let out = run(SIMPLE_FASTQ, false);
    assert_eq!(out.total, 3);
    assert_eq!(out.unique, 2);
    let text = String::from_utf8(out.output).unwrap();
    let lines: Vec<&str> = text.lines().collect();
    assert_eq!(lines.len(), 8);
    assert_eq!(text, "@r3 three\nACGT\n+\nIIII\n@r2 two\nGGGG\n+\nJJJJ\n");
}

#[test]
fn description_joins_and_trims() {
    // A record with no description keeps a bare identifier as its header.
    let input = ">solo\nAAAA\n";
    let out = run(input, false);
    let json = json_object(&out.json);
    assert_eq!(json.len(), 1);
    let headers = json.get("solo").unwrap().as_array().unwrap();
    assert_eq!(headers[0].as_str().unwrap(), "solo");
}
