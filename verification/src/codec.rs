//! The record codec, treated as a black box: parsing bytes into records,
//! serializing records back to bytes, and rendering the JSON mapping.
//!
//! Each outside call sits behind a trusted wrapper whose contract names the
//! call's result; everything downstream of these names is verified.

use vstd::prelude::*;

use crate::record::{RawRecord, RecView};

verus! {

/// What bio's FASTA reader decodes from the given bytes: the record list, or
/// nothing when some record cannot be decoded.
pub uninterp spec fn fasta_parse_of(input: Seq<u8>) -> Option<Seq<RecView>>;

/// What bio's FASTQ reader decodes from the given bytes.
pub uninterp spec fn fastq_parse_of(input: Seq<u8>) -> Option<Seq<RecView>>;

/// The bytes bio's FASTA writer produces for `(header, sequence)` records.
pub uninterp spec fn fasta_encoding_of(recs: Seq<(Seq<u8>, Seq<u8>)>) -> Seq<u8>;

/// The bytes bio's FASTQ writer produces for `(header, sequence, quality)`
/// records.
pub uninterp spec fn fastq_encoding_of(recs: Seq<(Seq<u8>, Seq<u8>, Seq<u8>)>) -> Seq<u8>;

/// The bytes serde_json produces for the mapping, one JSON object whose keys
/// are the first components and whose values are arrays of the second.
pub uninterp spec fn json_encoding_of(pairs: Seq<(Seq<u8>, Seq<Seq<u8>>)>) -> Seq<u8>;

/// Whether a byte string is valid UTF-8.
pub uninterp spec fn is_utf8(bytes: Seq<u8>) -> bool;

/// Relies on str::from_utf8, which succeeds exactly on valid UTF-8.
#[verifier::external_body]
pub(crate) fn check_utf8(bytes: &Vec<u8>) -> (r: bool)
    ensures
        r == is_utf8(bytes@),
{
    core::str::from_utf8(bytes).is_ok()
}

/// Relies on bio::io::fasta::Reader: decodes the FASTA records held in the
/// bytes; the outcome depends on the bytes alone, and empty input decodes to
/// no records.
#[verifier::external_body]
pub(crate) fn parse_fasta(input: &Vec<u8>) -> (r: Result<Vec<RawRecord>, String>)
    ensures
        r is Ok <==> fasta_parse_of(input@) is Some,
        r is Ok ==> Some(r->Ok_0@.map_values(|x: RawRecord| x@)) == fasta_parse_of(input@),
        input@.len() == 0 ==> r is Ok && r->Ok_0@.len() == 0,
{
    let mut out: Vec<RawRecord> = Vec::new();
    for item in bio::io::fasta::Reader::new(&input[..]).records() {
        match item {
            Ok(rec) => out.push(RawRecord {
                id: rec.id().as_bytes().to_vec(),
                desc: rec.desc().map(|d| d.as_bytes().to_vec()),
                seq: rec.seq().to_vec(),
                qual: None,
            }),
            Err(e) => return Err(e.to_string()),
        }
    }
    Ok(out)
}

/// Relies on bio::io::fastq::Reader: decodes the FASTQ records held in the
/// bytes; the outcome depends on the bytes alone, and empty input decodes to
/// no records.
#[verifier::external_body]
pub(crate) fn parse_fastq(input: &Vec<u8>) -> (r: Result<Vec<RawRecord>, String>)
    ensures
        r is Ok <==> fastq_parse_of(input@) is Some,
        r is Ok ==> Some(r->Ok_0@.map_values(|x: RawRecord| x@)) == fastq_parse_of(input@),
        input@.len() == 0 ==> r is Ok && r->Ok_0@.len() == 0,
{
    let mut out: Vec<RawRecord> = Vec::new();
    for item in bio::io::fastq::Reader::new(&input[..]).records() {
        match item {
            Ok(rec) => out.push(RawRecord {
                id: rec.id().as_bytes().to_vec(),
                desc: rec.desc().map(|d| d.as_bytes().to_vec()),
                seq: rec.seq().to_vec(),
                qual: Some(rec.qual().to_vec()),
            }),
            Err(e) => return Err(e.to_string()),
        }
    }
    Ok(out)
}

/// Relies on bio::io::fasta::Writer: one `>` header line then one sequence
/// line per record, into an in-memory buffer (such writes do not fail); the
/// bytes depend on the records alone, and no records produce no bytes.
#[verifier::external_body]
pub(crate) fn write_fasta(recs: &Vec<(Vec<u8>, Vec<u8>)>) -> (r: Vec<u8>)
    requires
        forall|i: int| 0 <= i < recs@.len() ==> is_utf8(recs@[i].0@),
    ensures
        r@ == fasta_encoding_of(recs@.map_values(|p: (Vec<u8>, Vec<u8>)| (p.0@, p.1@))),
        recs@.len() == 0 ==> r@ == Seq::<u8>::empty(),
{
    let mut buf: Vec<u8> = Vec::new();
    let mut w = bio::io::fasta::Writer::new(&mut buf);
    for (id, sq) in recs.iter() {
        let id_str = core::str::from_utf8(id).expect("header is UTF-8");
        w.write(id_str, None, sq).expect("buffer write");
    }
    w.flush().expect("buffer write");
    drop(w);
    buf
}

/// Relies on bio::io::fastq::Writer: the four-line record with the quality
/// bytes unmodified, into an in-memory buffer (such writes do not fail); the
/// bytes depend on the records alone, and no records produce no bytes.
#[verifier::external_body]
pub(crate) fn write_fastq(recs: &Vec<(Vec<u8>, Vec<u8>, Vec<u8>)>) -> (r: Vec<u8>)
    requires
        forall|i: int| 0 <= i < recs@.len() ==> is_utf8(recs@[i].0@),
    ensures
        r@ == fastq_encoding_of(
            recs@.map_values(|p: (Vec<u8>, Vec<u8>, Vec<u8>)| (p.0@, p.1@, p.2@)),
        ),
        recs@.len() == 0 ==> r@ == Seq::<u8>::empty(),
{
    let mut buf: Vec<u8> = Vec::new();
    let mut w = bio::io::fastq::Writer::new(&mut buf);
    for (id, sq, ql) in recs.iter() {
        let id_str = core::str::from_utf8(id).expect("header is UTF-8");
        w.write(id_str, None, sq, ql).expect("buffer write");
    }
    w.flush().expect("buffer write");
    drop(w);
    buf
}

/// Relies on serde_json: renders the pairs as one JSON object (later equal
/// keys overwrite earlier ones, and serde_json orders keys itself); the bytes
/// depend on the pairs alone, and no pairs render as `{}`.
#[verifier::external_body]
pub(crate) fn encode_json(pairs: &Vec<(Vec<u8>, Vec<Vec<u8>>)>) -> (r: Vec<u8>)
    requires
        forall|i: int| 0 <= i < pairs@.len() ==> is_utf8(pairs@[i].0@),
        forall|i: int, j: int|
            0 <= i < pairs@.len() && 0 <= j < pairs@[i].1@.len() ==> is_utf8(pairs@[i].1@[j]@),
    ensures
        r@ == json_encoding_of(
            pairs@.map_values(
                |p: (Vec<u8>, Vec<Vec<u8>>)| (p.0@, p.1@.map_values(|h: Vec<u8>| h@)),
            ),
        ),
        pairs@.len() == 0 ==> r@ == seq![123u8, 125u8],
{
    let mut obj = serde_json::Map::new();
    for (key, headers) in pairs.iter() {
        let vals: Vec<serde_json::Value> = headers
            .iter()
            .map(|h| serde_json::Value::String(String::from_utf8(h.clone()).expect("UTF-8")))
            .collect();
        obj.insert(
            String::from_utf8(key.clone()).expect("UTF-8"),
            serde_json::Value::Array(vals),
        );
    }
    serde_json::Value::Object(obj).to_string().into_bytes()
}

} // verus!
