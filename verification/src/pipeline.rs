//! The whole run over an in-memory input: sniff the format, decode the
//! records, aggregate them, and render both outputs.

use vstd::prelude::*;

use crate::codec::{
    fasta_parse_of, fastq_parse_of, fasta_encoding_of, fastq_encoding_of, json_encoding_of,
    is_utf8, check_utf8, parse_fasta, parse_fastq, write_fasta, write_fastq, encode_json,
};
use crate::dedup::{Deduplicator, GroupView, spec_dedup};
use crate::laws::{lemma_dedup_wf, lemma_headers_round_trip, lemma_total_at_least_groups};
use crate::record::{RawRecord, RecView, entire_header, spec_entire_header};
use crate::report::{spec_rep_id, spec_fasta_recs, spec_fastq_recs, spec_mapping, qual_or_empty};

verus! {

/// The two record grammars the sniffer can classify.
#[derive(Clone, Copy, PartialEq, Eq, Structural, Debug)]
pub enum Format {
    Fasta,
    Fastq,
}

/// Everything that can end a run early. All are terminal: nothing is retried.
#[derive(Debug)]
pub enum DedupError {
    /// The first input byte is neither `>` nor `@`; carries that byte.
    UnrecognizedFormat(u8),
    /// The codec could not decode the next record; carries its message.
    MalformedRecord(String),
    /// A record's text is not valid UTF-8.
    InvalidEncoding,
}

/// The finished artifacts of a run.
pub struct RunOutput {
    /// The representative records, serialized in the input's format.
    pub output: Vec<u8>,
    /// The duplicate-headers mapping as one JSON object.
    pub json: Vec<u8>,
    /// Number of records ingested.
    pub total: usize,
    /// Number of distinct keys, i.e. of emitted records.
    pub unique: usize,
}

/// Classification of the first byte: `>` is FASTA, `@` is FASTQ, empty input
/// defaults to FASTA, anything else is unrecognized.
pub open spec fn spec_sniff(input: Seq<u8>) -> Option<Format> {
    if input.len() == 0 {
        Some(Format::Fasta)
    } else if input[0] == 62u8 {
        Some(Format::Fasta)
    } else if input[0] == 64u8 {
        Some(Format::Fastq)
    } else {
        None
    }
}

/// What the codec decodes from the input in the given format.
pub open spec fn spec_parse(f: Format, input: Seq<u8>) -> Option<Seq<RecView>> {
    match f {
        Format::Fasta => fasta_parse_of(input),
        Format::Fastq => fastq_parse_of(input),
    }
}

/// A record whose text survives UTF-8 validation: its sequence and its
/// canonical header.
pub open spec fn spec_clean(r: RecView) -> bool {
    is_utf8(r.seq) && is_utf8(spec_entire_header(r))
}

pub open spec fn all_clean(recs: Seq<RecView>) -> bool {
    forall|i: int| 0 <= i < recs.len() ==> spec_clean(#[trigger] recs[i])
}

/// The primary output bytes for the finished groups, in the given format.
pub open spec fn spec_output_bytes(f: Format, gs: Seq<GroupView>) -> Seq<u8> {
    match f {
        Format::Fasta => fasta_encoding_of(spec_fasta_recs(gs)),
        Format::Fastq => fastq_encoding_of(spec_fastq_recs(gs)),
    }
}

/// Peek at the first byte and classify the stream.
pub fn sniff_format(input: &Vec<u8>) -> (r: Result<Format, DedupError>)
    ensures
        r is Ok ==> spec_sniff(input@) == Some(r->Ok_0),
        r is Err ==> spec_sniff(input@) is None && input@.len() > 0 && (r->Err_0 matches
            DedupError::UnrecognizedFormat(b) && b == input@[0]),
{
    if input.len() == 0 {
        return Ok(Format::Fasta);
    }
    let b = input[0];
    if b == 62 {
        Ok(Format::Fasta)
    } else if b == 64 {
        Ok(Format::Fastq)
    } else {
        Err(DedupError::UnrecognizedFormat(b))
    }
}

/// One whole run: collapse duplicate records (by sequence, or by header when
/// `by_header` is set) and render the representatives plus the JSON mapping.
///
/// Succeeds exactly when the format is recognized, every record decodes, and
/// every record's text is valid UTF-8.
pub fn compress_duplicates(input: &Vec<u8>, by_header: bool) -> (r: Result<RunOutput, DedupError>)
    ensures
        match r {
            Ok(out) => {
                &&& spec_sniff(input@) matches Some(f)
                &&& spec_parse(f, input@) matches Some(recs)
                &&& all_clean(recs)
                &&& out.total == recs.len()
                &&& out.unique <= out.total
                &&& out.unique == spec_dedup(recs, by_header).len()
                &&& out.json@ == json_encoding_of(spec_mapping(spec_dedup(recs, by_header)))
                &&& out.output@ == spec_output_bytes(f, spec_dedup(recs, by_header))
            },
            Err(e) => match e {
                DedupError::UnrecognizedFormat(b) => spec_sniff(input@) is None && input@.len()
                    > 0 && b == input@[0],
                DedupError::MalformedRecord(_) => spec_sniff(input@) matches Some(f) && spec_parse(
                    f,
                    input@,
                ) is None,
                DedupError::InvalidEncoding => spec_sniff(input@) matches Some(f) && (spec_parse(
                    f,
                    input@,
                ) matches Some(recs) && !all_clean(recs)),
            },
        },
        input@.len() == 0 ==> r is Ok && r->Ok_0.total == 0 && r->Ok_0.unique == 0
            && r->Ok_0.output@ == Seq::<u8>::empty() && r->Ok_0.json@ == seq![123u8, 125u8],
{
    let fmt = match sniff_format(input) {
        Ok(f) => f,
        Err(e) => {
            return Err(e);
        },
    };
    let parsed: Result<Vec<RawRecord>, String> = match fmt {
        Format::Fasta => parse_fasta(input),
        Format::Fastq => parse_fastq(input),
    };
    let recs: Vec<RawRecord> = match parsed {
        Ok(v) => v,
        Err(m) => {
            return Err(DedupError::MalformedRecord(m));
        },
    };
    let ghost rvs: Seq<RecView> = recs@.map_values(|x: RawRecord| x@);
    proof {
        assert(spec_parse(fmt, input@) == Some(rvs));
    }
    let mut engine = Deduplicator::new(by_header);
    let n = recs.len();
    let mut i: usize = 0;
    while i < n
        invariant
            i <= n,
            n == recs.len(),
            rvs == recs@.map_values(|x: RawRecord| x@),
            spec_sniff(input@) == Some(fmt),
            spec_parse(fmt, input@) == Some(rvs),
            input@.len() == 0 ==> rvs.len() == 0,
            engine.by_header == by_header,
            engine.wf(),
            engine.total == i,
            engine@ == spec_dedup(rvs.take(i as int), by_header),
            forall|k: int| 0 <= k < i ==> spec_clean(#[trigger] rvs[k]),
        decreases n - i,
    {
        let rec = &recs[i];
        proof {
            assert(rvs[i as int] == rec@);
        }
        let header = entire_header(rec);
        let seq_ok = check_utf8(&rec.seq);
        let hdr_ok = check_utf8(&header);
        if !seq_ok || !hdr_ok {
            proof {
                assert(!spec_clean(rvs[i as int]));
            }
            return Err(DedupError::InvalidEncoding);
        }
        engine.ingest(rec);
        proof {
            assert(rvs.take(i as int + 1).drop_last() =~= rvs.take(i as int));
            assert(rvs.take(i as int + 1).last() == rvs[i as int]);
        }
        i += 1;
    }
    proof {
        assert(rvs.take(n as int) =~= rvs);
    }
    let ghost gs = spec_dedup(rvs, by_header);
    proof {
        lemma_dedup_wf(rvs, by_header);
        lemma_headers_round_trip(rvs, by_header);
        lemma_total_at_least_groups(gs);
        assert forall|g: int, t: int|
            0 <= g < gs.len() && 0 <= t < gs[g].headers.len() implies is_utf8(
            #[trigger] gs[g].headers[t],
        ) by {
            let w = choose|w: int|
                0 <= w < rvs.len() && gs[g].headers[t] == spec_entire_header(rvs[w]);
            assert(spec_clean(rvs[w]));
        }
        assert forall|g: int| 0 <= g < gs.len() implies is_utf8(spec_rep_id(#[trigger] gs[g])) by {
            assert(gs[g].headers.len() >= 1);
            assert(spec_rep_id(gs[g]) == gs[g].headers[gs[g].headers.len() - 1]);
        }
    }
    let mapping = engine.emit_mapping();
    proof {
        let f = |p: (Vec<u8>, Vec<Vec<u8>>)| (p.0@, p.1@.map_values(|h: Vec<u8>| h@));
        assert(mapping@.map_values(f) == spec_mapping(gs));
        assert forall|k: int| 0 <= k < mapping@.len() implies is_utf8(
            #[trigger] mapping@[k].0@,
        ) by {
            assert(mapping@.map_values(f)[k] == f(mapping@[k]));
            assert(spec_mapping(gs)[k] == (spec_rep_id(gs[k]), gs[k].headers));
        }
        assert forall|k: int, j: int|
            0 <= k < mapping@.len() && 0 <= j < mapping@[k].1@.len() implies is_utf8(
            #[trigger] mapping@[k].1@[j]@,
        ) by {
            assert(mapping@.map_values(f)[k] == f(mapping@[k]));
            assert(spec_mapping(gs)[k] == (spec_rep_id(gs[k]), gs[k].headers));
            assert(mapping@[k].1@.map_values(|h: Vec<u8>| h@)[j] == mapping@[k].1@[j]@);
        }
    }
    let json = encode_json(&mapping);
    let unique = engine.unique();
    let total = engine.total;
    let output: Vec<u8> = match fmt {
        Format::Fasta => {
            let tuples = engine.emit_fasta();
            proof {
                let f2 = |p: (Vec<u8>, Vec<u8>)| (p.0@, p.1@);
                assert(tuples@.map_values(f2) == spec_fasta_recs(gs));
                assert forall|k: int| 0 <= k < tuples@.len() implies is_utf8(
                    #[trigger] tuples@[k].0@,
                ) by {
                    assert(tuples@.map_values(f2)[k] == f2(tuples@[k]));
                    assert(spec_fasta_recs(gs)[k] == (spec_rep_id(gs[k]), gs[k].seq));
                }
            }
            write_fasta(&tuples)
        },
        Format::Fastq => {
            let tuples = engine.emit_fastq();
            proof {
                let f3 = |p: (Vec<u8>, Vec<u8>, Vec<u8>)| (p.0@, p.1@, p.2@);
                assert(tuples@.map_values(f3) == spec_fastq_recs(gs));
                assert forall|k: int| 0 <= k < tuples@.len() implies is_utf8(
                    #[trigger] tuples@[k].0@,
                ) by {
                    assert(tuples@.map_values(f3)[k] == f3(tuples@[k]));
                    assert(spec_fastq_recs(gs)[k] == (
                        spec_rep_id(gs[k]),
                        gs[k].seq,
                        qual_or_empty(gs[k]),
                    ));
                }
            }
            write_fastq(&tuples)
        },
    };
    Ok(RunOutput { output, json, total, unique })
}

} // verus!

