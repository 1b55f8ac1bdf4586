//! Deduplication of FASTA/FASTQ sequence records.
//!
//! Records that share a dedup key (the sequence text by default, or the whole
//! header in header mode) are collapsed into one representative record. The
//! library emits the representatives in the input's format together with a
//! JSON mapping from each representative's header to the ordered list of all
//! original headers that collapsed into it.

pub mod codec;
pub mod dedup;
pub mod laws;
pub mod pipeline;
pub mod record;
pub mod report;
