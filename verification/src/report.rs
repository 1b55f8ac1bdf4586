//! The report builder: turns the finished aggregation into the ordered
//! representative records for the writer and the duplicate-headers mapping.
//!
//! Each group's representative identifier is the header of the *last* record
//! encountered for its key, while the payload (sequence, quality) is the one
//! installed by the *first* record with that key.

use vstd::prelude::*;

use crate::dedup::{Deduplicator, GroupView};
use crate::record::clone_bytes;

verus! {

/// The representative identifier of a group: the last header recorded.
pub open spec fn spec_rep_id(g: GroupView) -> Seq<u8> {
    g.headers.last()
}

/// A group's quality payload, or the empty string when it has none.
pub open spec fn qual_or_empty(g: GroupView) -> Seq<u8> {
    match g.qual {
        Some(q) => q,
        None => Seq::empty(),
    }
}

/// The FASTA writer input: one `(representative header, sequence)` pair per
/// group, in group order.
pub open spec fn spec_fasta_recs(gs: Seq<GroupView>) -> Seq<(Seq<u8>, Seq<u8>)> {
    gs.map_values(|g: GroupView| (spec_rep_id(g), g.seq))
}

/// The FASTQ writer input: one `(representative header, sequence, quality)`
/// triple per group, in group order.
pub open spec fn spec_fastq_recs(gs: Seq<GroupView>) -> Seq<(Seq<u8>, Seq<u8>, Seq<u8>)> {
    gs.map_values(|g: GroupView| (spec_rep_id(g), g.seq, qual_or_empty(g)))
}

/// The duplicate-headers mapping: each group's representative identifier
/// paired with the group's full header list, in encounter order.
pub open spec fn spec_mapping(gs: Seq<GroupView>) -> Seq<(Seq<u8>, Seq<Seq<u8>>)> {
    gs.map_values(|g: GroupView| (spec_rep_id(g), g.headers))
}

/// Every group holds at least one header (true of every finished
/// aggregation), so a representative can be chosen.
pub open spec fn headers_nonempty(gs: Seq<GroupView>) -> bool {
    forall|i: int| 0 <= i < gs.len() ==> #[trigger] gs[i].headers.len() >= 1
}

impl Deduplicator {
    /// The representative records in FASTA shape.
    pub fn emit_fasta(&self) -> (r: Vec<(Vec<u8>, Vec<u8>)>)
        requires
            headers_nonempty(self@),
        ensures
            r@.map_values(|p: (Vec<u8>, Vec<u8>)| (p.0@, p.1@)) == spec_fasta_recs(self@),
    {
        let mut out: Vec<(Vec<u8>, Vec<u8>)> = Vec::new();
        let mut i: usize = 0;
        while i < self.groups.len()
            invariant
                i <= self.groups.len(),
                headers_nonempty(self@),
                out@.len() == i,
                forall|k: int|
                    0 <= k < i ==> #[trigger] out@[k].0@ == spec_rep_id(self@[k]) && out@[k].1@
                        == self@[k].seq,
            decreases self.groups.len() - i,
        {
            let g = &self.groups[i];
            proof {
                assert(self@[i as int] == g@);
                assert(self@[i as int].headers.len() >= 1);
            }
            let hlen = g.headers.len();
            let rep = clone_bytes(&g.headers[hlen - 1]);
            let sq = clone_bytes(&g.seq);
            out.push((rep, sq));
            i += 1;
        }
        proof {
            assert(out@.map_values(|p: (Vec<u8>, Vec<u8>)| (p.0@, p.1@)) =~= spec_fasta_recs(
                self@,
            ));
        }
        out
    }

    /// The representative records in FASTQ shape.
    pub fn emit_fastq(&self) -> (r: Vec<(Vec<u8>, Vec<u8>, Vec<u8>)>)
        requires
            headers_nonempty(self@),
        ensures
            r@.map_values(|p: (Vec<u8>, Vec<u8>, Vec<u8>)| (p.0@, p.1@, p.2@)) == spec_fastq_recs(
                self@,
            ),
    {
        let mut out: Vec<(Vec<u8>, Vec<u8>, Vec<u8>)> = Vec::new();
        let mut i: usize = 0;
        while i < self.groups.len()
            invariant
                i <= self.groups.len(),
                headers_nonempty(self@),
                out@.len() == i,
                forall|k: int|
                    0 <= k < i ==> #[trigger] out@[k].0@ == spec_rep_id(self@[k]) && out@[k].1@
                        == self@[k].seq && out@[k].2@ == qual_or_empty(self@[k]),
            decreases self.groups.len() - i,
        {
            let g = &self.groups[i];
            proof {
                assert(self@[i as int] == g@);
                assert(self@[i as int].headers.len() >= 1);
            }
            let hlen = g.headers.len();
            let rep = clone_bytes(&g.headers[hlen - 1]);
            let sq = clone_bytes(&g.seq);
            let ql: Vec<u8> = match &g.qual {
                Some(q) => clone_bytes(q),
                None => Vec::new(),
            };
            out.push((rep, sq, ql));
            i += 1;
        }
        proof {
            assert(out@.map_values(|p: (Vec<u8>, Vec<u8>, Vec<u8>)| (p.0@, p.1@, p.2@))
                =~= spec_fastq_recs(self@));
        }
        out
    }

    /// The duplicate-headers mapping as pairs.
    pub fn emit_mapping(&self) -> (r: Vec<(Vec<u8>, Vec<Vec<u8>>)>)
        requires
            headers_nonempty(self@),
        ensures
            r@.map_values(|p: (Vec<u8>, Vec<Vec<u8>>)| (p.0@, p.1@.map_values(|h: Vec<u8>| h@)))
                == spec_mapping(self@),
    {
        let mut out: Vec<(Vec<u8>, Vec<Vec<u8>>)> = Vec::new();
        let mut i: usize = 0;
        while i < self.groups.len()
            invariant
                i <= self.groups.len(),
                headers_nonempty(self@),
                out@.len() == i,
                forall|k: int|
                    0 <= k < i ==> #[trigger] out@[k].0@ == spec_rep_id(self@[k])
                        && out@[k].1@.map_values(|h: Vec<u8>| h@) == self@[k].headers,
            decreases self.groups.len() - i,
        {
            let g = &self.groups[i];
            proof {
                assert(self@[i as int] == g@);
                assert(self@[i as int].headers.len() >= 1);
            }
            let hlen = g.headers.len();
            let rep = clone_bytes(&g.headers[hlen - 1]);
            let mut hs: Vec<Vec<u8>> = Vec::new();
            let mut t: usize = 0;
            while t < g.headers.len()
                invariant
                    t <= g.headers.len(),
                    hs@.len() == t,
                    forall|u: int| 0 <= u < t ==> #[trigger] hs@[u]@ == g.headers@[u]@,
                decreases g.headers.len() - t,
            {
                hs.push(clone_bytes(&g.headers[t]));
                t += 1;
            }
            proof {
                assert(hs@.map_values(|h: Vec<u8>| h@) =~= g@.headers);
            }
            out.push((rep, hs));
            i += 1;
        }
        proof {
            assert(out@.map_values(
                |p: (Vec<u8>, Vec<Vec<u8>>)| (p.0@, p.1@.map_values(|h: Vec<u8>| h@)),
            ) =~= spec_mapping(self@));
        }
        out
    }
}

} // verus!
