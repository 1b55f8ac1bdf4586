//! Laws of the deduplication engine, proved once over the spec model:
//! conservation of counts, provenance of every reported header and payload,
//! well-formedness of the finished aggregation, and idempotence of
//! sequence-mode deduplication.

use vstd::prelude::*;

use crate::dedup::{
    GroupView, spec_key, spec_ingest, spec_dedup, spec_total, has_key, new_group, with_header,
    lemma_ingest_keys, lemma_ingest_total,
};
use crate::record::{RecView, spec_entire_header};
use crate::report::{spec_rep_id, headers_nonempty};

verus! {

/// The byte string is the canonical header of one of the records.
pub open spec fn header_from(h: Seq<u8>, recs: Seq<RecView>) -> bool {
    exists|i: int| 0 <= i < recs.len() && h == spec_entire_header(recs[i])
}

/// Every header held by any group is the canonical header of some record.
pub open spec fn headers_from(gs: Seq<GroupView>, recs: Seq<RecView>) -> bool {
    forall|g: int, t: int|
        0 <= g < gs.len() && 0 <= t < gs[g].headers.len() ==> header_from(
            #[trigger] gs[g].headers[t],
            recs,
        )
}

/// The group's key and payload come from one of the records.
pub open spec fn group_from(g: GroupView, recs: Seq<RecView>, by_header: bool) -> bool {
    exists|i: int|
        0 <= i < recs.len() && g.key == spec_key(recs[i], by_header) && g.seq == recs[i].seq
            && g.qual == recs[i].qual
}

/// Every group's key and payload come from some record.
pub open spec fn groups_from(gs: Seq<GroupView>, recs: Seq<RecView>, by_header: bool) -> bool {
    forall|g: int| 0 <= g < gs.len() ==> group_from(#[trigger] gs[g], recs, by_header)
}

/// No two groups share a key.
pub open spec fn distinct_keys(gs: Seq<GroupView>) -> bool {
    forall|i: int, j: int| 0 <= i < j < gs.len() ==> gs[i].key != gs[j].key
}

proof fn lemma_ingest_wf(gs: Seq<GroupView>, r: RecView, by_header: bool)
    requires
        headers_nonempty(gs),
        distinct_keys(gs),
    ensures
        headers_nonempty(spec_ingest(gs, r, by_header)),
        distinct_keys(spec_ingest(gs, r, by_header)),
    decreases gs.len(),
{
    let key = spec_key(r, by_header);
    let res = spec_ingest(gs, r, by_header);
    if gs.len() == 0 {
        assert(res[0].headers.len() == 1);
    } else if gs[0].key == key {
        assert(res[0].headers.len() == gs[0].headers.len() + 1);
        assert(forall|g: int| 1 <= g < res.len() ==> res[g] == gs[g]);
        assert(forall|i: int, j: int| 0 <= i < j < res.len() ==> res[i].key == gs[i].key
            && res[j].key == gs[j].key);
    } else {
        let t = gs.drop_first();
        assert(forall|g: int| 0 <= g < t.len() ==> t[g] == gs[g + 1]);
        lemma_ingest_wf(t, r, by_header);
        let tres = spec_ingest(t, r, by_header);
        lemma_ingest_keys(t, r, by_header);
        assert(forall|g: int| 1 <= g < res.len() ==> res[g] == tres[g - 1]);
        assert forall|i: int, j: int| 0 <= i < j < res.len() implies res[i].key != res[j].key by {
            if i == 0 {
                if j - 1 < t.len() {
                    assert(tres[j - 1].key == t[j - 1].key);
                } else {
                    assert(tres[j - 1].key == key);
                }
            }
        }
    }
}

/// The groups of a finished aggregation carry pairwise distinct keys, and
/// each holds at least one header.
pub proof fn lemma_dedup_wf(recs: Seq<RecView>, by_header: bool)
    ensures
        headers_nonempty(spec_dedup(recs, by_header)),
        distinct_keys(spec_dedup(recs, by_header)),
    decreases recs.len(),
{
    if recs.len() > 0 {
        lemma_dedup_wf(recs.drop_last(), by_header);
        lemma_ingest_wf(spec_dedup(recs.drop_last(), by_header), recs.last(), by_header);
    }
}

proof fn lemma_ingest_headers(gs: Seq<GroupView>, r: RecView, by_header: bool, recs: Seq<RecView>)
    requires
        headers_from(gs, recs),
        header_from(spec_entire_header(r), recs),
    ensures
        headers_from(spec_ingest(gs, r, by_header), recs),
    decreases gs.len(),
{
    let key = spec_key(r, by_header);
    let h = spec_entire_header(r);
    let res = spec_ingest(gs, r, by_header);
    if gs.len() == 0 {
        assert forall|g: int, t: int|
            0 <= g < res.len() && 0 <= t < res[g].headers.len() implies header_from(
            res[g].headers[t],
            recs,
        ) by {
            assert(res[g].headers[t] == h);
        }
    } else if gs[0].key == key {
        assert forall|g: int, t: int|
            0 <= g < res.len() && 0 <= t < res[g].headers.len() implies header_from(
            res[g].headers[t],
            recs,
        ) by {
            if g == 0 {
                if t < gs[0].headers.len() {
                    assert(res[0].headers[t] == gs[0].headers[t]);
                } else {
                    assert(res[0].headers[t] == h);
                }
            } else {
                assert(res[g] == gs[g]);
            }
        }
    } else {
        let tail = gs.drop_first();
        assert(forall|g: int| 0 <= g < tail.len() ==> tail[g] == gs[g + 1]);
        assert forall|g: int, t: int|
            0 <= g < tail.len() && 0 <= t < tail[g].headers.len() implies header_from(
            tail[g].headers[t],
            recs,
        ) by {
            assert(tail[g].headers[t] == gs[g + 1].headers[t]);
        }
        lemma_ingest_headers(tail, r, by_header, recs);
        let tres = spec_ingest(tail, r, by_header);
        assert forall|g: int, t: int|
            0 <= g < res.len() && 0 <= t < res[g].headers.len() implies header_from(
            res[g].headers[t],
            recs,
        ) by {
            if g == 0 {
                assert(res[0].headers[t] == gs[0].headers[t]);
            } else {
                assert(res[g].headers[t] == tres[g - 1].headers[t]);
            }
        }
    }
}

proof fn lemma_ingest_groups(gs: Seq<GroupView>, r: RecView, by_header: bool, recs: Seq<RecView>)
    requires
        groups_from(gs, recs, by_header),
        group_from(new_group(r, by_header), recs, by_header),
    ensures
        groups_from(spec_ingest(gs, r, by_header), recs, by_header),
    decreases gs.len(),
{
    let key = spec_key(r, by_header);
    let res = spec_ingest(gs, r, by_header);
    if gs.len() == 0 {
        assert(res[0] == new_group(r, by_header));
    } else if gs[0].key == key {
        assert forall|g: int| 0 <= g < res.len() implies group_from(res[g], recs, by_header) by {
            if g == 0 {
                assert(res[0] == with_header(gs[0], spec_entire_header(r)));
                let w = choose|i: int|
                    0 <= i < recs.len() && gs[0].key == spec_key(recs[i], by_header) && gs[0].seq
                        == recs[i].seq && gs[0].qual == recs[i].qual;
                assert(res[0].key == spec_key(recs[w], by_header) && res[0].seq == recs[w].seq
                    && res[0].qual == recs[w].qual);
            } else {
                assert(res[g] == gs[g]);
            }
        }
    } else {
        let tail = gs.drop_first();
        assert(forall|g: int| 0 <= g < tail.len() ==> tail[g] == gs[g + 1]);
        lemma_ingest_groups(tail, r, by_header, recs);
        let tres = spec_ingest(tail, r, by_header);
        assert forall|g: int| 0 <= g < res.len() implies group_from(res[g], recs, by_header) by {
            if g == 0 {
                assert(res[0] == gs[0]);
            } else {
                assert(res[g] == tres[g - 1]);
            }
        }
    }
}

/// Law: every header string reported for any group is, verbatim, the
/// canonical header of one of the input records (round trip).
pub proof fn lemma_headers_round_trip(recs: Seq<RecView>, by_header: bool)
    ensures
        headers_from(spec_dedup(recs, by_header), recs),
    decreases recs.len(),
{
    if recs.len() > 0 {
        let prev = recs.drop_last();
        let gs = spec_dedup(prev, by_header);
        lemma_headers_round_trip(prev, by_header);
        assert forall|g: int, t: int|
            0 <= g < gs.len() && 0 <= t < gs[g].headers.len() implies header_from(
            gs[g].headers[t],
            recs,
        ) by {
            let w = choose|i: int|
                0 <= i < prev.len() && gs[g].headers[t] == spec_entire_header(prev[i]);
            assert(recs[w] == prev[w]);
            assert(gs[g].headers[t] == spec_entire_header(recs[w]));
        }
        assert(spec_entire_header(recs.last()) == spec_entire_header(recs[recs.len() - 1]));
        lemma_ingest_headers(gs, recs.last(), by_header, recs);
    }
}

/// Every group's key and payload come from one of the input records; in
/// particular, in sequence mode every group's key is its own sequence.
pub proof fn lemma_dedup_groups(recs: Seq<RecView>, by_header: bool)
    ensures
        groups_from(spec_dedup(recs, by_header), recs, by_header),
    decreases recs.len(),
{
    if recs.len() > 0 {
        let prev = recs.drop_last();
        let gs = spec_dedup(prev, by_header);
        lemma_dedup_groups(prev, by_header);
        assert forall|g: int| 0 <= g < gs.len() implies group_from(gs[g], recs, by_header) by {
            let w = choose|i: int|
                0 <= i < prev.len() && gs[g].key == spec_key(prev[i], by_header) && gs[g].seq
                    == prev[i].seq && gs[g].qual == prev[i].qual;
            assert(recs[w] == prev[w]);
            assert(gs[g].key == spec_key(recs[w], by_header) && gs[g].seq == recs[w].seq
                && gs[g].qual == recs[w].qual);
        }
        let last = recs.last();
        assert(recs[recs.len() - 1] == last);
        assert(new_group(last, by_header).key == spec_key(recs[recs.len() - 1], by_header));
        lemma_ingest_groups(gs, last, by_header, recs);
    }
}

/// Law: counts are conserved. The header lists of the groups together hold
/// exactly one entry per input record, so `total` is the record count and
/// `unique` is the group count.
pub proof fn lemma_dedup_counts(recs: Seq<RecView>, by_header: bool)
    ensures
        spec_total(spec_dedup(recs, by_header)) == recs.len(),
    decreases recs.len(),
{
    if recs.len() == 0 {
        assert(spec_total(Seq::<GroupView>::empty()) == 0);
    } else {
        lemma_dedup_counts(recs.drop_last(), by_header);
        lemma_ingest_total(spec_dedup(recs.drop_last(), by_header), recs.last(), by_header);
    }
}

/// Records whose keys are pairwise distinct collapse nothing: one group per
/// record.
pub proof fn lemma_dedup_all_unique(recs: Seq<RecView>, by_header: bool)
    requires
        forall|i: int, j: int|
            0 <= i < j < recs.len() ==> spec_key(recs[i], by_header) != spec_key(
                recs[j],
                by_header,
            ),
    ensures
        spec_dedup(recs, by_header).len() == recs.len(),
    decreases recs.len(),
{
    if recs.len() > 0 {
        let prev = recs.drop_last();
        let gs = spec_dedup(prev, by_header);
        let key = spec_key(recs.last(), by_header);
        lemma_dedup_all_unique(prev, by_header);
        lemma_dedup_groups(prev, by_header);
        if has_key(gs, key) {
            let g = choose|g: int| 0 <= g < gs.len() && gs[g].key == key;
            let w = choose|i: int|
                0 <= i < prev.len() && gs[g].key == spec_key(prev[i], by_header) && gs[g].seq
                    == prev[i].seq && gs[g].qual == prev[i].qual;
            assert(spec_key(recs[w], by_header) == spec_key(recs[recs.len() - 1], by_header));
            assert(false);
        }
        lemma_ingest_keys(gs, recs.last(), by_header);
    }
}

/// With every group holding at least one header, there are at least as many
/// records as groups: `unique` never exceeds `total`.
pub proof fn lemma_total_at_least_groups(gs: Seq<GroupView>)
    requires
        headers_nonempty(gs),
    ensures
        spec_total(gs) >= gs.len(),
    decreases gs.len(),
{
    if gs.len() > 0 {
        let t = gs.drop_first();
        assert(forall|g: int| 0 <= g < t.len() ==> t[g] == gs[g + 1]);
        lemma_total_at_least_groups(t);
    }
}

/// The records the report emits: one per group, carrying the representative
/// header as identifier and the group's payload.
pub open spec fn spec_emitted(gs: Seq<GroupView>) -> Seq<RecView> {
    gs.map_values(
        |g: GroupView| RecView { id: spec_rep_id(g), desc: None, seq: g.seq, qual: g.qual },
    )
}

/// Law: sequence-mode deduplication is idempotent. Re-running it on the
/// emitted records collapses nothing: every emitted sequence is unique, so
/// the re-run's `unique` equals its `total`.
pub proof fn lemma_dedup_idempotent(recs: Seq<RecView>)
    ensures
        ({
            let emitted = spec_emitted(spec_dedup(recs, false));
            spec_dedup(emitted, false).len() == emitted.len() && spec_total(
                spec_dedup(emitted, false),
            ) == emitted.len()
        }),
{
    let gs = spec_dedup(recs, false);
    let emitted = spec_emitted(gs);
    lemma_dedup_wf(recs, false);
    lemma_dedup_groups(recs, false);
    assert forall|i: int| 0 <= i < emitted.len() implies spec_key(emitted[i], false) == gs[
        i
    ].key by {
        let w = choose|w: int|
            0 <= w < recs.len() && gs[i].key == spec_key(recs[w], false) && gs[i].seq
                == recs[w].seq && gs[i].qual == recs[w].qual;
        assert(gs[i].key == recs[w].seq);
        assert(emitted[i].seq == gs[i].seq);
    }
    lemma_dedup_all_unique(emitted, false);
    lemma_dedup_counts(emitted, false);
}

} // verus!
