//! The deduplication engine: one group per distinct key, in first-encounter
//! order, with the header list of every record that mapped to the key.

use vstd::prelude::*;

use crate::record::{RawRecord, RecView, spec_entire_header, entire_header, clone_bytes, bytes_eq};

verus! {

/// Mathematical image of a [`Group`].
#[verifier::ext_equal]
pub ghost struct GroupView {
    pub key: Seq<u8>,
    pub seq: Seq<u8>,
    pub qual: Option<Seq<u8>>,
    pub headers: Seq<Seq<u8>>,
}

/// One duplicate group: the dedup key, the payload of the first record that
/// created the group, and every header seen for the key, in encounter order.
pub struct Group {
    pub key: Vec<u8>,
    pub seq: Vec<u8>,
    pub qual: Option<Vec<u8>>,
    pub headers: Vec<Vec<u8>>,
}

impl View for Group {
    type V = GroupView;

    open spec fn view(&self) -> GroupView {
        GroupView {
            key: self.key@,
            seq: self.seq@,
            qual: match self.qual {
                Some(q) => Some(q@),
                None => None,
            },
            headers: self.headers@.map_values(|h: Vec<u8>| h@),
        }
    }
}

/// The dedup key of a record: its sequence text by default, its canonical
/// header in header mode.
pub open spec fn spec_key(r: RecView, by_header: bool) -> Seq<u8> {
    if by_header {
        spec_entire_header(r)
    } else {
        r.seq
    }
}

/// The group a record founds when its key is new.
pub open spec fn new_group(r: RecView, by_header: bool) -> GroupView {
    GroupView {
        key: spec_key(r, by_header),
        seq: r.seq,
        qual: r.qual,
        headers: seq![spec_entire_header(r)],
    }
}

/// A group with one more header appended; key and payload stay.
pub open spec fn with_header(g: GroupView, h: Seq<u8>) -> GroupView {
    GroupView { key: g.key, seq: g.seq, qual: g.qual, headers: g.headers.push(h) }
}

/// One ingestion step: the first group whose key matches gains the record's
/// header; if none matches, a new group is appended.
pub open spec fn spec_ingest(gs: Seq<GroupView>, r: RecView, by_header: bool) -> Seq<GroupView>
    decreases gs.len(),
{
    if gs.len() == 0 {
        seq![new_group(r, by_header)]
    } else if gs[0].key == spec_key(r, by_header) {
        seq![with_header(gs[0], spec_entire_header(r))] + gs.drop_first()
    } else {
        seq![gs[0]] + spec_ingest(gs.drop_first(), r, by_header)
    }
}

/// The finished aggregation of a whole record sequence, one record at a time.
pub open spec fn spec_dedup(recs: Seq<RecView>, by_header: bool) -> Seq<GroupView>
    decreases recs.len(),
{
    if recs.len() == 0 {
        Seq::empty()
    } else {
        spec_ingest(spec_dedup(recs.drop_last(), by_header), recs.last(), by_header)
    }
}

/// Total number of records represented by the groups: the sum of the header
/// list lengths.
pub open spec fn spec_total(gs: Seq<GroupView>) -> int
    decreases gs.len(),
{
    if gs.len() == 0 {
        0
    } else {
        gs[0].headers.len() + spec_total(gs.drop_first())
    }
}

/// Whether some group carries the given key.
pub open spec fn has_key(gs: Seq<GroupView>, key: Seq<u8>) -> bool {
    exists|i: int| 0 <= i < gs.len() && gs[i].key == key
}

/// When the first key match sits at position `j`, ingestion updates exactly
/// that group.
pub(crate) proof fn lemma_ingest_hit(gs: Seq<GroupView>, r: RecView, by_header: bool, j: int)
    requires
        0 <= j < gs.len(),
        forall|k: int| 0 <= k < j ==> gs[k].key != spec_key(r, by_header),
        gs[j].key == spec_key(r, by_header),
    ensures
        spec_ingest(gs, r, by_header) == gs.update(
            j,
            with_header(gs[j], spec_entire_header(r)),
        ),
    decreases j,
{
    let h = spec_entire_header(r);
    if j == 0 {
        assert(seq![with_header(gs[0], h)] + gs.drop_first() =~= gs.update(
            0,
            with_header(gs[0], h),
        ));
    } else {
        let t = gs.drop_first();
        assert(forall|k: int| 0 <= k < j - 1 ==> t[k].key != spec_key(r, by_header));
        lemma_ingest_hit(t, r, by_header, j - 1);
        assert(seq![gs[0]] + t.update(j - 1, with_header(t[j - 1], h)) =~= gs.update(
            j,
            with_header(gs[j], h),
        ));
    }
}

/// When no key matches, ingestion appends a fresh group at the end.
pub(crate) proof fn lemma_ingest_miss(gs: Seq<GroupView>, r: RecView, by_header: bool)
    requires
        forall|k: int| 0 <= k < gs.len() ==> gs[k].key != spec_key(r, by_header),
    ensures
        spec_ingest(gs, r, by_header) == gs.push(new_group(r, by_header)),
    decreases gs.len(),
{
    if gs.len() == 0 {
        assert(seq![new_group(r, by_header)] =~= gs.push(new_group(r, by_header)));
    } else {
        let t = gs.drop_first();
        assert(forall|k: int| 0 <= k < t.len() ==> t[k].key != spec_key(r, by_header));
        lemma_ingest_miss(t, r, by_header);
        assert(seq![gs[0]] + t.push(new_group(r, by_header)) =~= gs.push(
            new_group(r, by_header),
        ));
    }
}

/// Every ingestion step accounts for exactly one more record.
pub(crate) proof fn lemma_ingest_total(gs: Seq<GroupView>, r: RecView, by_header: bool)
    ensures
        spec_total(spec_ingest(gs, r, by_header)) == spec_total(gs) + 1,
    decreases gs.len(),
{
    let res = spec_ingest(gs, r, by_header);
    if gs.len() == 0 {
        assert(res.drop_first() =~= Seq::<GroupView>::empty());
        assert(res[0] == new_group(r, by_header));
        assert(new_group(r, by_header).headers.len() == 1);
        assert(spec_total(Seq::<GroupView>::empty()) == 0);
    } else if gs[0].key == spec_key(r, by_header) {
        assert(res.drop_first() =~= gs.drop_first());
        assert(res[0] == with_header(gs[0], spec_entire_header(r)));
    } else {
        lemma_ingest_total(gs.drop_first(), r, by_header);
        assert(res.drop_first() =~= spec_ingest(gs.drop_first(), r, by_header));
        assert(res[0] == gs[0]);
    }
}

/// Ingestion keeps every existing key in place; a new key lands at the end.
pub(crate) proof fn lemma_ingest_keys(gs: Seq<GroupView>, r: RecView, by_header: bool)
    ensures
        has_key(gs, spec_key(r, by_header)) ==> spec_ingest(gs, r, by_header).len() == gs.len(),
        !has_key(gs, spec_key(r, by_header)) ==> spec_ingest(gs, r, by_header).len() == gs.len()
            + 1 && spec_ingest(gs, r, by_header)[gs.len() as int].key == spec_key(r, by_header),
        forall|i: int|
            0 <= i < gs.len() ==> #[trigger] spec_ingest(gs, r, by_header)[i].key == gs[i].key,
    decreases gs.len(),
{
    let key = spec_key(r, by_header);
    let res = spec_ingest(gs, r, by_header);
    if gs.len() == 0 {
        assert(!has_key(gs, key));
    } else if gs[0].key == key {
        assert(has_key(gs, key));
        assert(forall|i: int| 0 <= i < gs.len() ==> res[i].key == gs[i].key);
    } else {
        let t = gs.drop_first();
        lemma_ingest_keys(t, r, by_header);
        let tres = spec_ingest(t, r, by_header);
        assert(forall|i: int| 1 <= i < res.len() ==> res[i] == tres[i - 1]);
        if has_key(t, key) {
            let w = choose|i: int| 0 <= i < t.len() && t[i].key == key;
            assert(gs[w + 1].key == key);
            assert(has_key(gs, key));
        } else {
            if has_key(gs, key) {
                let w = choose|i: int| 0 <= i < gs.len() && gs[i].key == key;
                assert(w != 0);
                assert(t[w - 1].key == key);
                assert(false);
            }
        }
    }
}

/// The aggregation engine: consumes records one at a time and maintains one
/// group per distinct key, in first-encounter order.
pub struct Deduplicator {
    pub by_header: bool,
    pub groups: Vec<Group>,
    pub total: usize,
}

impl View for Deduplicator {
    type V = Seq<GroupView>;

    open spec fn view(&self) -> Seq<GroupView> {
        self.groups@.map_values(|g: Group| g@)
    }
}

impl Deduplicator {
    /// The running record count agrees with the groups' header lists.
    pub open spec fn wf(&self) -> bool {
        self.total as int == spec_total(self@)
    }

    /// A fresh engine with no groups.
    pub fn new(by_header: bool) -> (r: Deduplicator)
        ensures
            r.by_header == by_header,
            r.total == 0,
            r@ == Seq::<GroupView>::empty(),
            r.wf(),
    {
        let d = Deduplicator { by_header, groups: Vec::new(), total: 0 };
        proof {
            assert(d@ =~= Seq::<GroupView>::empty());
        }
        d
    }

    /// Number of groups, i.e. the `unique` count.
    pub fn unique(&self) -> (r: usize)
        ensures
            r == self@.len(),
    {
        self.groups.len()
    }

    /// Consume one record: append its header to the first group whose key
    /// matches, or found a new group holding the record's payload.
    pub fn ingest(&mut self, rec: &RawRecord)
        requires
            old(self).wf(),
            old(self).total < usize::MAX,
        ensures
            final(self).by_header == old(self).by_header,
            final(self).total == old(self).total + 1,
            final(self).wf(),
            final(self)@ == spec_ingest(old(self)@, rec@, old(self).by_header),
    {
        let header = entire_header(rec);
        let key: Vec<u8> = if self.by_header {
            clone_bytes(&header)
        } else {
            clone_bytes(&rec.seq)
        };
        let ghost gs0 = self@;
        let ghost bh = self.by_header;
        let ghost t0 = self.total;
        proof {
            assert(key@ == spec_key(rec@, bh));
        }
        let n = self.groups.len();
        let mut j: usize = 0;
        while j < n
            invariant
                j <= n,
                self == old(self),
                n == self.groups.len(),
                key@ == spec_key(rec@, bh),
                header@ == spec_entire_header(rec@),
                gs0 == self@,
                bh == self.by_header,
                self.total < usize::MAX,
                self.total as int == spec_total(gs0),
                forall|k: int| 0 <= k < j ==> gs0[k].key != key@,
            decreases n - j,
        {
            if bytes_eq(&self.groups[j].key, &key) {
                proof {
                    assert(gs0[j as int] == self.groups@[j as int]@);
                    assert(gs0[j as int].key == key@);
                }
                let mut g = self.groups.remove(j);
                g.headers.push(header);
                proof {
                    assert(g@ == with_header(gs0[j as int], spec_entire_header(rec@))) by {
                        assert(g.headers@.map_values(|h: Vec<u8>| h@) =~= gs0[
                            j as int
                        ].headers.push(spec_entire_header(rec@)));
                    }
                }
                self.groups.insert(j, g);
                self.total = self.total + 1;
                proof {
                    lemma_ingest_hit(gs0, rec@, bh, j as int);
                    assert(self@ =~= gs0.update(
                        j as int,
                        with_header(gs0[j as int], spec_entire_header(rec@)),
                    ));
                    lemma_ingest_total(gs0, rec@, bh);
                }
                return ;
            }
            proof {
                assert(gs0[j as int] == self.groups@[j as int]@);
            }
            j = j + 1;
        }
        let seq_copy = clone_bytes(&rec.seq);
        let qual_copy: Option<Vec<u8>> = match &rec.qual {
            Some(q) => Some(clone_bytes(q)),
            None => None,
        };
        let mut hs: Vec<Vec<u8>> = Vec::new();
        hs.push(header);
        let g = Group { key, seq: seq_copy, qual: qual_copy, headers: hs };
        proof {
            assert(g@ == new_group(rec@, bh)) by {
                assert(g.headers@.map_values(|h: Vec<u8>| h@) =~= seq![spec_entire_header(rec@)]);
            }
        }
        self.groups.push(g);
        self.total = self.total + 1;
        proof {
            lemma_ingest_miss(gs0, rec@, bh);
            assert(self@ =~= gs0.push(new_group(rec@, bh)));
            lemma_ingest_total(gs0, rec@, bh);
        }
    }
}

} // verus!
