//! The record model: a decoded FASTA/FASTQ entry and the canonical header
//! string derived from its identifier and description.

use vstd::prelude::*;

verus! {

/// A decoded entry from the input stream: the identifier and optional
/// description from the header line, the residue text as bytes, and (for
/// FASTQ) the per-residue quality bytes.
pub struct RawRecord {
    pub id: Vec<u8>,
    pub desc: Option<Vec<u8>>,
    pub seq: Vec<u8>,
    pub qual: Option<Vec<u8>>,
}

/// Mathematical image of a [`RawRecord`].
#[verifier::ext_equal]
pub ghost struct RecView {
    pub id: Seq<u8>,
    pub desc: Option<Seq<u8>>,
    pub seq: Seq<u8>,
    pub qual: Option<Seq<u8>>,
}

impl View for RawRecord {
    type V = RecView;

    open spec fn view(&self) -> RecView {
        RecView {
            id: self.id@,
            desc: match self.desc {
                Some(d) => Some(d@),
                None => None,
            },
            seq: self.seq@,
            qual: match self.qual {
                Some(q) => Some(q@),
                None => None,
            },
        }
    }
}

/// ASCII whitespace, as trimmed from the ends of a header string.
pub open spec fn is_space(b: u8) -> bool {
    b == 32 || b == 9 || b == 10 || b == 13
}

/// The identifier and the description joined by a single space; a missing
/// description leaves a trailing space for the trim to remove.
pub open spec fn spec_joined(id: Seq<u8>, desc: Option<Seq<u8>>) -> Seq<u8> {
    match desc {
        Some(d) => id + seq![32u8] + d,
        None => id + seq![32u8],
    }
}

pub open spec fn trim_front(s: Seq<u8>) -> Seq<u8>
    decreases s.len(),
{
    if s.len() > 0 && is_space(s[0]) {
        trim_front(s.drop_first())
    } else {
        s
    }
}

pub open spec fn trim_back(s: Seq<u8>) -> Seq<u8>
    decreases s.len(),
{
    if s.len() > 0 && is_space(s.last()) {
        trim_back(s.drop_last())
    } else {
        s
    }
}

/// Leading and trailing whitespace removed.
pub open spec fn spec_trim(s: Seq<u8>) -> Seq<u8> {
    trim_back(trim_front(s))
}

/// The canonical header string of a record: identifier and description
/// joined by a single space, then trimmed of leading/trailing whitespace.
pub open spec fn spec_entire_header(r: RecView) -> Seq<u8> {
    spec_trim(spec_joined(r.id, r.desc))
}

proof fn lemma_trim_front_at(s: Seq<u8>, i: int)
    requires
        0 <= i <= s.len(),
        forall|k: int| 0 <= k < i ==> is_space(s[k]),
        i == s.len() || !is_space(s[i]),
    ensures
        trim_front(s) == s.subrange(i, s.len() as int),
    decreases i,
{
    if i == 0 {
        assert(s.subrange(0, s.len() as int) =~= s);
    } else {
        let t = s.drop_first();
        assert(forall|k: int| 0 <= k < i - 1 ==> is_space(t[k]));
        lemma_trim_front_at(t, i - 1);
        assert(t.subrange(i - 1, t.len() as int) =~= s.subrange(i, s.len() as int));
    }
}

proof fn lemma_trim_back_at(s: Seq<u8>, j: int)
    requires
        0 <= j <= s.len(),
        forall|k: int| j <= k < s.len() ==> is_space(s[k]),
        j == 0 || !is_space(s[j - 1]),
    ensures
        trim_back(s) == s.subrange(0, j),
    decreases s.len(),
{
    if j == s.len() {
        assert(s.subrange(0, j) =~= s);
    } else {
        let t = s.drop_last();
        assert(is_space(s.last()));
        assert(forall|k: int| j <= k < t.len() ==> is_space(t[k]));
        lemma_trim_back_at(t, j);
        assert(t.subrange(0, j) =~= s.subrange(0, j));
    }
}

fn byte_is_space(b: u8) -> (r: bool)
    ensures
        r == is_space(b),
{
    b == 32 || b == 9 || b == 10 || b == 13
}

/// A copy of a byte string.
pub fn clone_bytes(v: &Vec<u8>) -> (r: Vec<u8>)
    ensures
        r@ == v@,
{
    let mut out: Vec<u8> = Vec::new();
    let mut i: usize = 0;
    while i < v.len()
        invariant
            i <= v.len(),
            out@ == v@.subrange(0, i as int),
        decreases v.len() - i,
    {
        out.push(v[i]);
        proof {
            assert(v@.subrange(0, i + 1) =~= v@.subrange(0, i as int).push(v@[i as int]));
        }
        i += 1;
    }
    proof {
        assert(v@.subrange(0, v@.len() as int) =~= v@);
    }
    out
}

/// Exact byte-string equality.
pub fn bytes_eq(a: &Vec<u8>, b: &Vec<u8>) -> (r: bool)
    ensures
        r == (a@ == b@),
{
    if a.len() != b.len() {
        return false;
    }
    let mut i: usize = 0;
    while i < a.len()
        invariant
            i <= a.len(),
            a.len() == b.len(),
            forall|k: int| 0 <= k < i ==> a@[k] == b@[k],
        decreases a.len() - i,
    {
        if a[i] != b[i] {
            return false;
        }
        i += 1;
    }
    proof {
        assert(a@ =~= b@);
    }
    true
}

/// The canonical header of a record, per [`spec_entire_header`].
pub fn entire_header(rec: &RawRecord) -> (h: Vec<u8>)
    ensures
        h@ == spec_entire_header(rec@),
{
    let mut joined: Vec<u8> = Vec::new();
    let mut i: usize = 0;
    while i < rec.id.len()
        invariant
            i <= rec.id.len(),
            joined@ == rec.id@.subrange(0, i as int),
        decreases rec.id.len() - i,
    {
        joined.push(rec.id[i]);
        proof {
            assert(rec.id@.subrange(0, i + 1) =~= rec.id@.subrange(0, i as int).push(
                rec.id@[i as int],
            ));
        }
        i += 1;
    }
    proof {
        assert(rec.id@.subrange(0, rec.id@.len() as int) =~= rec.id@);
    }
    joined.push(32);
    match &rec.desc {
        Some(d) => {
            let mut k: usize = 0;
            while k < d.len()
                invariant
                    k <= d.len(),
                    joined@ == rec.id@ + seq![32u8] + d@.subrange(0, k as int),
                decreases d.len() - k,
            {
                joined.push(d[k]);
                proof {
                    assert(rec.id@ + seq![32u8] + d@.subrange(0, k + 1) =~= (rec.id@ + seq![32u8]
                        + d@.subrange(0, k as int)).push(d@[k as int]));
                }
                k += 1;
            }
            proof {
                assert(d@.subrange(0, d@.len() as int) =~= d@);
                assert(joined@ =~= spec_joined(rec@.id, rec@.desc));
            }
        },
        None => {
            proof {
                assert(joined@ =~= spec_joined(rec@.id, rec@.desc));
            }
        },
    }
    let n = joined.len();
    let mut start: usize = 0;
    while start < n && byte_is_space(joined[start])
        invariant
            start <= n,
            n == joined.len(),
            forall|k: int| 0 <= k < start ==> is_space(joined@[k]),
        decreases n - start,
    {
        start += 1;
    }
    let mut end: usize = n;
    while end > start && byte_is_space(joined[end - 1])
        invariant
            start <= end <= n,
            n == joined.len(),
            forall|k: int| end <= k < n ==> is_space(joined@[k]),
        decreases end,
    {
        end -= 1;
    }
    proof {
        lemma_trim_front_at(joined@, start as int);
        let t = joined@.subrange(start as int, n as int);
        assert(forall|k: int|
            end - start <= k < t.len() ==> is_space(#[trigger] t[k]) && t[k] == joined@[k
                + start]);
        lemma_trim_back_at(t, end - start);
        assert(t.subrange(0, end - start) =~= joined@.subrange(start as int, end as int));
    }
    let mut out: Vec<u8> = Vec::new();
    let mut k: usize = start;
    while k < end
        invariant
            start <= k <= end <= joined.len(),
            out@ == joined@.subrange(start as int, k as int),
        decreases end - k,
    {
        out.push(joined[k]);
        proof {
            assert(joined@.subrange(start as int, k + 1) =~= joined@.subrange(
                start as int,
                k as int,
            ).push(joined@[k as int]));
        }
        k += 1;
    }
    out
}

} // verus!
