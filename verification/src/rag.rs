//! Retrieval support: fixed-dimension integer embeddings, cosine scores in
//! thousandths, and top-k ranking. Embedding entries are scaled integers
//! (the embedder emits byte-frequency counts); scores below zero are
//! floored at zero and above one clamped, so a score always lies in
//! [0, 1000].

use vstd::prelude::*;

verus! {

broadcast use vstd::seq_lib::group_to_multiset_ensures;

/// Dimension of embedder output.
pub const EMBED_DIM: usize = 384;

/// Bound on one embedding entry, so that scoring cannot overflow.
pub const EMBED_ENTRY_BOUND: i64 = 1000000;

/// An embedding the scorer accepts: bounded entries, bounded dimension.
pub open spec fn embedding_wf(v: Seq<i64>) -> bool {
    v.len() <= 4096 && forall|i: int|
        0 <= i < v.len() ==> -1000000 <= #[trigger] v[i] <= 1000000
}

/// Dot product over the common prefix of the two vectors.
pub open spec fn dot_spec(a: Seq<i64>, b: Seq<i64>) -> int
    decreases a.len(),
{
    if a.len() == 0 || b.len() == 0 {
        0
    } else {
        a[0] * b[0] + dot_spec(a.drop_first(), b.drop_first())
    }
}

proof fn lemma_dot_bound(a: Seq<i64>, b: Seq<i64>)
    requires
        embedding_wf(a),
        embedding_wf(b),
    ensures
        -(a.len() * 1000000000000) <= dot_spec(a, b) <= a.len() * 1000000000000,
        -(4096 * 1000000000000) <= dot_spec(a, b) <= 4096 * 1000000000000,
    decreases a.len(),
{
    if a.len() == 0 || b.len() == 0 {
    } else {
        assert(embedding_wf(a.drop_first()) && embedding_wf(b.drop_first()));
        lemma_dot_bound(a.drop_first(), b.drop_first());
        lemma_dot_step_bound(a, b);
    }
}

proof fn lemma_dot_step_bound(a: Seq<i64>, b: Seq<i64>)
    requires
        a.len() > 0,
        b.len() > 0,
        -1000000 <= a[0] <= 1000000,
        -1000000 <= b[0] <= 1000000,
    ensures
        -1000000000000 <= a[0] * b[0] <= 1000000000000,
        dot_spec(a, b) == a[0] * b[0] + dot_spec(a.drop_first(), b.drop_first()),
{
    assert(-1000000000000 <= a[0] * b[0] <= 1000000000000) by (nonlinear_arith)
        requires
            -1000000 <= a[0] <= 1000000,
            -1000000 <= b[0] <= 1000000,
    ;
}

/// Integer square root, defined by counting up.
pub open spec fn isqrt_spec(n: nat) -> nat
    decreases n,
{
    if n == 0 {
        0
    } else if (isqrt_spec((n - 1) as nat) + 1) * (isqrt_spec((n - 1) as nat) + 1) <= n {
        isqrt_spec((n - 1) as nat) + 1
    } else {
        isqrt_spec((n - 1) as nat)
    }
}

pub proof fn lemma_isqrt_bounds(n: nat)
    ensures
        isqrt_spec(n) * isqrt_spec(n) <= n,
        n < (isqrt_spec(n) + 1) * (isqrt_spec(n) + 1),
    decreases n,
{
    if n == 0 {
        assert(isqrt_spec(n) == 0);
        assert(isqrt_spec(n) * isqrt_spec(n) <= n) by (nonlinear_arith)
            requires
                isqrt_spec(n) == 0,
                n == 0,
        ;
        assert(n < (isqrt_spec(n) + 1) * (isqrt_spec(n) + 1)) by (nonlinear_arith)
            requires
                isqrt_spec(n) == 0,
                n == 0,
        ;
    } else {
        lemma_isqrt_bounds((n - 1) as nat);
        let p = isqrt_spec((n - 1) as nat);
        if (p + 1) * (p + 1) <= n {
            assert(isqrt_spec(n) == p + 1);
            assert(n == (p + 1) * (p + 1));
            assert(n < (p + 2) * (p + 2)) by (nonlinear_arith)
                requires
                    n == (p + 1) * (p + 1),
                    p >= 0,
            ;
            assert(isqrt_spec(n) * isqrt_spec(n) <= n) by (nonlinear_arith)
                requires
                    isqrt_spec(n) == p + 1,
                    n == (p + 1) * (p + 1),
            ;
            assert(n < (isqrt_spec(n) + 1) * (isqrt_spec(n) + 1)) by (nonlinear_arith)
                requires
                    isqrt_spec(n) == p + 1,
                    n < (p + 2) * (p + 2),
            ;
        } else {
            assert(isqrt_spec(n) == p);
            assert(isqrt_spec(n) * isqrt_spec(n) <= n) by (nonlinear_arith)
                requires
                    isqrt_spec(n) == p,
                    p * p <= n - 1,
                    n >= 1,
            ;
            assert(n < (isqrt_spec(n) + 1) * (isqrt_spec(n) + 1)) by (nonlinear_arith)
                requires
                    isqrt_spec(n) == p,
                    !((p + 1) * (p + 1) <= n),
            ;
        }
    }
}

pub proof fn lemma_isqrt_unique(n: nat, r: nat)
    requires
        r * r <= n,
        n < (r + 1) * (r + 1),
    ensures
        r == isqrt_spec(n),
{
    lemma_isqrt_bounds(n);
    let s = isqrt_spec(n);
    if r < s {
        assert((r + 1) * (r + 1) <= s * s) by (nonlinear_arith)
            requires
                r + 1 <= s,
                r >= 0,
        ;
    }
    if s < r {
        assert((s + 1) * (s + 1) <= r * r) by (nonlinear_arith)
            requires
                s + 1 <= r,
                s >= 0,
        ;
    }
}

/// Cosine similarity in thousandths, floored at 0 and clamped at 1000.
/// The raw quotient before clamping.
pub open spec fn cosine_milli_raw(q: Seq<i64>, v: Seq<i64>) -> int {
    1000 * dot_spec(q, v) / (isqrt_spec((dot_spec(q, q) * dot_spec(v, v)) as nat) as int)
}

pub open spec fn cosine_milli_spec(q: Seq<i64>, v: Seq<i64>) -> int {
    if dot_spec(q, q) <= 0 || dot_spec(v, v) <= 0 || dot_spec(q, v) <= 0 {
        0
    } else if cosine_milli_raw(q, v) > 1000 {
        1000
    } else {
        cosine_milli_raw(q, v)
    }
}

/// Dot product of the common prefix, exactly `dot_spec`.
fn dot_i128(a: &[i64], b: &[i64]) -> (r: i128)
    requires
        embedding_wf(a@),
        embedding_wf(b@),
    ensures
        r as int == dot_spec(a@, b@),
        -(4096 * 1000000000000) <= r as int <= 4096 * 1000000000000,
{
    let a_len = a.len();
    let b_len = b.len();
    let n = if a_len < b_len {
        a_len
    } else {
        b_len
    };
    let mut acc: i128 = 0;
    let mut i: usize = 0;
    proof {
        assert(a@.skip(0) =~= a@);
        assert(b@.skip(0) =~= b@);
    }
    while i < n
        invariant
            embedding_wf(a@),
            embedding_wf(b@),
            n <= a@.len(),
            n <= b@.len(),
            0 <= i <= n,
            acc as int + dot_spec(a@.skip(i as int), b@.skip(i as int)) == dot_spec(a@, b@),
            -(i * 1000000000000) <= acc as int <= i * 1000000000000,
        decreases n - i,
    {
        proof {
            assert(a@.skip(i as int).drop_first() =~= a@.skip(i + 1));
            assert(b@.skip(i as int).drop_first() =~= b@.skip(i + 1));
            lemma_dot_step_bound(a@.skip(i as int), b@.skip(i as int));
            assert(a@.skip(i as int)[0] == a@[i as int]);
            assert(b@.skip(i as int)[0] == b@[i as int]);
        }
        let p: i128 = (a[i] as i128) * (b[i] as i128);
        acc = acc + p;
        i += 1;
    }
    proof {
        if i < a@.len() && i < b@.len() {
            assert(false);
        }
        assert(dot_spec(a@.skip(n as int), b@.skip(n as int)) == 0);
        lemma_dot_bound(a@, b@);
    }
    acc
}

/// Integer square root by binary search; the result matches `isqrt_spec`.
fn isqrt_u128(n: u128) -> (r: u128)
    ensures
        r as nat == isqrt_spec(n as nat),
        r * r <= n,
{
    let mut lo: u128 = 0;
    let mut hi: u128 = 0x1_0000_0000_0000_0000;
    proof {
        assert((hi * hi) as int > u128::MAX as int) by (nonlinear_arith)
            requires
                hi == 0x1_0000_0000_0000_0000u128,
        ;
    }
    while lo + 1 < hi
        invariant
            lo < hi <= 0x1_0000_0000_0000_0000u128,
            (lo * lo) as nat <= n as nat,
            (n as nat) < (hi as nat) * (hi as nat),
        decreases hi - lo,
    {
        let mid = lo + (hi - lo) / 2;
        proof {
            assert(mid < 0x1_0000_0000_0000_0000u128);
            assert((mid as nat) * (mid as nat) <= u128::MAX as nat) by (nonlinear_arith)
                requires
                    mid < 0x1_0000_0000_0000_0000u128,
            ;
        }
        let sq = mid * mid;
        if sq <= n {
            lo = mid;
        } else {
            hi = mid;
        }
    }
    proof {
        assert(hi == lo + 1);
        lemma_isqrt_unique(n as nat, lo as nat);
    }
    lo
}

/// Cosine score in thousandths; exactly `cosine_milli_spec`.
pub fn cosine_milli(q: &[i64], v: &[i64]) -> (r: i64)
    requires
        embedding_wf(q@),
        embedding_wf(v@),
    ensures
        r as int == cosine_milli_spec(q@, v@),
        0 <= r <= 1000,
{
    let d = dot_i128(q, v);
    let nq = dot_i128(q, q);
    let nv = dot_i128(v, v);
    if nq <= 0 || nv <= 0 || d <= 0 {
        return 0;
    }
    let nqu: u128 = nq as u128;
    let nvu: u128 = nv as u128;
    proof {
        assert((nqu as int) * (nvu as int) <= 4096 * 1000000000000 * 4096 * 1000000000000
            && (nqu as int) * (nvu as int) >= 1) by (nonlinear_arith)
            requires
                1 <= nqu as int <= 4096 * 1000000000000,
                1 <= nvu as int <= 4096 * 1000000000000,
        ;
    }
    let prod: u128 = nqu * nvu;
    let s = isqrt_u128(prod);
    proof {
        lemma_isqrt_bounds(prod as nat);
        if s == 0 {
            assert((isqrt_spec(prod as nat) + 1) * (isqrt_spec(prod as nat) + 1) == 1)
                by (nonlinear_arith)
                requires
                    isqrt_spec(prod as nat) == 0,
            ;
            assert(false);
        }
    }
    let num: u128 = 1000u128 * (d as u128);
    let score: u128 = num / s;
    let r: i64 = if score > 1000 {
        1000
    } else {
        score as i64
    };
    proof {
        assert(num as int == 1000 * (d as int));
        assert(num / s == num as nat / s as nat);
    }
    r
}

/// Pairs `(id, score)` in non-increasing score order.
pub open spec fn sorted_desc(s: Seq<(i64, i64)>) -> bool {
    forall|i: int, j: int| 0 <= i <= j < s.len() ==> #[trigger] s[i].1 >= #[trigger] s[j].1
}

/// Index of a maximal score.
fn find_max_idx(v: &Vec<(i64, i64)>) -> (m: usize)
    requires
        v@.len() > 0,
    ensures
        m < v@.len(),
        forall|j: int| 0 <= j < v@.len() ==> v@[j].1 <= v@[m as int].1,
{
    let len = v.len();
    let mut m: usize = 0;
    let mut i: usize = 1;
    while i < len
        invariant
            len == v@.len(),
            m < i <= len,
            forall|j: int| 0 <= j < i ==> v@[j].1 <= v@[m as int].1,
        decreases len - i,
    {
        if v[i].1 > v[m].1 {
            m = i;
        }
        i += 1;
    }
    m
}

/// Sort pairs by score, highest first; the result is a permutation.
pub fn sort_by_score_desc(v: Vec<(i64, i64)>) -> (r: Vec<(i64, i64)>)
    ensures
        sorted_desc(r@),
        r@.to_multiset() == v@.to_multiset(),
        r@.len() == v@.len(),
{
    let mut src = v;
    let mut out: Vec<(i64, i64)> = Vec::new();
    while src.len() > 0
        invariant
            v@.to_multiset() == out@.to_multiset().add(src@.to_multiset()),
            v@.len() == out@.len() + src@.len(),
            sorted_desc(out@),
            out@.len() > 0 ==> forall|j: int|
                0 <= j < src@.len() ==> src@[j].1 <= out@[out@.len() - 1].1,
        decreases src@.len(),
    {
        let ghost pre_out = out@;
        let ghost pre_src = src@;
        let m = find_max_idx(&src);
        let e = src.remove(m);
        out.push(e);
        proof {
            assert(src@.to_multiset() =~= pre_src.to_multiset().remove(e));
            assert(out@.to_multiset() =~= pre_out.to_multiset().insert(e));
            assert(out@.to_multiset().add(src@.to_multiset()) =~= pre_out.to_multiset().add(
                pre_src.to_multiset(),
            )) by {
                assert(pre_src.contains(e));
                assert(pre_src.to_multiset().count(e) > 0);
            }
            assert forall|j: int| 0 <= j < src@.len() implies src@[j].1 <= out@[out@.len() - 1].1 by {
                assert(src@[j] == pre_src.remove(m as int)[j]);
            }
            assert(sorted_desc(out@)) by {
                assert(forall|i: int|
                    0 <= i < pre_out.len() ==> e.1 <= #[trigger] pre_out[i].1);
            }
        }
    }
    out
}

/// The embedder model slot, with its in-memory vector store of prior
/// documents tagged by subject.
pub struct VectorStore {
    vectors: Vec<Vec<i64>>,
    documents: Vec<Vec<u8>>,
    subjects: Vec<Vec<u8>>,
}

/// The deterministic embedding of a text: byte-frequency counts over
/// `EMBED_DIM` buckets, each saturating at the entry bound.
pub open spec fn zeros_spec(n: nat) -> Seq<i64> {
    Seq::new(n, |i: int| 0i64)
}

pub open spec fn bump_spec(v: Seq<i64>, b: u8) -> Seq<i64> {
    if v[b as int] < 1000000 {
        v.update(b as int, (v[b as int] + 1) as i64)
    } else {
        v
    }
}

pub open spec fn embed_spec(t: Seq<u8>) -> Seq<i64>
    decreases t.len(),
{
    if t.len() == 0 {
        zeros_spec(384)
    } else {
        bump_spec(embed_spec(t.drop_last()), t.last())
    }
}

pub proof fn lemma_embed_wf(t: Seq<u8>)
    ensures
        embed_spec(t).len() == 384,
        embedding_wf(embed_spec(t)),
        forall|i: int| 0 <= i < 384 ==> 0 <= #[trigger] embed_spec(t)[i],
    decreases t.len(),
{
    if t.len() > 0 {
        lemma_embed_wf(t.drop_last());
    }
}

/// Index of the last subject equal to `f`, if any.
pub open spec fn last_subject_at(subs: Seq<Seq<u8>>, f: Seq<u8>) -> Option<int>
    decreases subs.len(),
{
    if subs.len() == 0 {
        None
    } else if subs.last() == f {
        Some(subs.len() - 1)
    } else {
        last_subject_at(subs.drop_last(), f)
    }
}

/// A retrieved document framed as a context block:
/// "(Context from <subject> notes): <doc>".
pub open spec fn context_frame(subject: Seq<u8>, doc: Seq<u8>) -> Seq<u8> {
    seq![40u8, 67u8, 111u8, 110u8, 116u8, 101u8, 120u8, 116u8, 32u8, 102u8, 114u8, 111u8, 109u8, 32u8]
        + subject + seq![32u8, 110u8, 111u8, 116u8, 101u8, 115u8, 41u8, 58u8, 32u8] + doc
}

impl VectorStore {
    /// Views of the stored documents.
    pub closed spec fn doc_views(&self) -> Seq<Seq<u8>> {
        Seq::new(self.documents@.len(), |i: int| self.documents@[i]@)
    }

    /// Views of the stored subject tags.
    pub closed spec fn subject_views(&self) -> Seq<Seq<u8>> {
        Seq::new(self.subjects@.len(), |i: int| self.subjects@[i]@)
    }

    /// One subject and one embedding per document.
    pub open spec fn wf(&self) -> bool {
        self.doc_views().len() == self.subject_views().len()
    }

    pub fn new() -> (r: Self)
        ensures
            r.wf(),
            r.doc_views().len() == 0,
    {
        VectorStore { vectors: Vec::new(), documents: Vec::new(), subjects: Vec::new() }
    }

    /// Embed `text` deterministically; the result is well-formed.
    pub fn embed(&self, text: &[u8]) -> (r: Vec<i64>)
        ensures
            r@ == embed_spec(text@),
            embedding_wf(r@),
            r@.len() == 384,
    {
        let mut v: Vec<i64> = Vec::new();
        let mut z: usize = 0;
        while z < 384
            invariant
                0 <= z <= 384,
                v@.len() == z,
                forall|i: int| 0 <= i < z ==> v@[i] == 0i64,
            decreases 384 - z,
        {
            v.push(0);
            z += 1;
        }
        proof {
            assert(v@ =~= zeros_spec(384));
        }
        let len = text.len();
        let mut i: usize = 0;
        while i < len
            invariant
                len == text@.len(),
                0 <= i <= len,
                v@ == embed_spec(text@.take(i as int)),
                v@.len() == 384,
                forall|k: int| 0 <= k < 384 ==> 0 <= #[trigger] v@[k] <= 1000000,
            decreases len - i,
        {
            let ghost pre = v@;
            proof {
                assert(text@.take(i + 1).drop_last() =~= text@.take(i as int));
                assert(text@.take(i + 1).last() == text@[i as int]);
            }
            let b = text[i] as usize;
            if v[b] < 1000000 {
                let nv = v[b] + 1;
                v[b] = nv;
            }
            proof {
                assert(v@ =~= bump_spec(pre, text@[i as int]));
            }
            i += 1;
        }
        proof {
            assert(text@.take(len as int) =~= text@);
            lemma_embed_wf(text@);
        }
        v
    }

    /// Number of stored documents.
    pub fn document_count(&self) -> (r: usize)
        ensures
            r == self.doc_views().len(),
    {
        self.documents.len()
    }

    /// Store a document with its embedding and subject tag.
    pub fn add_document(&mut self, text: &[u8], subject: &[u8])
        requires
            old(self).wf(),
        ensures
            final(self).wf(),
            final(self).doc_views() == old(self).doc_views().push(text@),
            final(self).subject_views() == old(self).subject_views().push(subject@),
    {
        let emb = self.embed(text);
        self.vectors.push(emb);
        let mut doc: Vec<u8> = Vec::new();
        doc.extend_from_slice(text);
        proof {
            assert(doc@ =~= text@);
        }
        self.documents.push(doc);
        let mut sub: Vec<u8> = Vec::new();
        sub.extend_from_slice(subject);
        proof {
            assert(sub@ =~= subject@);
        }
        self.subjects.push(sub);
        proof {
            assert(self.doc_views() =~= old(self).doc_views().push(text@));
            assert(self.subject_views() =~= old(self).subject_views().push(subject@));
        }
    }

    /// The most recent stored document whose subject matches, framed as a
    /// context block; empty when none matches.
    pub fn unwrap_context(&self, _query_embedding: &[i64], filter_subject: &[u8]) -> (r: Vec<u8>)
        requires
            self.wf(),
        ensures
            match last_subject_at(self.subject_views(), filter_subject@) {
                Some(i) => r@ == context_frame(filter_subject@, self.doc_views()[i]),
                None => r@.len() == 0,
            },
    {
        let mut r: Vec<u8> = Vec::new();
        let n = self.subjects.len();
        let mut i: usize = n;
        proof {
            assert(self.subject_views().take(i as int) =~= self.subject_views());
            assert(r@ =~= Seq::<u8>::empty());
        }
        while i > 0
            invariant
                self.wf(),
                n == self.subjects@.len(),
                i <= n,
                r@ == Seq::<u8>::empty(),
                last_subject_at(self.subject_views(), filter_subject@) == last_subject_at(
                    self.subject_views().take(i as int),
                    filter_subject@,
                ),
            decreases i,
        {
            proof {
                assert(self.subject_views().take(i as int).last() == self.subject_views()[i - 1]);
                assert(self.subject_views().take(i as int).drop_last() =~= self.subject_views()
                    .take(i - 1));
                assert(self.subject_views()[i - 1] == self.subjects@[i - 1]@);
            }
            if crate::textutil::eq_bytes(self.subjects[i - 1].as_slice(), filter_subject) {
                let hdr: [u8; 14] = [
                    40, 67, 111, 110, 116, 101, 120, 116, 32, 102, 114, 111, 109, 32,
                ];
                let mid: [u8; 9] = [32, 110, 111, 116, 101, 115, 41, 58, 32];
                proof {
                    assert(hdr@ =~= seq![
                        40u8, 67u8, 111u8, 110u8, 116u8, 101u8, 120u8, 116u8, 32u8, 102u8, 114u8,
                        111u8, 109u8, 32u8,
                    ]);
                    assert(mid@ =~= seq![32u8, 110u8, 111u8, 116u8, 101u8, 115u8, 41u8, 58u8, 32u8]);
                }
                r.extend_from_slice(hdr.as_slice());
                r.extend_from_slice(filter_subject);
                r.extend_from_slice(mid.as_slice());
                r.extend_from_slice(self.documents[i - 1].as_slice());
                proof {
                    assert(self.doc_views()[i - 1] == self.documents@[i - 1]@);
                    assert(r@ =~= context_frame(filter_subject@, self.doc_views()[i - 1]));
                }
                return r;
            }
            i -= 1;
        }
        r
    }
}

} // verus!
