//! Extractive summarizer: splits text into sentences, keeps significant
//! ones (long enough, not blank-audio artifacts, deduplicated case-
//! insensitively, and either carrying a key phrase or over 25 bytes), and
//! falls back to the first three sentences over 10 bytes, or to the whole
//! text, when nothing qualifies.

use vstd::prelude::*;

use crate::textutil::{contains_seq, contains_sub, eq_bytes, lower_bytes, lower_seq, trim_bytes, trim_seq};

verus! {

/// The byte sequences of a list of byte vectors.
pub open spec fn views_of(v: Seq<Vec<u8>>) -> Seq<Seq<u8>> {
    Seq::new(v.len(), |i: int| v[i]@)
}

/// Sentence terminators: `.`, `?`, `!`.
pub open spec fn is_sentence_end(b: u8) -> bool {
    b == 46 || b == 63 || b == 33
}

/// Split on sentence terminators, keeping empty segments, as `str::split`
/// does.
pub open spec fn split_sentences_spec(t: Seq<u8>) -> Seq<Seq<u8>>
    decreases t.len(),
{
    if t.len() == 0 {
        seq![Seq::<u8>::empty()]
    } else if is_sentence_end(t.last()) {
        split_sentences_spec(t.drop_last()).push(Seq::<u8>::empty())
    } else {
        let r = split_sentences_spec(t.drop_last());
        r.update(r.len() - 1, r.last().push(t.last()))
    }
}

pub proof fn lemma_split_nonempty(t: Seq<u8>)
    ensures
        split_sentences_spec(t).len() >= 1,
    decreases t.len(),
{
    if t.len() > 0 {
        lemma_split_nonempty(t.drop_last());
    }
}

/// The bytes of "[BLANK_AUDIO]".
pub open spec fn blank_marker() -> Seq<u8> {
    seq![91u8, 66u8, 76u8, 65u8, 78u8, 75u8, 95u8, 65u8, 85u8, 68u8, 73u8, 79u8, 93u8]
}

/// The lowered key phrases that mark a sentence significant.
pub open spec fn key_phrases() -> Seq<Seq<u8>> {
    seq![
        seq![105u8, 109u8, 112u8, 111u8, 114u8, 116u8, 97u8, 110u8, 116u8],
        seq![114u8, 101u8, 109u8, 101u8, 109u8, 98u8, 101u8, 114u8],
        seq![110u8, 111u8, 116u8, 101u8],
        seq![115u8, 117u8, 109u8, 109u8, 97u8, 114u8, 121u8],
        seq![99u8, 111u8, 110u8, 99u8, 108u8, 117u8, 115u8, 105u8, 111u8, 110u8],
        seq![105u8, 100u8, 101u8, 97u8],
        seq![99u8, 111u8, 110u8, 99u8, 101u8, 112u8, 116u8],
        seq![107u8, 101u8, 121u8],
    ]
}

/// The lowered sentence holds some key phrase.
pub open spec fn has_key_phrase(tl: Seq<u8>) -> bool {
    exists|i: int| 0 <= i < key_phrases().len() && contains_seq(tl, key_phrases()[i])
}

/// The significant sentences of `sents`, given the lowered sentences
/// already seen: trimmed, at least 15 bytes, no blank-audio artifact, not
/// seen before, and key-phrased or over 25 bytes. A sentence enters the
/// seen list once it passes the first three checks, whether kept or not.
pub open spec fn significant_of(sents: Seq<Seq<u8>>, seen: Seq<Seq<u8>>) -> Seq<Seq<u8>>
    decreases sents.len(),
{
    if sents.len() == 0 {
        Seq::empty()
    } else {
        let t = trim_seq(sents[0]);
        let tl = lower_seq(t);
        if t.len() < 15 || contains_seq(t, blank_marker()) || seen.contains(tl) {
            significant_of(sents.drop_first(), seen)
        } else if has_key_phrase(tl) || t.len() > 25 {
            seq![t] + significant_of(sents.drop_first(), seen.push(tl))
        } else {
            significant_of(sents.drop_first(), seen.push(tl))
        }
    }
}

/// The first `k` sentences over 10 raw bytes, trimmed.
pub open spec fn fallback_of(sents: Seq<Seq<u8>>, k: int) -> Seq<Seq<u8>>
    decreases sents.len(),
{
    if sents.len() == 0 || k <= 0 {
        Seq::empty()
    } else if sents[0].len() > 10 {
        seq![trim_seq(sents[0])] + fallback_of(sents.drop_first(), k - 1)
    } else {
        fallback_of(sents.drop_first(), k)
    }
}

/// Parts joined by a separator.
pub open spec fn joined(parts: Seq<Seq<u8>>, sep: Seq<u8>) -> Seq<u8>
    decreases parts.len(),
{
    if parts.len() == 0 {
        Seq::empty()
    } else if parts.len() == 1 {
        parts[0]
    } else {
        parts[0] + sep + joined(parts.drop_first(), sep)
    }
}

pub proof fn lemma_joined_push(parts: Seq<Seq<u8>>, sep: Seq<u8>, x: Seq<u8>)
    ensures
        joined(parts.push(x), sep) == if parts.len() == 0 {
            x
        } else {
            joined(parts, sep) + sep + x
        },
    decreases parts.len(),
{
    if parts.len() == 0 {
        assert(parts.push(x)[0] =~= x);
        assert(joined(parts.push(x), sep) == x);
    } else {
        lemma_joined_push(parts.drop_first(), sep, x);
        assert(parts.push(x).drop_first() =~= parts.drop_first().push(x));
        if parts.len() == 1 {
            assert(joined(parts.push(x), sep) =~= parts[0] + sep + x);
            assert(joined(parts, sep) == parts[0]);
        } else {
            assert(joined(parts.push(x), sep) =~= parts[0] + sep + joined(
                parts.drop_first().push(x),
                sep,
            ));
            assert(joined(parts, sep) + sep + x =~= parts[0] + sep + (joined(
                parts.drop_first(),
                sep,
            ) + sep + x));
        }
    }
}

/// The bytes of "Key Takeaways:\n- ".
pub open spec fn takeaways_header() -> Seq<u8> {
    seq![
        75u8, 101u8, 121u8, 32u8, 84u8, 97u8, 107u8, 101u8, 97u8, 119u8, 97u8, 121u8, 115u8, 58u8,
        10u8, 45u8, 32u8,
    ]
}

/// The bytes of "Summary:\n- ".
pub open spec fn summary_header() -> Seq<u8> {
    seq![83u8, 117u8, 109u8, 109u8, 97u8, 114u8, 121u8, 58u8, 10u8, 45u8, 32u8]
}

/// The bytes of "Main points: ".
pub open spec fn main_points_header() -> Seq<u8> {
    seq![77u8, 97u8, 105u8, 110u8, 32u8, 112u8, 111u8, 105u8, 110u8, 116u8, 115u8, 58u8, 32u8]
}

/// The bytes of ".\n- ".
pub open spec fn item_separator() -> Seq<u8> {
    seq![46u8, 10u8, 45u8, 32u8]
}

/// The whole summary of `text`.
pub open spec fn summarize_spec(text: Seq<u8>) -> Seq<u8> {
    if trim_seq(text).len() == 0 {
        Seq::empty()
    } else {
        let sig = significant_of(split_sentences_spec(text), Seq::empty());
        if sig.len() > 0 {
            takeaways_header() + joined(sig, item_separator())
        } else {
            let fb = fallback_of(split_sentences_spec(text), 3);
            if fb.len() > 0 {
                summary_header() + joined(fb, item_separator())
            } else {
                main_points_header() + text
            }
        }
    }
}

/// Split `text` on sentence terminators, keeping empty segments.
fn split_sentences(text: &[u8]) -> (r: Vec<Vec<u8>>)
    ensures
        views_of(r@) == split_sentences_spec(text@),
        r@.len() >= 1,
{
    let mut segs: Vec<Vec<u8>> = Vec::new();
    let mut cur: Vec<u8> = Vec::new();
    let len = text.len();
    let mut i: usize = 0;
    while i < len
        invariant
            len == text@.len(),
            0 <= i <= len,
            split_sentences_spec(text@.take(i as int)) =~= views_of(segs@).push(cur@),
        decreases len - i,
    {
        let ghost pre_segs = views_of(segs@);
        let ghost pre_cur = cur@;
        proof {
            assert(text@.take(i + 1).drop_last() =~= text@.take(i as int));
            assert(text@.take(i + 1).last() == text@[i as int]);
        }
        let b = text[i];
        if b == 46 || b == 63 || b == 33 {
            segs.push(cur);
            cur = Vec::new();
            proof {
                assert(views_of(segs@) =~= pre_segs.push(pre_cur));
                assert(split_sentences_spec(text@.take(i + 1)) =~= views_of(segs@).push(cur@));
            }
        } else {
            cur.push(b);
            proof {
                let prev = pre_segs.push(pre_cur);
                assert(split_sentences_spec(text@.take(i + 1)) =~= prev.update(
                    prev.len() - 1,
                    prev.last().push(text@[i as int]),
                ));
                assert(prev.update(prev.len() - 1, prev.last().push(text@[i as int])) =~= views_of(
                    segs@,
                ).push(cur@));
            }
        }
        i += 1;
    }
    proof {
        assert(text@.take(len as int) =~= text@);
    }
    segs.push(cur);
    proof {
        lemma_split_nonempty(text@);
        assert(views_of(segs@) =~= split_sentences_spec(text@));
    }
    segs
}

/// Whether the lowered sentence holds a key phrase.
fn has_key(tl: &[u8]) -> (r: bool)
    ensures
        r == has_key_phrase(tl@),
{
    let k0: [u8; 9] = [105, 109, 112, 111, 114, 116, 97, 110, 116];
    let k1: [u8; 8] = [114, 101, 109, 101, 109, 98, 101, 114];
    let k2: [u8; 4] = [110, 111, 116, 101];
    let k3: [u8; 7] = [115, 117, 109, 109, 97, 114, 121];
    let k4: [u8; 10] = [99, 111, 110, 99, 108, 117, 115, 105, 111, 110];
    let k5: [u8; 4] = [105, 100, 101, 97];
    let k6: [u8; 7] = [99, 111, 110, 99, 101, 112, 116];
    let k7: [u8; 3] = [107, 101, 121];
    proof {
        assert(k0@ =~= key_phrases()[0]);
        assert(k1@ =~= key_phrases()[1]);
        assert(k2@ =~= key_phrases()[2]);
        assert(k3@ =~= key_phrases()[3]);
        assert(k4@ =~= key_phrases()[4]);
        assert(k5@ =~= key_phrases()[5]);
        assert(k6@ =~= key_phrases()[6]);
        assert(k7@ =~= key_phrases()[7]);
    }
    let r = contains_sub(tl, k0.as_slice()) || contains_sub(tl, k1.as_slice()) || contains_sub(
        tl,
        k2.as_slice(),
    ) || contains_sub(tl, k3.as_slice()) || contains_sub(tl, k4.as_slice()) || contains_sub(
        tl,
        k5.as_slice(),
    ) || contains_sub(tl, k6.as_slice()) || contains_sub(tl, k7.as_slice());
    r
}

/// Whether `x` is among the seen sentences.
fn seen_contains(seen: &Vec<Vec<u8>>, x: &[u8]) -> (r: bool)
    ensures
        r == views_of(seen@).contains(x@),
{
    let len = seen.len();
    let mut i: usize = 0;
    while i < len
        invariant
            len == seen@.len(),
            0 <= i <= len,
            forall|j: int| 0 <= j < i ==> views_of(seen@)[j] != x@,
        decreases len - i,
    {
        if eq_bytes(seen[i].as_slice(), x) {
            assert(views_of(seen@)[i as int] == x@);
            return true;
        }
        i += 1;
    }
    proof {
        assert(forall|j: int| 0 <= j < views_of(seen@).len() ==> views_of(seen@)[j] != x@);
    }
    false
}

/// The summarizer model slot: an extractive heuristic with no weight file.
pub struct LlmModel {
    loaded: bool,
}

impl LlmModel {
    pub closed spec fn is_loaded(&self) -> bool {
        self.loaded
    }

    pub fn load(_models_dir: &[u8]) -> (r: Self)
        ensures
            r.is_loaded(),
    {
        LlmModel { loaded: true }
    }

    /// Summarize `text`: the significant sentences under a header, else
    /// the fallback sentences, else the text itself; empty when the model
    /// is not loaded or the text is blank.
    pub fn summarize(&self, text: &[u8]) -> (r: Vec<u8>)
        ensures
            self.is_loaded() ==> r@ == summarize_spec(text@),
            !self.is_loaded() ==> r@ == Seq::<u8>::empty(),
    {
        let mut out: Vec<u8> = Vec::new();
        if !self.loaded {
            proof {
                assert(out@ =~= Seq::<u8>::empty());
            }
            return out;
        }
        let trimmed = trim_bytes(text);
        if trimmed.len() == 0 {
            proof {
                assert(out@ =~= Seq::<u8>::empty());
            }
            return out;
        }
        let sents = split_sentences(text);
        let ghost sents_dv = views_of(sents@);
        let n = sents.len();

        // Pass 1: significant sentences.
        let mut sig: Vec<Vec<u8>> = Vec::new();
        let mut seen: Vec<Vec<u8>> = Vec::new();
        let blank: [u8; 13] = [91, 66, 76, 65, 78, 75, 95, 65, 85, 68, 73, 79, 93];
        proof {
            assert(blank@ =~= blank_marker());
        }
        let mut i: usize = 0;
        proof {
            assert(sents_dv.skip(0) =~= sents_dv);
            assert(views_of(sig@) =~= Seq::<Seq<u8>>::empty());
            assert(views_of(seen@) =~= Seq::<Seq<u8>>::empty());
        }
        while i < n
            invariant
                n == sents@.len(),
                views_of(sents@) == sents_dv,
                0 <= i <= n,
                blank@ == blank_marker(),
                significant_of(sents_dv, Seq::empty()) =~= views_of(sig@) + significant_of(
                    sents_dv.skip(i as int),
                    views_of(seen@),
                ),
            decreases n - i,
        {
            let ghost pre_sig = views_of(sig@);
            let ghost pre_seen = views_of(seen@);
            let ghost head = sents_dv[i as int];
            proof {
                assert(sents_dv.skip(i as int).drop_first() =~= sents_dv.skip(i + 1));
                assert(sents_dv.skip(i as int)[0] == sents_dv[i as int]);
                assert(head == sents@[i as int]@);
            }
            let t = trim_bytes(sents[i].as_slice());
            assert(t@ == trim_seq(head));
            if t.len() >= 15 && !contains_sub(t.as_slice(), blank.as_slice()) {
                let tl = lower_bytes(t.as_slice());
                assert(tl@ == lower_seq(trim_seq(head)));
                if !seen_contains(&seen, tl.as_slice()) {
                    let keep = has_key(tl.as_slice()) || t.len() > 25;
                    let ghost tl_v = tl@;
                    seen.push(tl);
                    proof {
                        assert(views_of(seen@) =~= pre_seen.push(tl_v));
                    }
                    if keep {
                        let ghost t_v = t@;
                        sig.push(t);
                        proof {
                            assert(views_of(sig@) =~= pre_sig.push(t_v));
                            assert(significant_of(sents_dv.skip(i as int), pre_seen) == seq![t_v]
                                + significant_of(sents_dv.skip(i + 1), pre_seen.push(tl_v)));
                            assert(pre_sig.push(t_v) + significant_of(
                                sents_dv.skip(i + 1),
                                pre_seen.push(tl_v),
                            ) =~= pre_sig + (seq![t_v] + significant_of(
                                sents_dv.skip(i + 1),
                                pre_seen.push(tl_v),
                            )));
                        }
                    } else {
                        proof {
                            assert(significant_of(sents_dv.skip(i as int), pre_seen)
                                == significant_of(sents_dv.skip(i + 1), pre_seen.push(tl_v)));
                        }
                    }
                } else {
                    proof {
                        assert(pre_seen.contains(lower_seq(trim_seq(head))));
                        assert(significant_of(sents_dv.skip(i as int), pre_seen)
                            == significant_of(sents_dv.skip(i + 1), pre_seen));
                    }
                }
            } else {
                proof {
                    assert(trim_seq(head).len() < 15 || contains_seq(trim_seq(head), blank_marker()));
                    assert(significant_of(sents_dv.skip(i as int), pre_seen) == significant_of(
                        sents_dv.skip(i + 1),
                        pre_seen,
                    ));
                }
            }
            i += 1;
        }
        proof {
            assert(sents_dv.skip(n as int) =~= Seq::<Seq<u8>>::empty());
            assert(significant_of(sents_dv, Seq::empty()) =~= views_of(sig@));
        }

        let sep: [u8; 4] = [46, 10, 45, 32];
        proof {
            assert(sep@ =~= item_separator());
        }

        if sig.len() > 0 {
            let hdr: [u8; 17] = [
                75, 101, 121, 32, 84, 97, 107, 101, 97, 119, 97, 121, 115, 58, 10, 45, 32,
            ];
            proof {
                assert(hdr@ =~= takeaways_header());
            }
            out.extend_from_slice(hdr.as_slice());
            append_joined(&mut out, &sig, &sep);
            proof {
                assert(out@ =~= takeaways_header() + joined(views_of(sig@), item_separator()));
            }
            return out;
        }

        // Pass 2: fallback sentences.
        let mut fb: Vec<Vec<u8>> = Vec::new();
        let mut k: usize = 3;
        let mut i2: usize = 0;
        proof {
            assert(sents_dv.skip(0) =~= sents_dv);
        }
        while i2 < n
            invariant
                n == sents@.len(),
                views_of(sents@) == sents_dv,
                0 <= i2 <= n,
                0 <= k <= 3,
                fallback_of(sents_dv, 3) =~= views_of(fb@) + fallback_of(
                    sents_dv.skip(i2 as int),
                    k as int,
                ),
            decreases n - i2,
        {
            let ghost pre_fb = views_of(fb@);
            proof {
                assert(sents_dv.skip(i2 as int).drop_first() =~= sents_dv.skip(i2 + 1));
                assert(sents_dv.skip(i2 as int)[0] == sents_dv[i2 as int]);
            }
            if k == 0 {
                proof {
                    assert(fallback_of(sents_dv.skip(i2 as int), 0) =~= Seq::<Seq<u8>>::empty());
                    assert(fallback_of(sents_dv.skip(n as int), 0) =~= Seq::<Seq<u8>>::empty());
                }
                i2 = n;
            } else {
                if sents[i2].len() > 10 {
                    let t = trim_bytes(sents[i2].as_slice());
                    let ghost t_v = t@;
                    fb.push(t);
                    k -= 1;
                    proof {
                        assert(views_of(fb@) =~= pre_fb.push(t_v));
                        assert(pre_fb.push(t_v) + fallback_of(sents_dv.skip(i2 + 1), k as int)
                            =~= pre_fb + (seq![t_v] + fallback_of(sents_dv.skip(i2 + 1), k as int)));
                    }
                }
                i2 += 1;
            }
        }
        proof {
            assert(sents_dv.skip(n as int) =~= Seq::<Seq<u8>>::empty());
            assert(fallback_of(sents_dv, 3) =~= views_of(fb@));
        }

        if fb.len() > 0 {
            let hdr: [u8; 11] = [83, 117, 109, 109, 97, 114, 121, 58, 10, 45, 32];
            proof {
                assert(hdr@ =~= summary_header());
            }
            out.extend_from_slice(hdr.as_slice());
            append_joined(&mut out, &fb, &sep);
            proof {
                assert(out@ =~= summary_header() + joined(views_of(fb@), item_separator()));
            }
            return out;
        }

        let hdr: [u8; 13] = [77, 97, 105, 110, 32, 112, 111, 105, 110, 116, 115, 58, 32];
        proof {
            assert(hdr@ =~= main_points_header());
        }
        out.extend_from_slice(hdr.as_slice());
        out.extend_from_slice(text);
        proof {
            assert(out@ =~= main_points_header() + text@);
        }
        out
    }
}

/// Append `parts`, separated by `sep`, to `out`.
fn append_joined(out: &mut Vec<u8>, parts: &Vec<Vec<u8>>, sep: &[u8])
    ensures
        final(out)@ == old(out)@ + joined(views_of(parts@), sep@),
{
    let n = parts.len();
    let mut i: usize = 0;
    while i < n
        invariant
            n == parts@.len(),
            0 <= i <= n,
            out@ == old(out)@ + joined(views_of(parts@).take(i as int), sep@),
        decreases n - i,
    {
        proof {
            assert(views_of(parts@).take(i + 1) =~= views_of(parts@).take(i as int).push(
                views_of(parts@)[i as int],
            ));
            lemma_joined_push(views_of(parts@).take(i as int), sep@, views_of(parts@)[i as int]);
        }
        if i > 0 {
            out.extend_from_slice(sep);
        }
        out.extend_from_slice(parts[i].as_slice());
        proof {
            assert(out@ =~= old(out)@ + joined(views_of(parts@).take(i + 1), sep@));
        }
        i += 1;
    }
    proof {
        assert(views_of(parts@).take(n as int) =~= views_of(parts@));
    }
}

} // verus!
