//! Rolling transcript buffer: a character-bounded text accumulator that,
//! on overflow, evicts an oldest prefix ending at the earliest sentence
//! mark (`.` or newline) within the overflow window plus a 500-byte
//! look-ahead. With no mark there, the cut falls back to the overflow
//! point, extended through the word split by it (to the first space at or
//! after it in the window), so the buffer never leads with a word
//! fragment.

use vstd::prelude::*;
use vstd::string::StringSliceAdditionalSpecFns;

verus! {

/// A text followed by a single space separator, appended to a buffer.
pub open spec fn appended(buf: Seq<u8>, text: Seq<u8>) -> Seq<u8> {
    buf + text + seq![32u8]
}

/// A sentence mark: `.` or newline.
pub open spec fn is_cut_mark(x: u8) -> bool {
    x == 46 || x == 10
}

/// The earliest sentence mark of `b` stands at `i`, looking no further
/// than `limit`.
pub open spec fn mark_first_at(b: Seq<u8>, limit: int, i: int) -> bool {
    0 <= i < limit && i < b.len() && is_cut_mark(b[i]) && forall|j: int|
        0 <= j < i ==> !is_cut_mark(b[j])
}

/// No sentence mark occurs in the first `limit` bytes of `b`.
pub open spec fn no_mark_upto(b: Seq<u8>, limit: int) -> bool {
    forall|j: int| 0 <= j < limit ==> !is_cut_mark(b[j])
}

/// The first space of `b` at or after `from`, below `limit`, stands at `i`.
pub open spec fn space_first_from(b: Seq<u8>, from: int, limit: int, i: int) -> bool {
    from <= i < limit && i < b.len() && b[i] == 32 && forall|j: int|
        from <= j < i ==> b[j] != 32
}

/// No space occurs in `b` within `[from, limit)`.
pub open spec fn no_space_from(b: Seq<u8>, from: int, limit: int) -> bool {
    forall|j: int| from <= j < limit ==> b[j] != 32
}

/// The eviction cut point: one past the earliest sentence mark in the
/// window; with no mark, one past the first space at or after the
/// overflow point (dropping the word the overflow would split); with no
/// such space either, the raw overflow amount.
pub open spec fn cut_at(b: Seq<u8>, ov: int, lim: int, c: int) -> bool {
    ||| (exists|i: int| mark_first_at(b, lim, i) && c == i + 1)
    ||| (no_mark_upto(b, lim) && exists|i: int| space_first_from(b, ov, lim, i) && c == i + 1)
    ||| (no_mark_upto(b, lim) && no_space_from(b, ov, lim) && c == ov)
}

/// A single leading space left by eviction is removed.
pub open spec fn strip_lead_space(s: Seq<u8>) -> Seq<u8> {
    if s.len() > 0 && s[0] == 32 {
        s.drop_first()
    } else {
        s
    }
}

/// How far the appended buffer exceeds the bound.
pub open spec fn overflow_of(a: Seq<u8>, max: int) -> int {
    a.len() - max
}

/// The search window for a sentence mark: the overflow amount plus a
/// 500-byte look-ahead, capped at the buffer length.
pub open spec fn window_of(a: Seq<u8>, max: int) -> int {
    if a.len() < overflow_of(a, max) + 500 {
        a.len() as int
    } else {
        overflow_of(a, max) + 500
    }
}

/// Full behaviour of one `push`: append `text` and a space; if the result
/// exceeds `max`, evict through the cut point of the window
/// `[0, min(len, overflow + 500))` — the earliest sentence mark, else the
/// end of the word the overflow splits, else the overflow point — then
/// strip one leading space.
pub open spec fn push_result(old_buf: Seq<u8>, text: Seq<u8>, max: int, new_buf: Seq<u8>) -> bool {
    if text.len() == 0 {
        new_buf == old_buf
    } else if appended(old_buf, text).len() <= max {
        new_buf == appended(old_buf, text)
    } else {
        exists|c: int|
            0 <= c <= appended(old_buf, text).len() && #[trigger] cut_at(
                appended(old_buf, text),
                overflow_of(appended(old_buf, text), max),
                window_of(appended(old_buf, text), max),
                c,
            ) && new_buf == strip_lead_space(appended(old_buf, text).skip(c))
    }
}

/// First index below `limit` holding a sentence mark, if any.
fn find_mark_upto(h: &[u8], limit: usize) -> (r: Option<usize>)
    requires
        limit <= h@.len(),
    ensures
        match r {
            Some(i) => mark_first_at(h@, limit as int, i as int),
            None => no_mark_upto(h@, limit as int),
        },
{
    let mut i: usize = 0;
    while i < limit
        invariant
            limit <= h@.len(),
            0 <= i <= limit,
            forall|j: int| 0 <= j < i ==> !is_cut_mark(h@[j]),
        decreases limit - i,
    {
        if h[i] == 46 || h[i] == 10 {
            return Some(i);
        }
        i += 1;
    }
    None
}

/// First space in `[from, limit)`, if any.
fn find_space_from(h: &[u8], from: usize, limit: usize) -> (r: Option<usize>)
    requires
        from <= limit <= h@.len(),
    ensures
        match r {
            Some(i) => space_first_from(h@, from as int, limit as int, i as int),
            None => no_space_from(h@, from as int, limit as int),
        },
{
    let mut i: usize = from;
    while i < limit
        invariant
            from <= i <= limit <= h@.len(),
            forall|j: int| from <= j < i ==> h@[j] != 32,
        decreases limit - i,
    {
        if h[i] == 32 {
            return Some(i);
        }
        i += 1;
    }
    None
}

/// Locate the eviction cut point in `b` for overflow `ov`, looking at the
/// window `[0, lim)`.
fn find_cut(b: &[u8], ov: usize, lim: usize) -> (c: usize)
    requires
        ov <= lim <= b@.len(),
    ensures
        cut_at(b@, ov as int, lim as int, c as int),
        c <= b@.len(),
{
    match find_mark_upto(b, lim) {
        Some(i) => i + 1,
        None => {
            match find_space_from(b, ov, lim) {
                Some(i) => i + 1,
                None => ov,
            }
        },
    }
}

/// Holds the last `max_length` (plus the latest push) bytes of transcript,
/// to feed downstream summarization.
pub struct RollingBuffer {
    buffer: Vec<u8>,
    max_length: usize,
}

impl RollingBuffer {
    /// The buffered transcript bytes.
    pub closed spec fn contents(&self) -> Seq<u8> {
        self.buffer@
    }

    /// The configured bound on the buffered length.
    pub closed spec fn max_len(&self) -> int {
        self.max_length as int
    }

    pub fn new(max_length: usize) -> (r: Self)
        ensures
            r.contents() == Seq::<u8>::empty(),
            r.max_len() == max_length,
    {
        let r = RollingBuffer { buffer: Vec::new(), max_length };
        proof {
            assert(r.buffer@ =~= Seq::<u8>::empty());
        }
        r
    }

    /// Append `text` and a space separator, evicting an oldest prefix at a
    /// sentence boundary when the buffer would exceed its bound.
    pub fn push_bytes(&mut self, text: &[u8]) -> (emptied: bool)
        ensures
            push_result(old(self).contents(), text@, old(self).max_len(), final(self).contents()),
            final(self).max_len() == old(self).max_len(),
            emptied == (text@.len() == 0),
    {
        if text.len() == 0 {
            return true;
        }
        let ghost a = appended(old(self).buffer@, text@);
        self.buffer.extend_from_slice(text);
        self.buffer.push(32);
        proof {
            assert(self.buffer@ =~= a);
        }
        let len = self.buffer.len();
        if len > self.max_length {
            let ov = len - self.max_length;
            let lim = if len - ov > 500 {
                ov + 500
            } else {
                len
            };
            let cut: usize = find_cut(self.buffer.as_slice(), ov, lim);
            assert(cut_at(a, ov as int, lim as int, cut as int));
            assert(0 <= cut <= len);
            let mut rest: Vec<u8> = Vec::new();
            let mut i: usize = cut;
            while i < len
                invariant
                    cut <= i <= len,
                    len == self.buffer@.len(),
                    rest@ == self.buffer@.subrange(cut as int, i as int),
                decreases len - i,
            {
                rest.push(self.buffer[i]);
                proof {
                    assert(self.buffer@.subrange(cut as int, i + 1) =~= self.buffer@.subrange(
                        cut as int,
                        i as int,
                    ).push(self.buffer@[i as int]));
                }
                i += 1;
            }
            proof {
                assert(rest@ =~= a.skip(cut as int));
            }
            self.buffer = rest;
            if self.buffer.len() > 0 && self.buffer[0] == 32 {
                self.buffer.remove(0);
                proof {
                    assert(self.buffer@ =~= strip_lead_space(a.skip(cut as int)));
                }
            }
            assert(self.buffer@ == strip_lead_space(a.skip(cut as int)));
            proof {
                let maxi = old(self).max_length as int;
                assert(ov as int == overflow_of(a, maxi));
                assert(lim as int == window_of(a, maxi));
                assert(cut_at(a, overflow_of(a, maxi), window_of(a, maxi), cut as int));
            }
        }
        assert(push_result(old(self).contents(), text@, old(self).max_len(), self.contents()));
        false
    }

    /// `push` with text given as a string slice.
    pub fn push(&mut self, text: &str)
        ensures
            push_result(
                old(self).contents(),
                text.spec_bytes(),
                old(self).max_len(),
                final(self).contents(),
            ),
            final(self).max_len() == old(self).max_len(),
    {
        let _ = self.push_bytes(text.as_bytes());
    }

    /// Read-only view of the buffered transcript.
    pub fn get_context(&self) -> (r: &Vec<u8>)
        ensures
            r@ == self.contents(),
    {
        &self.buffer
    }

    pub fn clear(&mut self)
        ensures
            final(self).contents() == Seq::<u8>::empty(),
            final(self).max_len() == old(self).max_len(),
    {
        self.buffer.clear();
        proof {
            assert(self.buffer@ =~= Seq::<u8>::empty());
        }
    }

    /// Length of the buffered transcript, in bytes.
    pub fn len(&self) -> (r: usize)
        ensures
            r == self.contents().len(),
    {
        self.buffer.len()
    }
}

/// After a push onto a buffer that was within its bound, the buffer holds
/// at most `max + |text| + 1` bytes: eviction removes at least one byte
/// whenever the appended text overflows the bound.
pub proof fn lemma_push_len_bounded(old_buf: Seq<u8>, text: Seq<u8>, max: int, new_buf: Seq<u8>)
    requires
        max >= 0,
        old_buf.len() <= max,
        push_result(old_buf, text, max, new_buf),
    ensures
        new_buf.len() <= max + text.len() + 1,
{
    let a = appended(old_buf, text);
    if text.len() == 0 {
    } else if a.len() <= max {
    } else {
        let ov = overflow_of(a, max);
        let lim = window_of(a, max);
        let c = choose|c: int|
            0 <= c <= a.len() && #[trigger] cut_at(a, ov, lim, c) && new_buf == strip_lead_space(
                a.skip(c),
            );
        assert(new_buf.len() <= a.skip(c).len());
        if c >= 1 {
            assert(a.skip(c).len() <= a.len() - 1);
        } else {
            assert(cut_at(a, ov, lim, c));
            assert(c == ov);
            assert(ov >= 1);
        }
    }
}

} // verus!
