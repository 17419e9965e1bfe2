//! Byte-string helpers shared by the transcript buffer, the language
//! detector and the summarizer: substring search, trimming, ASCII case
//! folding and decimal formatting, each with an exact specification.

use vstd::prelude::*;

verus! {

/// `n` occurs as a contiguous subrange of `h`.
pub open spec fn contains_seq(h: Seq<u8>, n: Seq<u8>) -> bool {
    exists|i: int| 0 <= i && i + n.len() <= h.len() && #[trigger] h.subrange(i, i + n.len()) == n
}

/// `h` ends with `n`.
pub open spec fn ends_with_seq(h: Seq<u8>, n: Seq<u8>) -> bool {
    n.len() <= h.len() && h.subrange(h.len() - n.len(), h.len() as int) == n
}

/// ASCII whitespace, as trimmed from transcript fragments.
pub open spec fn is_ws(b: u8) -> bool {
    b == 32 || b == 9 || b == 10 || b == 13
}

pub open spec fn trim_start_seq(s: Seq<u8>) -> Seq<u8>
    decreases s.len(),
{
    if s.len() > 0 && is_ws(s.first()) {
        trim_start_seq(s.drop_first())
    } else {
        s
    }
}

pub open spec fn trim_end_seq(s: Seq<u8>) -> Seq<u8>
    decreases s.len(),
{
    if s.len() > 0 && is_ws(s.last()) {
        trim_end_seq(s.drop_last())
    } else {
        s
    }
}

pub open spec fn trim_seq(s: Seq<u8>) -> Seq<u8> {
    trim_end_seq(trim_start_seq(s))
}

/// ASCII lower-casing of one byte.
pub open spec fn lower_byte(b: u8) -> u8 {
    if 65 <= b <= 90 {
        (b + 32) as u8
    } else {
        b
    }
}

pub open spec fn lower_seq(s: Seq<u8>) -> Seq<u8> {
    s.map_values(|b: u8| lower_byte(b))
}

/// Whether the `n.len()` bytes of `h` starting at `at` equal `n`.
fn eq_at(h: &[u8], at: usize, n: &[u8]) -> (r: bool)
    requires
        at + n@.len() <= h@.len(),
    ensures
        r == (h@.subrange(at as int, at + n@.len()) == n@),
{
    let h_len = h.len();
    let n_len = n.len();
    let mut j: usize = 0;
    while j < n_len
        invariant
            at + n@.len() <= h@.len(),
            h_len == h@.len(),
            n_len == n@.len(),
            0 <= j <= n_len,
            forall|k: int| 0 <= k < j ==> h@[at + k] == n@[k],
        decreases n_len - j,
    {
        if h[at + j] != n[j] {
            assert(h@.subrange(at as int, at + n@.len())[j as int] != n@[j as int]);
            return false;
        }
        j += 1;
    }
    assert(h@.subrange(at as int, at + n@.len()) =~= n@);
    true
}

/// Substring search; exactly `contains_seq` on the views.
pub fn contains_sub(h: &[u8], n: &[u8]) -> (r: bool)
    ensures
        r == contains_seq(h@, n@),
{
    let h_len = h.len();
    let n_len = n.len();
    if n_len > h_len {
        return false;
    }
    if n_len == 0 {
        assert(contains_seq(h@, n@)) by {
            assert(h@.subrange(0, 0 + n@.len() as int) =~= n@);
        }
        return true;
    }
    let count = h_len - n_len + 1;
    let mut i: usize = 0;
    while i < count
        invariant
            1 <= n_len <= h_len,
            h_len == h@.len(),
            n_len == n@.len(),
            count == h_len - n_len + 1,
            0 <= i <= count,
            forall|k: int| 0 <= k < i ==> #[trigger] h@.subrange(k, k + n@.len()) != n@,
        decreases count - i,
    {
        if eq_at(h, i, n) {
            return true;
        }
        i += 1;
    }
    false
}

/// Suffix test; exactly `ends_with_seq` on the views.
pub fn ends_with(h: &[u8], n: &[u8]) -> (r: bool)
    ensures
        r == ends_with_seq(h@, n@),
{
    let h_len = h.len();
    let n_len = n.len();
    if n_len > h_len {
        return false;
    }
    eq_at(h, h_len - n_len, n)
}

/// First index below `limit` holding byte `b`, if any.
pub fn find_byte_upto(h: &[u8], limit: usize, b: u8) -> (r: Option<usize>)
    requires
        limit <= h@.len(),
    ensures
        match r {
            Some(i) => i < limit && h@[i as int] == b && forall|j: int|
                0 <= j < i ==> h@[j] != b,
            None => forall|j: int| 0 <= j < limit ==> h@[j] != b,
        },
{
    let mut i: usize = 0;
    while i < limit
        invariant
            limit <= h@.len(),
            0 <= i <= limit,
            forall|j: int| 0 <= j < i ==> h@[j] != b,
        decreases limit - i,
    {
        if h[i] == b {
            return Some(i);
        }
        i += 1;
    }
    None
}

fn is_ws_byte(b: u8) -> (r: bool)
    ensures
        r == is_ws(b),
{
    b == 32 || b == 9 || b == 10 || b == 13
}

proof fn lemma_trim_start_prefix(s: Seq<u8>, i: int)
    requires
        0 <= i <= s.len(),
        forall|j: int| 0 <= j < i ==> is_ws(s[j]),
        i < s.len() ==> !is_ws(s[i]),
    ensures
        trim_start_seq(s) == s.subrange(i, s.len() as int),
    decreases i,
{
    if i == 0 {
        assert(s.subrange(0, s.len() as int) =~= s);
    } else {
        assert(is_ws(s.first()));
        lemma_trim_start_prefix(s.drop_first(), i - 1);
        assert(s.drop_first().subrange(i - 1, s.drop_first().len() as int) =~= s.subrange(
            i,
            s.len() as int,
        ));
    }
}

proof fn lemma_trim_end_suffix(s: Seq<u8>, i: int)
    requires
        0 <= i <= s.len(),
        forall|j: int| i <= j < s.len() ==> is_ws(s[j]),
        i > 0 ==> !is_ws(s[i - 1]),
    ensures
        trim_end_seq(s) == s.subrange(0, i),
    decreases s.len() - i,
{
    if i == s.len() {
        assert(s.subrange(0, s.len() as int) =~= s);
    } else {
        assert(is_ws(s.last()));
        lemma_trim_end_suffix(s.drop_last(), i);
        assert(s.drop_last().subrange(0, i) =~= s.subrange(0, i));
    }
}

/// Copy of `s` with leading and trailing ASCII whitespace removed.
pub fn trim_bytes(s: &[u8]) -> (r: Vec<u8>)
    ensures
        r@ == trim_seq(s@),
{
    let len = s.len();
    let mut start: usize = 0;
    while start < len && is_ws_byte(s[start])
        invariant
            len == s@.len(),
            0 <= start <= len,
            forall|j: int| 0 <= j < start ==> is_ws(s@[j]),
        decreases len - start,
    {
        start += 1;
    }
    proof {
        lemma_trim_start_prefix(s@, start as int);
    }
    let mut end: usize = len;
    while end > start && is_ws_byte(s[end - 1])
        invariant
            len == s@.len(),
            0 <= start <= end <= len,
            forall|j: int| 0 <= j < start ==> is_ws(s@[j]),
            start < len ==> !is_ws(s@[start as int]),
            forall|j: int| end <= j < len ==> is_ws(s@[j]),
        decreases end,
    {
        end -= 1;
    }
    let ghost tail = s@.subrange(start as int, len as int);
    proof {
        assert(forall|j: int| end - start <= j < tail.len() ==> is_ws(#[trigger] tail[j]));
        assert(end - start > 0 ==> !is_ws(tail[end - start - 1]));
        lemma_trim_end_suffix(tail, end - start);
    }
    let mut r: Vec<u8> = Vec::new();
    let mut i: usize = start;
    while i < end
        invariant
            len == s@.len(),
            start <= i <= end <= len,
            r@ == s@.subrange(start as int, i as int),
        decreases end - i,
    {
        r.push(s[i]);
        proof {
            assert(s@.subrange(start as int, i + 1) =~= s@.subrange(start as int, i as int).push(
                s@[i as int],
            ));
        }
        i += 1;
    }
    proof {
        assert(tail.subrange(0, end - start) =~= r@);
    }
    r
}

/// Copy of `s` with trailing ASCII whitespace removed.
pub fn trim_end_bytes(s: &[u8]) -> (r: Vec<u8>)
    ensures
        r@ == trim_end_seq(s@),
{
    let len = s.len();
    let mut end: usize = len;
    while end > 0 && is_ws_byte(s[end - 1])
        invariant
            len == s@.len(),
            0 <= end <= len,
            forall|j: int| end <= j < len ==> is_ws(s@[j]),
        decreases end,
    {
        end -= 1;
    }
    proof {
        lemma_trim_end_suffix(s@, end as int);
    }
    let mut r: Vec<u8> = Vec::new();
    let mut i: usize = 0;
    while i < end
        invariant
            len == s@.len(),
            0 <= i <= end <= len,
            r@ == s@.subrange(0, i as int),
        decreases end - i,
    {
        r.push(s[i]);
        proof {
            assert(s@.subrange(0, i + 1) =~= s@.subrange(0, i as int).push(s@[i as int]));
        }
        i += 1;
    }
    r
}

/// ASCII lower-cased copy of `s`.
pub fn lower_bytes(s: &[u8]) -> (r: Vec<u8>)
    ensures
        r@ == lower_seq(s@),
{
    let len = s.len();
    let mut r: Vec<u8> = Vec::new();
    let mut i: usize = 0;
    while i < len
        invariant
            len == s@.len(),
            0 <= i <= len,
            r@ == s@.subrange(0, i as int).map_values(|b: u8| lower_byte(b)),
        decreases len - i,
    {
        let b = s[i];
        if 65 <= b && b <= 90 {
            r.push(b + 32);
        } else {
            r.push(b);
        }
        proof {
            assert(s@.subrange(0, i + 1) =~= s@.subrange(0, i as int).push(s@[i as int]));
            assert(s@.subrange(0, i + 1).map_values(|b: u8| lower_byte(b)) =~= s@.subrange(
                0,
                i as int,
            ).map_values(|b: u8| lower_byte(b)).push(lower_byte(s@[i as int])));
        }
        i += 1;
    }
    proof {
        assert(s@.subrange(0, len as int) =~= s@);
    }
    r
}

/// Bytewise lexicographic order, as SQLite compares blobs.
pub open spec fn lex_le(a: Seq<u8>, b: Seq<u8>) -> bool
    decreases a.len(),
{
    if a.len() == 0 {
        true
    } else if b.len() == 0 {
        false
    } else if a.first() < b.first() {
        true
    } else if a.first() > b.first() {
        false
    } else {
        lex_le(a.drop_first(), b.drop_first())
    }
}

/// An owned copy of a byte slice.
pub fn copy_bytes(s: &[u8]) -> (r: Vec<u8>)
    ensures
        r@ == s@,
{
    let mut r: Vec<u8> = Vec::new();
    r.extend_from_slice(s);
    proof {
        assert(r@ =~= s@);
    }
    r
}

/// An owned copy of a sample slice.
pub fn copy_bytes_u32(s: &[u32]) -> (r: Vec<u32>)
    ensures
        r@ == s@,
{
    let mut r: Vec<u32> = Vec::new();
    r.extend_from_slice(s);
    proof {
        assert(r@ =~= s@);
    }
    r
}

/// Byte equality of two buffers.
pub fn eq_bytes(a: &[u8], b: &[u8]) -> (r: bool)
    ensures
        r == (a@ == b@),
{
    let a_len = a.len();
    if a_len != b.len() {
        return false;
    }
    let mut i: usize = 0;
    while i < a_len
        invariant
            a_len == a@.len() == b@.len(),
            0 <= i <= a_len,
            forall|j: int| 0 <= j < i ==> a@[j] == b@[j],
        decreases a_len - i,
    {
        if a[i] != b[i] {
            return false;
        }
        i += 1;
    }
    proof {
        assert(a@ =~= b@);
    }
    true
}

/// Trailing-trim distributes over concatenation when the right part does
/// not vanish.
pub proof fn lemma_trim_end_concat(a: Seq<u8>, b: Seq<u8>)
    requires
        trim_end_seq(b).len() > 0,
    ensures
        trim_end_seq(a + b) == a + trim_end_seq(b),
    decreases b.len(),
{
    if b.len() == 0 {
    } else if is_ws(b.last()) {
        lemma_trim_end_concat(a, b.drop_last());
        assert((a + b).drop_last() =~= a + b.drop_last());
        assert((a + b).last() == b.last());
    } else {
        assert(trim_end_seq(b) == b);
        assert((a + b).last() == b.last());
        assert(trim_end_seq(a + b) == a + b);
    }
}

/// A buffer whose trailing trim vanishes is all whitespace.
pub proof fn lemma_trim_end_empty_all_ws(t: Seq<u8>)
    requires
        trim_end_seq(t).len() == 0,
    ensures
        forall|j: int| 0 <= j < t.len() ==> is_ws(t[j]),
    decreases t.len(),
{
    if t.len() > 0 {
        assert(is_ws(t.last()));
        lemma_trim_end_empty_all_ws(t.drop_last());
        assert forall|j: int| 0 <= j < t.len() implies is_ws(t[j]) by {
            if j < t.len() - 1 {
                assert(t.drop_last()[j] == t[j]);
            }
        }
    }
}

/// An all-whitespace buffer trims from the front to nothing.
pub proof fn lemma_trim_start_all_ws(t: Seq<u8>)
    requires
        forall|j: int| 0 <= j < t.len() ==> is_ws(t[j]),
    ensures
        trim_start_seq(t).len() == 0,
    decreases t.len(),
{
    if t.len() > 0 {
        assert(forall|j: int| 0 <= j < t.drop_first().len() ==> is_ws(
            #[trigger] t.drop_first()[j],
        ));
        lemma_trim_start_all_ws(t.drop_first());
    }
}

/// A suffix stays a suffix under prepending.
pub proof fn lemma_ends_with_prepend(c: Seq<u8>, s: Seq<u8>, x: Seq<u8>)
    requires
        ends_with_seq(s, x),
    ensures
        ends_with_seq(c + s, x),
{
    assert((c + s).subrange((c + s).len() - x.len(), (c + s).len() as int) =~= s.subrange(
        s.len() - x.len(),
        s.len() as int,
    ));
}

/// The fully trimmed text is a suffix of the right-trimmed text.
pub proof fn lemma_trim_suffix(t: Seq<u8>)
    ensures
        ends_with_seq(trim_end_seq(t), trim_seq(t)),
    decreases t.len(),
{
    if t.len() > 0 && is_ws(t.first()) {
        lemma_trim_suffix(t.drop_first());
        assert(trim_seq(t) == trim_seq(t.drop_first()));
        if trim_end_seq(t.drop_first()).len() > 0 {
            lemma_trim_end_concat(seq![t.first()], t.drop_first());
            assert(seq![t.first()] + t.drop_first() =~= t);
            lemma_ends_with_prepend(
                seq![t.first()],
                trim_end_seq(t.drop_first()),
                trim_seq(t.drop_first()),
            );
        } else {
            lemma_trim_end_empty_all_ws(t.drop_first());
            assert(trim_start_seq(t) == trim_start_seq(t.drop_first()));
            lemma_trim_start_all_ws(t.drop_first());
            assert(trim_seq(t).len() == 0);
            assert(trim_end_seq(t).subrange(
                trim_end_seq(t).len() - 0,
                trim_end_seq(t).len() as int,
            ) =~= trim_seq(t));
        }
    } else {
        assert(trim_start_seq(t) == t);
        assert(trim_end_seq(t).subrange(0, trim_end_seq(t).len() as int) =~= trim_end_seq(t));
    }
}

/// The first line of `c`: everything before the first newline.
pub open spec fn upto_nl(c: Seq<u8>) -> Seq<u8>
    decreases c.len(),
{
    if c.len() == 0 {
        c
    } else if c.first() == 10 {
        Seq::empty()
    } else {
        seq![c.first()] + upto_nl(c.drop_first())
    }
}

/// What follows the first newline of `c`, if any.
pub open spec fn after_nl(c: Seq<u8>) -> Option<Seq<u8>>
    decreases c.len(),
{
    if c.len() == 0 {
        None
    } else if c.first() == 10 {
        Some(c.drop_first())
    } else {
        after_nl(c.drop_first())
    }
}

/// The first two lines of `c`, joined by a space: the snippet a retrieved
/// note contributes to the summarizer's context.
pub open spec fn first_two_lines_spec(c: Seq<u8>) -> Seq<u8> {
    match after_nl(c) {
        None => c,
        Some(rest) => upto_nl(c) + seq![32u8] + upto_nl(rest),
    }
}

proof fn lemma_nl_split(c: Seq<u8>, i: int)
    requires
        0 <= i <= c.len(),
        forall|j: int| 0 <= j < i ==> c[j] != 10,
        i < c.len() ==> c[i] == 10,
    ensures
        i == c.len() ==> upto_nl(c) == c && after_nl(c) is None,
        i < c.len() ==> upto_nl(c) == c.take(i) && after_nl(c) == Some(c.skip(i + 1)),
    decreases i,
{
    if i == 0 {
        if c.len() > 0 {
            assert(c.take(0) =~= Seq::<u8>::empty());
        }
    } else {
        lemma_nl_split(c.drop_first(), i - 1);
        if i == c.len() {
            assert(seq![c.first()] + c.drop_first() =~= c);
        } else {
            assert(seq![c.first()] + c.drop_first().take(i - 1) =~= c.take(i));
            assert(c.drop_first().skip(i) =~= c.skip(i + 1));
        }
    }
}

/// The first two lines of `c`, joined by a space.
pub fn first_two_lines(c: &[u8]) -> (r: Vec<u8>)
    ensures
        r@ == first_two_lines_spec(c@),
{
    let len = c.len();
    match find_byte_upto(c, len, 10) {
        None => {
            proof {
                lemma_nl_split(c@, len as int);
            }
            copy_bytes(c)
        },
        Some(i) => {
            proof {
                lemma_nl_split(c@, i as int);
            }
            let mut r: Vec<u8> = Vec::new();
            let mut k: usize = 0;
            while k < i
                invariant
                    i < len == c@.len(),
                    0 <= k <= i,
                    r@ == c@.subrange(0, k as int),
                decreases i - k,
            {
                r.push(c[k]);
                proof {
                    assert(c@.subrange(0, k + 1) =~= c@.subrange(0, k as int).push(c@[k as int]));
                }
                k += 1;
            }
            r.push(32);
            let ghost rest = c@.skip(i + 1);
            let second_end: usize = match find_byte_upto_from(c, i + 1, 10) {
                Some(j) => j,
                None => len,
            };
            proof {
                lemma_nl_split(rest, second_end - i - 1);
            }
            let mut k3: usize = i + 1;
            while k3 < second_end
                invariant
                    i + 1 <= second_end <= len == c@.len(),
                    i + 1 <= k3 <= second_end,
                    r@ == c@.take(i as int) + seq![32u8] + c@.subrange(i + 1, k3 as int),
                decreases second_end - k3,
            {
                r.push(c[k3]);
                proof {
                    assert(c@.subrange(i + 1, k3 + 1) =~= c@.subrange(i + 1, k3 as int).push(
                        c@[k3 as int],
                    ));
                    assert((c@.take(i as int) + seq![32u8] + c@.subrange(i + 1, k3 as int)).push(
                        c@[k3 as int],
                    ) =~= c@.take(i as int) + seq![32u8] + c@.subrange(i + 1, k3 + 1));
                }
                k3 += 1;
            }
            proof {
                assert(rest.take(second_end - i - 1) =~= c@.subrange(i + 1, second_end as int));
                assert(r@ =~= first_two_lines_spec(c@));
            }
            r
        },
    }
}

/// First index in `[from, h.len())` holding byte `b`, if any.
fn find_byte_upto_from(h: &[u8], from: usize, b: u8) -> (r: Option<usize>)
    requires
        from <= h@.len(),
    ensures
        match r {
            Some(i) => from <= i < h@.len() && h@[i as int] == b && forall|j: int|
                from <= j < i ==> h@[j] != b,
            None => forall|j: int| from <= j < h@.len() ==> h@[j] != b,
        },
{
    let len = h.len();
    let mut i: usize = from;
    while i < len
        invariant
            from <= i <= len,
            len == h@.len(),
            forall|j: int| from <= j < i ==> h@[j] != b,
        decreases len - i,
    {
        if h[i] == b {
            return Some(i);
        }
        i += 1;
    }
    None
}

/// Decimal digits of `n`, most significant first.
pub open spec fn dec_seq(n: nat) -> Seq<u8>
    decreases n,
{
    if n < 10 {
        seq![(48 + n) as u8]
    } else {
        dec_seq(n / 10) + seq![(48 + n % 10) as u8]
    }
}

/// Decimal rendering of a signed value, with a leading `-` if negative.
pub open spec fn dec_seq_i64(n: int) -> Seq<u8> {
    if n >= 0 {
        dec_seq(n as nat)
    } else {
        seq![45u8] + dec_seq((-n) as nat)
    }
}

/// Decimal digits of `n` as bytes.
pub fn u64_to_dec(n: u64) -> (r: Vec<u8>)
    ensures
        r@ == dec_seq(n as nat),
{
    let mut digits: Vec<u8> = Vec::new();
    let mut m: u64 = n;
    while m >= 10
        invariant
            dec_seq(n as nat) =~= dec_seq(m as nat) + digits@.reverse(),
        decreases m,
    {
        let d: u8 = (m % 10) as u8;
        let ghost pre = digits@;
        digits.push(48 + d);
        m = m / 10;
        proof {
            assert(digits@.reverse() =~= seq![(48 + d) as u8] + pre.reverse());
            assert(dec_seq((10 * (m as nat) + d as nat) as nat) == dec_seq(m as nat) + seq![
                (48 + d) as u8,
            ]);
        }
    }
    let mut r: Vec<u8> = Vec::new();
    r.push(48 + (m as u8));
    assert(r@ =~= dec_seq(m as nat));
    let mut i: usize = digits.len();
    while i > 0
        invariant
            i <= digits@.len(),
            r@ =~= dec_seq(m as nat) + digits@.reverse().subrange(
                0,
                digits@.len() - i,
            ),
        decreases i,
    {
        i -= 1;
        r.push(digits[i]);
        proof {
            let k = digits@.len() - i;
            assert(digits@.reverse().subrange(0, k) =~= digits@.reverse().subrange(0, k - 1).push(
                digits@[i as int],
            ));
        }
    }
    proof {
        assert(digits@.reverse().subrange(0, digits@.len() as int) =~= digits@.reverse());
    }
    r
}

/// Decimal rendering of `n`, with sign.
pub fn i64_to_dec(n: i64) -> (r: Vec<u8>)
    ensures
        r@ == dec_seq_i64(n as int),
{
    if n >= 0 {
        u64_to_dec(n as u64)
    } else {
        let mag: u64 = (-(n as i128)) as u64;
        let mut r: Vec<u8> = Vec::new();
        r.push(45);
        let mut d = u64_to_dec(mag);
        r.append(&mut d);
        assert(r@ =~= seq![45u8] + dec_seq(mag as nat));
        r
    }
}

} // verus!
