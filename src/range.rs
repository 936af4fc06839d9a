//! Single byte-range requests: parsing `bytes=...`, resolving against the
//! file size, the metadata of a partial response, and a cursor that never
//! hands out a byte past the range.
use vstd::prelude::*;
use crate::Error;
use crate::text::{
    chars_of, push_dec, push_str, string_of, all_digits, is_digit, dec, dec_value, digit_value,
    has_prefix,
};

verus! {

/// A single range as a client asked for it.
#[derive(Debug, Clone, Copy, PartialEq, Eq, Structural)]
pub enum ByteRange {
    /// `bytes=start-end`, both inclusive.
    FromTo { start: u64, end: u64 },
    /// `bytes=start-`, to the end of the file.
    From { start: u64 },
    /// `bytes=-len`, the last `len` bytes.
    Suffix { len: u64 },
}

/// The unit prefix of a range header.
pub open spec fn bytes_prefix() -> Seq<char> {
    seq!['b', 'y', 't', 'e', 's', '=']
}

/// Whether `r` splits at `k` into digits, `-`, digits.
pub open spec fn dash_split(r: Seq<char>, k: int) -> bool {
    0 <= k < r.len() && r[k] == '-' && all_digits(r.subrange(0, k)) && all_digits(
        r.subrange(k + 1, r.len() as int),
    )
}

/// The range that the two digit strings around the dash denote, if any.
pub open spec fn range_form(a: Seq<char>, b: Seq<char>) -> Option<ByteRange> {
    if a.len() == 0 && b.len() == 0 {
        None
    } else if dec_value(a) > u64::MAX || dec_value(b) > u64::MAX {
        None
    } else if a.len() == 0 {
        Some(ByteRange::Suffix { len: dec_value(b) as u64 })
    } else if b.len() == 0 {
        Some(ByteRange::From { start: dec_value(a) as u64 })
    } else {
        Some(ByteRange::FromTo { start: dec_value(a) as u64, end: dec_value(b) as u64 })
    }
}

/// What a `Range` header value denotes: `bytes=` followed by digits, a dash
/// and digits, at least one side non-empty, each value within `u64`.
pub open spec fn parse_range_spec(h: Seq<char>) -> Option<ByteRange> {
    let r = h.subrange(6, h.len() as int);
    if has_prefix(h, bytes_prefix()) && exists|k: int| dash_split(r, k) {
        let k = choose|k: int| dash_split(r, k);
        range_form(r.subrange(0, k), r.subrange(k + 1, r.len() as int))
    } else {
        None
    }
}

/// The inclusive offsets that a range denotes in a file of `size` bytes;
/// none where it starts after it ends or reaches past the last byte.
pub open spec fn resolve_spec(r: ByteRange, size: u64) -> Option<(u64, u64)> {
    match r {
        ByteRange::FromTo { start, end } => if start <= end && end < size {
            Some((start, end))
        } else {
            None
        },
        ByteRange::From { start } => if start < size {
            Some((start, (size - 1) as u64))
        } else {
            None
        },
        ByteRange::Suffix { len } => if 1 <= len && len <= size {
            Some(((size - len) as u64, (size - 1) as u64))
        } else {
            None
        },
    }
}

proof fn lemma_dash_unique(r: Seq<char>, k: int, j: int)
    requires
        dash_split(r, k),
        dash_split(r, j),
    ensures
        k == j,
{
    if j < k {
        assert(r.subrange(0, k)[j] == r[j]);
    } else if k < j {
        assert(r.subrange(0, j)[k] == r[k]);
    }
}

proof fn lemma_dec_value_grows(x: Seq<char>, y: Seq<char>)
    ensures
        dec_value(x + y) >= dec_value(x),
    decreases y.len(),
{
    if y.len() == 0 {
        assert(x + y =~= x);
    } else {
        lemma_dec_value_grows(x, y.drop_last());
        assert((x + y).drop_last() =~= x + y.drop_last());
    }
}

proof fn lemma_no_split(h: Seq<char>, k: int, bad: int)
    requires
        6 <= k < h.len(),
        h[k] == '-',
        forall|m: int| 6 <= m < k ==> h[m] != '-',
        6 <= bad < h.len(),
        bad != k,
        !is_digit(h[bad]),
    ensures
        forall|m: int| !dash_split(h.subrange(6, h.len() as int), m),
{
    let r = h.subrange(6, h.len() as int);
    assert forall|m: int| !dash_split(r, m) by {
        if dash_split(r, m) {
            assert(r[m] == h[m + 6]);
            if m + 6 == k {
                if bad < k {
                    assert(r.subrange(0, m)[bad - 6] == h[bad]);
                } else {
                    assert(r.subrange(m + 1, r.len() as int)[bad - k - 1] == h[bad]);
                }
            } else {
                assert(r.subrange(0, m)[k - 6] == h[k]);
            }
        }
    }
}

/// The value of the digits `s[lo..hi]`, where it fits in `u64`.
fn parse_dec(s: &Vec<char>, lo: usize, hi: usize) -> (r: Option<u64>)
    requires
        lo <= hi <= s@.len(),
        all_digits(s@.subrange(lo as int, hi as int)),
    ensures
        r == (if dec_value(s@.subrange(lo as int, hi as int)) <= u64::MAX {
            Some(dec_value(s@.subrange(lo as int, hi as int)) as u64)
        } else {
            None
        }),
{
    let mut acc: u64 = 0;
    let mut i: usize = lo;
    assert(s@.subrange(lo as int, lo as int) =~= Seq::<char>::empty());
    while i < hi
        invariant
            lo <= i <= hi <= s@.len(),
            all_digits(s@.subrange(lo as int, hi as int)),
            acc == dec_value(s@.subrange(lo as int, i as int)),
        decreases hi - i,
    {
        let c = s[i];
        assert(s@.subrange(lo as int, hi as int)[i - lo] == c);
        assert(s@.subrange(lo as int, i + 1).drop_last() =~= s@.subrange(lo as int, i as int));
        let d = (c as u32 - '0' as u32) as u64;
        assert(d == digit_value(c));
        if acc > (u64::MAX - d) / 10 {
            proof {
                assert(s@.subrange(lo as int, hi as int) =~= s@.subrange(lo as int, i + 1)
                    + s@.subrange(i + 1, hi as int));
                lemma_dec_value_grows(s@.subrange(lo as int, i + 1), s@.subrange(i + 1, hi as int));
            }
            return None;
        }
        acc = acc * 10 + d;
        i += 1;
    }
    Some(acc)
}

/// Parses a `Range` header value of a single range.
pub fn parse_range(header: &str) -> (r: Option<ByteRange>)
    ensures
        r == parse_range_spec(header@),
{
    let h = chars_of(header);
    let pre = chars_of("bytes=");
    proof {
        reveal_strlit("bytes=");
        assert(pre@ =~= bytes_prefix());
    }
    if h.len() < 6 {
        return None;
    }
    let mut i: usize = 0;
    while i < 6
        invariant
            h@ == header@,
            6 <= h@.len(),
            pre@ == bytes_prefix(),
            i <= 6,
            forall|k: int| 0 <= k < i ==> h@[k] == pre@[k],
        decreases 6 - i,
    {
        if h[i] != pre[i] {
            assert(h@.subrange(0, 6)[i as int] != bytes_prefix()[i as int]);
            return None;
        }
        i += 1;
    }
    assert(h@.subrange(0, 6) =~= bytes_prefix());
    let ghost r = h@.subrange(6, h@.len() as int);
    // Find the dash; everything before it must be digits.
    let mut k: usize = 6;
    while k < h.len() && h[k] != '-'
        invariant
            h@ == header@,
            6 <= k <= h@.len(),
            forall|j: int| 6 <= j < k ==> h@[j] != '-',
        decreases h@.len() - k,
    {
        k += 1;
    }
    if k == h.len() {
        assert forall|j: int| !dash_split(r, j) by {
            if 0 <= j < r.len() {
                assert(r[j] == h@[j + 6]);
            }
        }
        return None;
    }
    let mut j: usize = 6;
    while j < k
        invariant
            h@ == header@,
            6 <= j <= k < h@.len(),
            h@[k as int] == '-',
            forall|m: int| 6 <= m < k ==> h@[m] != '-',
            forall|m: int| 6 <= m < j ==> is_digit(h@[m]),
        decreases k - j,
    {
        if !('0' <= h[j] && h[j] <= '9') {
            proof {
                lemma_no_split(h@, k as int, j as int);
            }
            return None;
        }
        j += 1;
    }
    let mut e: usize = k + 1;
    while e < h.len()
        invariant
            h@ == header@,
            6 <= k < e <= h@.len(),
            h@[k as int] == '-',
            forall|m: int| 6 <= m < k ==> h@[m] != '-',
            forall|m: int| 6 <= m < k ==> is_digit(h@[m]),
            forall|m: int| k < m < e ==> is_digit(h@[m]),
        decreases h@.len() - e,
    {
        if !('0' <= h[e] && h[e] <= '9') {
            proof {
                lemma_no_split(h@, k as int, e as int);
            }
            return None;
        }
        e += 1;
    }
    let ghost kk = k - 6;
    proof {
        assert forall|m: int| 0 <= m < kk implies is_digit(#[trigger] r.subrange(0, kk)[m]) by {
            assert(r.subrange(0, kk)[m] == h@[m + 6]);
        }
        assert forall|m: int| 0 <= m < r.len() - kk - 1 implies is_digit(
            #[trigger] r.subrange(kk + 1, r.len() as int)[m],
        ) by {
            assert(r.subrange(kk + 1, r.len() as int)[m] == h@[m + k + 1]);
        }
        assert(r.subrange(0, kk) =~= h@.subrange(6, k as int));
        assert(r.subrange(kk + 1, r.len() as int) =~= h@.subrange(k + 1, h@.len() as int));
        assert(dash_split(r, kk));
        let c = choose|c: int| dash_split(r, c);
        lemma_dash_unique(r, c, kk);
    }
    let a = parse_dec(&h, 6, k);
    let b = parse_dec(&h, k + 1, h.len());
    if k == 6 && k + 1 == h.len() {
        return None;
    }
    match (a, b) {
        (Some(a), Some(b)) => {
            if k == 6 {
                Some(ByteRange::Suffix { len: b })
            } else if k + 1 == h.len() {
                Some(ByteRange::From { start: a })
            } else {
                Some(ByteRange::FromTo { start: a, end: b })
            }
        },
        _ => None,
    }
}

/// Resolves a range against a file of `size` bytes to inclusive offsets;
/// a range that starts after it ends or reaches past the last byte is
/// rejected, never clamped.
pub fn resolve_range(r: ByteRange, size: u64) -> (res: Result<(u64, u64), Error>)
    ensures
        match resolve_spec(r, size) {
            Some(span) => res == Ok::<(u64, u64), Error>(span),
            None => res == Err::<(u64, u64), Error>(Error::BadRequest),
        },
{
    match r {
        ByteRange::FromTo { start, end } => if start <= end && end < size {
            Ok((start, end))
        } else {
            Err(Error::BadRequest)
        },
        ByteRange::From { start } => if start < size {
            Ok((start, size - 1))
        } else {
            Err(Error::BadRequest)
        },
        ByteRange::Suffix { len } => if 1 <= len && len <= size {
            Ok((size - len, size - 1))
        } else {
            Err(Error::BadRequest)
        },
    }
}

/// The metadata of a partial response.
#[derive(Debug)]
pub struct RangeReply {
    pub status: u16,
    pub content_range: String,
    pub content_length: u64,
    pub accept_ranges: String,
}

/// `bytes start-end/total`.
pub open spec fn content_range_spec(start: u64, end: u64, total: u64) -> Seq<char> {
    seq!['b', 'y', 't', 'e', 's', ' '] + dec(start as nat) + seq!['-'] + dec(end as nat) + seq![
        '/',
    ] + dec(total as nat)
}

/// The metadata of a partial response for the inclusive span `start..=end`
/// of a file of `total` bytes.
pub fn range_reply(start: u64, end: u64, total: u64) -> (r: RangeReply)
    requires
        start <= end < total,
    ensures
        r.status == 206,
        r.content_range@ == content_range_spec(start, end, total),
        r.content_length == end - start + 1,
        r.accept_ranges@ == seq!['b', 'y', 't', 'e', 's'],
{
    let mut cr: Vec<char> = Vec::new();
    push_str("bytes ", &mut cr);
    push_dec(start, &mut cr);
    cr.push('-');
    push_dec(end, &mut cr);
    cr.push('/');
    push_dec(total, &mut cr);
    proof {
        reveal_strlit("bytes ");
        reveal_strlit("bytes");
        assert(cr@ =~= content_range_spec(start, end, total));
    }
    RangeReply {
        status: 206,
        content_range: string_of(&cr),
        content_length: end - start + 1,
        accept_ranges: "bytes".to_owned(),
    }
}

/// How a file is delivered: a part of it, or all of it as text or as bytes.
#[derive(Debug, Clone, Copy, PartialEq, Eq, Structural)]
pub enum Delivery {
    /// Status 206 with the inclusive span `start..=end`.
    Partial { start: u64, end: u64 },
    /// Status 200, the whole file read as text.
    Text,
    /// Status 200, the whole file as bytes.
    Binary,
}

/// Chooses the delivery once the file's kind, its size and the range
/// header (if any) are known; a range takes precedence, and an invalid one
/// is rejected.
pub fn plan_delivery(range: Option<ByteRange>, is_text: bool, size: u64) -> (r: Result<
    Delivery,
    Error,
>)
    ensures
        match range {
            Some(br) => match resolve_spec(br, size) {
                Some(span) => r == Ok::<Delivery, Error>(
                    Delivery::Partial { start: span.0, end: span.1 },
                ),
                None => r == Err::<Delivery, Error>(Error::BadRequest),
            },
            None => r == Ok::<Delivery, Error>(
                if is_text {
                    Delivery::Text
                } else {
                    Delivery::Binary
                },
            ),
        },
{
    match range {
        Some(br) => match resolve_range(br, size) {
            Ok((start, end)) => Ok(Delivery::Partial { start, end }),
            Err(e) => Err(e),
        },
        None => if is_text {
            Ok(Delivery::Text)
        } else {
            Ok(Delivery::Binary)
        },
    }
}

/// How much of a resolved span is still to be handed out.
#[derive(Debug)]
pub struct RangeCursor {
    pub next: u64,
    pub end: u64,
    pub done: bool,
}

impl RangeCursor {
    /// How many bytes are still owed.
    pub open spec fn remaining(&self) -> nat {
        if self.done {
            0
        } else {
            (self.end - self.next + 1) as nat
        }
    }

    pub open spec fn wf(&self) -> bool {
        !self.done ==> self.next <= self.end
    }

    /// A cursor at the start of the inclusive span `start..=end`.
    pub fn new(start: u64, end: u64) -> (r: RangeCursor)
        requires
            start <= end,
        ensures
            r.wf(),
            r.next == start,
            r.end == end,
            r.remaining() == end - start + 1,
    {
        RangeCursor { next: start, end, done: false }
    }

    /// How many bytes the next read may take into a buffer of `buf_len`:
    /// never past the end of the span, 0 once it is exhausted.
    pub fn allowance(&self, buf_len: usize) -> (n: usize)
        requires
            self.wf(),
        ensures
            n as nat == if self.remaining() < buf_len as nat {
                self.remaining()
            } else {
                buf_len as nat
            },
    {
        if self.done {
            0
        } else if self.end - self.next < buf_len as u64 {
            (self.end - self.next + 1) as usize
        } else {
            buf_len
        }
    }

    /// Records that `n` bytes were handed out.
    pub fn advance(&mut self, n: usize)
        requires
            old(self).wf(),
            n as nat <= old(self).remaining(),
        ensures
            final(self).wf(),
            final(self).end == old(self).end,
            final(self).remaining() == old(self).remaining() - n as nat,
    {
        if n > 0 {
            if n as u64 - 1 == self.end - self.next {
                self.done = true;
            } else {
                self.next = self.next + n as u64;
            }
        }
    }
}

} // verus!
