//! The request framer: a pure function over a byte slice that finds the
//! boundary of the next complete HTTP/1.1 request, if any.
//!
//! A line is delimited by a line-feed byte; an empty line ends the header
//! block. Only a header whose name matches `Content-Length` exactly, at line
//! start, is honoured: the part of that line after its final colon, trimmed
//! of leading whitespace, is parsed as an unsigned body length (0 if absent
//! or unparsable). A request's boundary is the header block's byte length,
//! terminating blank line included, plus the body length.

use vstd::prelude::*;

verus! {

/// The framing result: either the slice does not yet hold one complete
/// request, or the exact byte length of one complete request prefix from the
/// start of the slice, plus whether trailing bytes follow it.
#[derive(Clone, Copy, Debug, PartialEq, Eq, Structural)]
pub enum RequestBoundary {
    Incomplete,
    Complete { len: usize, trailing: bool },
}

/// The line-feed byte.
pub open spec fn lf() -> u8 {
    10
}

/// Index of the first line feed at or after `from`, if any.
pub open spec fn find_lf(s: Seq<u8>, from: int) -> Option<int>
    decreases s.len() - from,
    when 0 <= from
{
    if from >= s.len() {
        None
    } else if s[from] == lf() {
        Some(from)
    } else {
        find_lf(s, from + 1)
    }
}

/// Whitespace for the purpose of trimming a header value.
pub open spec fn is_space(b: u8) -> bool {
    b == 9 || b == 10 || b == 11 || b == 12 || b == 13 || b == 32
}

/// `s` with its leading whitespace removed.
pub open spec fn trim_leading(s: Seq<u8>) -> Seq<u8>
    decreases s.len(),
{
    if s.len() > 0 && is_space(s[0]) {
        trim_leading(s.drop_first())
    } else {
        s
    }
}

pub open spec fn is_digit(b: u8) -> bool {
    48 <= b && b <= 57
}

pub open spec fn all_digits(s: Seq<u8>) -> bool {
    forall|i: int| 0 <= i < s.len() ==> is_digit(#[trigger] s[i])
}

/// The number a sequence of decimal digit bytes denotes.
pub open spec fn digits_value(s: Seq<u8>) -> int
    decreases s.len(),
{
    if s.len() == 0 {
        0
    } else {
        digits_value(s.drop_last()) * 10 + (s.last() as int - 48)
    }
}

/// Index of the last colon in `s`, if any.
pub open spec fn last_colon(s: Seq<u8>) -> Option<int>
    decreases s.len(),
{
    if s.len() == 0 {
        None
    } else if s[s.len() - 1] == 58 {
        Some(s.len() - 1)
    } else {
        last_colon(s.drop_last())
    }
}

/// The part of `s` after its final colon; all of `s` if it has none.
pub open spec fn after_last_colon(s: Seq<u8>) -> Seq<u8> {
    match last_colon(s) {
        None => s,
        Some(i) => s.skip(i + 1),
    }
}

/// The header name that is honoured, as bytes: `Content-Length`.
pub open spec fn content_length_name() -> Seq<u8> {
    seq![67u8, 111u8, 110u8, 116u8, 101u8, 110u8, 116u8, 45u8, 76u8, 101u8, 110u8, 103u8, 116u8, 104u8]
}

/// Whether a header line starts with `Content-Length`, exact case.
pub open spec fn names_content_length(line: Seq<u8>) -> bool {
    line.len() >= 14 && line.take(14) == content_length_name()
}

/// The body length a `Content-Length` line declares: the part after the final
/// colon, trimmed of leading whitespace, read as a decimal number; 0 if that
/// part is empty, not all digits, or too large for `usize`.
pub open spec fn parse_content_length(line: Seq<u8>) -> int {
    let t = trim_leading(after_last_colon(line));
    if t.len() > 0 && all_digits(t) && digits_value(t) <= usize::MAX {
        digits_value(t)
    } else {
        0
    }
}

/// Scan the header block line by line from `pos`, with `clen` the body length
/// declared so far. Returns the header block's total byte length (blank line
/// included) and the declared body length, or `None` when the block's
/// terminating blank line is not in `s`.
pub open spec fn scan_headers(s: Seq<u8>, pos: int, clen: int) -> Option<(int, int)>
    decreases s.len() - pos,
    when 0 <= pos <= s.len()
    via scan_headers_decreases
{
    match find_lf(s, pos) {
        None => None,
        Some(j) => if j == pos {
            Some((pos + 1, clen))
        } else {
            let line = s.subrange(pos, j);
            let c2 = if names_content_length(line) {
                parse_content_length(line)
            } else {
                clen
            };
            scan_headers(s, j + 1, c2)
        },
    }
}

#[via_fn]
proof fn scan_headers_decreases(s: Seq<u8>, pos: int, clen: int) {
    lemma_find_lf_bounds(s, pos);
}

/// Where `find_lf` finds a line feed: at or after `from`, inside `s`, on a
/// line-feed byte, with none before it.
pub proof fn lemma_find_lf_bounds(s: Seq<u8>, from: int)
    requires
        0 <= from,
    ensures
        match find_lf(s, from) {
            None => forall|k: int| from <= k < s.len() ==> s[k] != lf(),
            Some(j) => {
                &&& from <= j < s.len()
                &&& s[j] == lf()
                &&& forall|k: int| from <= k < j ==> s[k] != lf()
            },
        },
    decreases s.len() - from,
{
    if from >= s.len() {
    } else if s[from] == lf() {
    } else {
        lemma_find_lf_bounds(s, from + 1);
    }
}

/// `find_lf` finds exactly the first line feed: if no byte of `[from, j)` is
/// one and `j` is a line feed (or the end), the search from `from` lands on
/// `j` (or fails).
proof fn lemma_find_lf_at(s: Seq<u8>, from: int, j: int)
    requires
        0 <= from <= j <= s.len(),
        forall|k: int| from <= k < j ==> s[k] != lf(),
        j == s.len() || s[j] == lf(),
    ensures
        find_lf(s, from) == if j < s.len() {
            Some(j)
        } else {
            None::<int>
        },
    decreases j - from,
{
    if from < j {
        lemma_find_lf_at(s, from + 1, j);
    }
}

/// Trimming removes exactly the leading run of whitespace: if the first `m`
/// bytes are whitespace and byte `m` (if any) is not, the trim is `t.skip(m)`.
proof fn lemma_trim_leading_at(t: Seq<u8>, m: int)
    requires
        0 <= m <= t.len(),
        forall|k: int| 0 <= k < m ==> is_space(#[trigger] t[k]),
        m == t.len() || !is_space(t[m]),
    ensures
        trim_leading(t) == t.skip(m),
    decreases m,
{
    if m > 0 {
        lemma_trim_leading_at(t.drop_first(), m - 1);
        assert(t.drop_first().skip(m - 1) =~= t.skip(m));
    } else {
        assert(t.skip(0) =~= t);
    }
}

/// `last_colon` finds exactly the last colon: a colon with none after it.
proof fn lemma_last_colon_at(s: Seq<u8>, i: int)
    requires
        0 <= i < s.len(),
        s[i] == 58,
        forall|k: int| i < k < s.len() ==> s[k] != 58,
    ensures
        last_colon(s) == Some(i),
    decreases s.len(),
{
    if i < s.len() - 1 {
        lemma_last_colon_at(s.drop_last(), i);
    }
}

/// A sequence without a colon has no last colon.
proof fn lemma_last_colon_none(s: Seq<u8>)
    requires
        forall|k: int| 0 <= k < s.len() ==> s[k] != 58,
    ensures
        last_colon(s) == None::<int>,
    decreases s.len(),
{
    if s.len() > 0 {
        lemma_last_colon_none(s.drop_last());
    }
}

/// A digit string's value is non-negative.
proof fn lemma_digits_nonneg(d: Seq<u8>)
    requires
        all_digits(d),
    ensures
        digits_value(d) >= 0,
    decreases d.len(),
{
    if d.len() > 0 {
        assert(all_digits(d.drop_last()));
        lemma_digits_nonneg(d.drop_last());
    }
}

/// A digit string's value dominates each of its prefixes' values.
proof fn lemma_digits_prefix_le(d: Seq<u8>, i: int)
    requires
        all_digits(d),
        0 <= i <= d.len(),
    ensures
        digits_value(d.take(i)) <= digits_value(d),
    decreases d.len() - i,
{
    if i < d.len() {
        assert(d.take(i + 1).drop_last() =~= d.take(i));
        assert(all_digits(d.take(i)));
        lemma_digits_nonneg(d.take(i));
        lemma_digits_prefix_le(d, i + 1);
    } else {
        assert(d.take(i) =~= d);
    }
}

/// The framing of a byte slice: scan the header block; if its end is in the
/// slice, the boundary is header bytes plus declared body length, provided
/// the slice holds that many bytes.
pub open spec fn frame_spec(s: Seq<u8>) -> RequestBoundary {
    match scan_headers(s, 0, 0) {
        None => RequestBoundary::Incomplete,
        Some((h, c)) => if s.len() < h + c {
            RequestBoundary::Incomplete
        } else {
            RequestBoundary::Complete { len: (h + c) as usize, trailing: s.len() > h + c }
        },
    }
}

/// Byte `i` of the logical concatenation of `head` and `tail`.
fn byte_at(head: &[u8], tail: &[u8], i: usize) -> (r: u8)
    requires
        i < head@.len() + tail@.len(),
    ensures
        r == (head@ + tail@)[i as int],
{
    if i < head.len() {
        head[i]
    } else {
        tail[i - head.len()]
    }
}

/// Whether a byte is whitespace for value trimming.
fn is_space_byte(b: u8) -> (r: bool)
    ensures
        r == is_space(b),
{
    b == 9 || b == 10 || b == 11 || b == 12 || b == 13 || b == 32
}

/// Parse the bytes at `[vstart, end)` of the concatenation as a decimal
/// number: their value if they are non-empty, all digits, and the value fits
/// a `usize`; 0 otherwise.
fn parse_value(head: &[u8], tail: &[u8], vstart: usize, end: usize) -> (r: usize)
    requires
        vstart <= end <= head@.len() + tail@.len(),
        head@.len() + tail@.len() <= usize::MAX,
    ensures
        ({
            let t = (head@ + tail@).subrange(vstart as int, end as int);
            r as int == if t.len() > 0 && all_digits(t) && digits_value(t) <= usize::MAX {
                digits_value(t)
            } else {
                0
            }
        }),
{
    let ghost s = head@ + tail@;
    let ghost t = s.subrange(vstart as int, end as int);
    if vstart == end {
        return 0;
    }
    let mut acc: usize = 0;
    let mut k: usize = vstart;
    while k < end
        invariant
            vstart <= k <= end <= s.len(),
            s.len() <= usize::MAX,
            s == head@ + tail@,
            t == s.subrange(vstart as int, end as int),
            all_digits(t.take(k - vstart)),
            acc as int == digits_value(t.take(k - vstart)),
        decreases end - k,
    {
        let b = byte_at(head, tail, k);
        proof {
            assert(t[k - vstart] == s[k as int]);
        }
        if !(48 <= b && b <= 57) {
            proof {
                assert(!is_digit(t[k - vstart]));
            }
            return 0;
        }
        let d = b - 48;
        proof {
            assert(t.take(k - vstart + 1).drop_last() =~= t.take(k - vstart));
            assert(t.take(k - vstart + 1).last() == t[k - vstart]);
        }
        if acc <= (usize::MAX - d as usize) / 10 {
            acc = acc * 10 + d as usize;
        } else {
            // the digits read so far already outgrow `usize`; whatever
            // follows, the declared value is treated as 0
            proof {
                assert(digits_value(t.take(k - vstart + 1)) > usize::MAX);
                if all_digits(t) {
                    lemma_digits_prefix_le(t, k - vstart + 1);
                }
            }
            return 0;
        }
        k = k + 1;
    }
    proof {
        assert(t.take(end - vstart) =~= t);
    }
    acc
}

/// If the line at `[pos, j)` of the concatenation names `Content-Length`,
/// the body length it declares; otherwise `prev`, the length declared so far.
fn line_content_length(head: &[u8], tail: &[u8], pos: usize, j: usize, prev: usize) -> (r: usize)
    requires
        pos <= j <= head@.len() + tail@.len(),
        head@.len() + tail@.len() <= usize::MAX,
    ensures
        ({
            let line = (head@ + tail@).subrange(pos as int, j as int);
            r as int == if names_content_length(line) {
                parse_content_length(line)
            } else {
                prev as int
            }
        }),
{
    let ghost s = head@ + tail@;
    let ghost line = s.subrange(pos as int, j as int);
    if j - pos < 14 {
        return prev;
    }
    // compare against `Content-Length`, exact case, at line start
    let m = pos;
    let named = byte_at(head, tail, m) == 67 && byte_at(head, tail, m + 1) == 111 && byte_at(
        head,
        tail,
        m + 2,
    ) == 110 && byte_at(head, tail, m + 3) == 116 && byte_at(head, tail, m + 4) == 101 && byte_at(
        head,
        tail,
        m + 5,
    ) == 110 && byte_at(head, tail, m + 6) == 116 && byte_at(head, tail, m + 7) == 45 && byte_at(
        head,
        tail,
        m + 8,
    ) == 76 && byte_at(head, tail, m + 9) == 101 && byte_at(head, tail, m + 10) == 110 && byte_at(
        head,
        tail,
        m + 11,
    ) == 103 && byte_at(head, tail, m + 12) == 116 && byte_at(head, tail, m + 13) == 104;
    proof {
        assert(forall|i: int| 0 <= i < line.len() ==> line[i] == s[pos + i]);
        if named {
            assert(line.take(14) =~= content_length_name());
        } else {
            assert(line.take(14) != content_length_name());
        }
    }
    if !named {
        return prev;
    }
    // find the final colon of the line
    let mut colon: usize = 0;
    let mut has_colon: bool = false;
    let mut i: usize = pos;
    while i < j
        invariant
            pos <= i <= j <= s.len(),
            s.len() <= usize::MAX,
            s == head@ + tail@,
            line == s.subrange(pos as int, j as int),
            has_colon ==> pos <= colon < i && s[colon as int] == 58 && forall|m: int|
                colon < m < i ==> s[m] != 58,
            !has_colon ==> forall|m: int| pos <= m < i ==> s[m] != 58,
        decreases j - i,
    {
        let c = byte_at(head, tail, i);
        if c == 58 {
            colon = i;
            has_colon = true;
        }
        i = i + 1;
    }
    let cstart: usize = if has_colon {
        proof {
            assert(forall|m: int| 0 <= m < line.len() ==> line[m] == s[pos + m]);
            lemma_last_colon_at(line, colon - pos);
            assert(line.skip(colon - pos + 1) =~= s.subrange(colon + 1, j as int));
        }
        colon + 1
    } else {
        proof {
            assert(forall|m: int| 0 <= m < line.len() ==> line[m] == s[pos + m]);
            lemma_last_colon_none(line);
        }
        pos
    };
    proof {
        assert(after_last_colon(line) =~= s.subrange(cstart as int, j as int));
    }
    // trim leading whitespace off the value
    let mut v: usize = cstart;
    while v < j && is_space_byte(byte_at(head, tail, v))
        invariant
            cstart <= v <= j <= s.len(),
            s.len() <= usize::MAX,
            s == head@ + tail@,
            forall|i2: int| cstart <= i2 < v ==> is_space(#[trigger] s[i2]),
        decreases j - v,
    {
        v = v + 1;
    }
    proof {
        let cseg = s.subrange(cstart as int, j as int);
        assert(forall|i: int| 0 <= i < cseg.len() ==> cseg[i] == s[cstart + i]);
        lemma_trim_leading_at(cseg, v - cstart);
        assert(cseg.skip(v - cstart) =~= s.subrange(v as int, j as int));
    }
    parse_value(head, tail, v, j)
}

/// What a successful scan yields: a header block end past `pos` and inside
/// `s`, and a non-negative declared body length no larger than `usize` holds.
pub proof fn lemma_scan_headers_bounds(s: Seq<u8>, pos: int, clen: int)
    requires
        0 <= pos <= s.len(),
        0 <= clen <= usize::MAX,
    ensures
        match scan_headers(s, pos, clen) {
            None => true,
            Some((h, c)) => pos < h <= s.len() && 0 <= c <= usize::MAX,
        },
    decreases s.len() - pos,
{
    lemma_find_lf_bounds(s, pos);
    match find_lf(s, pos) {
        None => {},
        Some(j) => {
            if j != pos {
                let line = s.subrange(pos, j);
                let c2 = if names_content_length(line) {
                    parse_content_length(line)
                } else {
                    clen
                };
                if names_content_length(line) {
                    let t = trim_leading(after_last_colon(line));
                    if t.len() > 0 && all_digits(t) && digits_value(t) <= usize::MAX {
                        lemma_digits_nonneg(t);
                    }
                }
                lemma_scan_headers_bounds(s, j + 1, c2);
            }
        },
    }
}

/// What a complete boundary promises: at least one byte long, within the
/// slice, with the trailing flag set exactly when bytes follow it.
pub proof fn lemma_frame_complete_bounds(s: Seq<u8>)
    requires
        s.len() <= usize::MAX,
    ensures
        match frame_spec(s) {
            RequestBoundary::Incomplete => true,
            RequestBoundary::Complete { len, trailing } => {
                &&& 1 <= len <= s.len()
                &&& trailing == (len < s.len())
            },
        },
{
    lemma_scan_headers_bounds(s, 0, 0);
}

/// A found line feed survives appending bytes after the slice.
proof fn lemma_find_lf_prefix(s: Seq<u8>, t: Seq<u8>, from: int)
    requires
        0 <= from,
        find_lf(s, from) is Some,
    ensures
        find_lf(s + t, from) == find_lf(s, from),
    decreases s.len() - from,
{
    if from < s.len() {
        assert((s + t)[from] == s[from]);
        if s[from] != lf() {
            lemma_find_lf_prefix(s, t, from + 1);
        }
    }
}

/// A header block scanned to its end inside `s` scans to the same end, with
/// the same declared body length, in `s` extended by any further bytes.
pub proof fn lemma_scan_headers_prefix(s: Seq<u8>, t: Seq<u8>, pos: int, clen: int)
    requires
        0 <= pos <= s.len(),
        scan_headers(s, pos, clen) is Some,
    ensures
        scan_headers(s + t, pos, clen) == scan_headers(s, pos, clen),
    decreases s.len() - pos,
{
    lemma_find_lf_bounds(s, pos);
    match find_lf(s, pos) {
        None => {
            assert(false);
        },
        Some(j) => {
            lemma_find_lf_prefix(s, t, pos);
            if j != pos {
                assert(s.subrange(pos, j) =~= (s + t).subrange(pos, j));
                let line = s.subrange(pos, j);
                let c2 = if names_content_length(line) {
                    parse_content_length(line)
                } else {
                    clen
                };
                lemma_scan_headers_prefix(s, t, j + 1, c2);
            }
        },
    }
}

/// Re-running the framer on the same unconsumed slice without consuming
/// yields an identical result: the framing result is a function of the bytes
/// alone, so any two results that meet `frame_request`'s contract on one
/// slice are equal.
pub proof fn lemma_framing_idempotent(s: Seq<u8>, r1: RequestBoundary, r2: RequestBoundary)
    requires
        r1 == frame_spec(s),
        r2 == frame_spec(s),
    ensures
        r1 == r2,
{
}

/// Two back-to-back complete requests frame into exactly two boundaries
/// whose lengths sum to the slice's length with zero leftover: framing
/// `a + b` bounds exactly `a` and flags that bytes trail it; consuming that
/// boundary leaves exactly `b`, which frames with nothing trailing.
pub proof fn lemma_pipelined_pair(a: Seq<u8>, b: Seq<u8>)
    requires
        a.len() + b.len() <= usize::MAX,
        frame_spec(a) == (RequestBoundary::Complete { len: a.len() as usize, trailing: false }),
        frame_spec(b) == (RequestBoundary::Complete { len: b.len() as usize, trailing: false }),
    ensures
        frame_spec(a + b) == (RequestBoundary::Complete {
            len: a.len() as usize,
            trailing: b.len() > 0,
        }),
        (a + b).skip(a.len() as int) == b,
{
    match scan_headers(a, 0, 0) {
        None => {
            assert(false);
        },
        Some((h, c)) => {
            lemma_scan_headers_bounds(a, 0, 0);
            lemma_scan_headers_prefix(a, b, 0, 0);
        },
    }
    assert((a + b).skip(a.len() as int) =~= b);
}

/// Scanning from a line start that is not itself a blank line never finds
/// the header block's end when no two line feeds stand next to each other.
proof fn lemma_scan_never_terminates(s: Seq<u8>, pos: int, clen: int)
    requires
        0 <= pos <= s.len(),
        pos < s.len() ==> s[pos] != lf(),
        forall|i: int| 0 <= i < s.len() - 1 ==> !(s[i] == lf() && #[trigger] s[i + 1] == lf()),
    ensures
        scan_headers(s, pos, clen) == None::<(int, int)>,
    decreases s.len() - pos,
{
    lemma_find_lf_bounds(s, pos);
    match find_lf(s, pos) {
        None => {},
        Some(j) => {
            let line = s.subrange(pos, j);
            let c2 = if names_content_length(line) {
                parse_content_length(line)
            } else {
                clen
            };
            lemma_scan_never_terminates(s, j + 1, c2);
        },
    }
}

/// A slice whose header block misses its terminating blank line — it does
/// not open with a line feed, and no two line feeds stand next to each
/// other — frames as incomplete, regardless of the slice's length.
pub proof fn lemma_unterminated_headers_incomplete(s: Seq<u8>)
    requires
        s.len() > 0 ==> s[0] != lf(),
        forall|i: int| 0 <= i < s.len() - 1 ==> !(s[i] == lf() && #[trigger] s[i + 1] == lf()),
    ensures
        frame_spec(s) == RequestBoundary::Incomplete,
{
    lemma_scan_never_terminates(s, 0, 0);
}

/// A request declaring body length `c` stays incomplete until at least `c`
/// body bytes follow its header block, and completes exactly then: for a
/// header block `hdr` scanned to its own end and any body bytes `body`,
/// framing `hdr + body` is incomplete iff `body` is shorter than `c`.
pub proof fn lemma_body_completes_request(hdr: Seq<u8>, body: Seq<u8>, c: int)
    requires
        hdr.len() + body.len() <= usize::MAX,
        scan_headers(hdr, 0, 0) == Some((hdr.len() as int, c)),
    ensures
        body.len() < c ==> frame_spec(hdr + body) == RequestBoundary::Incomplete,
        body.len() >= c ==> frame_spec(hdr + body) == (RequestBoundary::Complete {
            len: (hdr.len() + c) as usize,
            trailing: body.len() > c,
        }),
{
    lemma_scan_headers_bounds(hdr, 0, 0);
    lemma_scan_headers_prefix(hdr, body, 0, 0);
}

/// Find the boundary of the next complete request in the logical
/// concatenation of `head` then `tail` — the two segments of a buffer's
/// unconsumed bytes, in order.
pub fn frame_request_split(head: &[u8], tail: &[u8]) -> (r: RequestBoundary)
    requires
        head@.len() + tail@.len() <= usize::MAX,
    ensures
        r == frame_spec(head@ + tail@),
{
    let ghost s = head@ + tail@;
    let total = head.len() + tail.len();
    let mut pos: usize = 0;
    let mut content_len: usize = 0;
    loop
        invariant
            pos <= total,
            total == s.len(),
            s.len() <= usize::MAX,
            s == head@ + tail@,
            content_len <= usize::MAX,
            scan_headers(s, 0, 0) == scan_headers(s, pos as int, content_len as int),
        decreases total - pos,
    {
        // find the line feed that ends the line starting at `pos`
        let mut j: usize = pos;
        while j < total && byte_at(head, tail, j) != 10
            invariant
                pos <= j <= total,
                total == s.len(),
                s.len() <= usize::MAX,
                s == head@ + tail@,
                forall|k: int| pos <= k < j ==> s[k] != lf(),
            decreases total - j,
        {
            j = j + 1;
        }
        proof {
            lemma_find_lf_at(s, pos as int, j as int);
        }
        if j == total {
            // the last fragment has no terminator: no further line, so the
            // header block is unterminated
            return RequestBoundary::Incomplete;
        }
        if j == pos {
            // an empty line: the header block ends here
            let header_len = pos + 1;
            if total - header_len < content_len {
                return RequestBoundary::Incomplete;
            }
            let len = header_len + content_len;
            return RequestBoundary::Complete { len, trailing: total > len };
        }
        content_len = line_content_length(head, tail, pos, j, content_len);
        pos = j + 1;
    }
}

/// Find the boundary of the next complete request in `buf`.
pub fn frame_request(buf: &[u8]) -> (r: RequestBoundary)
    ensures
        r == frame_spec(buf@),
{
    let n = buf.len();
    let none: Vec<u8> = Vec::new();
    let r = frame_request_split(buf, none.as_slice());
    proof {
        assert(buf@ + none@ =~= buf@);
    }
    r
}

/// Try to consume one HTTP request from the start of `buf`: its exact byte
/// length when one complete request is there, and 0 when the bytes so far
/// are incomplete.
pub fn consume_request(buf: &[u8]) -> (r: usize)
    ensures
        r as int == match frame_spec(buf@) {
            RequestBoundary::Incomplete => 0,
            RequestBoundary::Complete { len, trailing } => len as int,
        },
        (r == 0) == (frame_spec(buf@) is Incomplete),
{
    let n = buf.len();
    proof {
        lemma_frame_complete_bounds(buf@);
    }
    match frame_request(buf) {
        RequestBoundary::Incomplete => 0,
        RequestBoundary::Complete { len, trailing: _ } => len,
    }
}

} // verus!
