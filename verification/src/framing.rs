//! LSP transport framing: `Content-Length`-prefixed JSON bodies over a
//! byte stream. The reads and writes happen outside; the byte layout of
//! a frame and the parsing of its header are decided here.

use vstd::prelude::*;
use vstd::string::StrSliceExecFns;
use crate::strutil::dec_rep;
use crate::strutil::u64_to_dec;

verus! {

/// ASCII text as bytes.
pub open spec fn ascii_bytes(s: Seq<char>) -> Seq<u8> {
    s.map_values(|c: char| (c as u32) as u8)
}

/// The exact bytes of one outgoing frame: the `Content-Length` header
/// with the body's length in decimal, a blank line, then the body.
pub open spec fn frame_bytes(body: Seq<u8>) -> Seq<u8> {
    ascii_bytes("Content-Length: "@) + ascii_bytes(dec_rep(body.len() as int)) + seq![
        13u8,
        10u8,
        13u8,
        10u8,
    ] + body
}

fn push_ascii(r: &mut Vec<u8>, s: &str)
    ensures
        final(r)@ == old(r)@ + ascii_bytes(s@),
{
    let n: usize = s.unicode_len();
    let mut i: usize = 0;
    while i < n
        invariant
            i <= n,
            n == s@.len(),
            r@ =~= old(r)@ + ascii_bytes(s@.take(i as int)),
        decreases n - i,
    {
        let c = s.get_char(i);
        r.push((c as u32) as u8);
        proof {
            assert(s@.take(i + 1) =~= s@.take(i as int).push(s@[i as int]));
            assert(ascii_bytes(s@.take(i + 1)) =~= ascii_bytes(s@.take(i as int)).push(
                ((s@[i as int] as u32) as u8),
            ));
        }
        i += 1;
    }
    proof {
        assert(s@.take(n as int) =~= s@);
    }
}

/// Writes one frame: header, blank line, body.
pub fn encode_frame(body: &Vec<u8>) -> (r: Vec<u8>)
    ensures
        r@ == frame_bytes(body@),
{
    let mut r: Vec<u8> = Vec::new();
    push_ascii(&mut r, "Content-Length: ");
    let len_s = u64_to_dec(body.len() as u64);
    push_ascii(&mut r, len_s.as_str());
    r.push(13);
    r.push(10);
    r.push(13);
    r.push(10);
    let mut i: usize = 0;
    let n: usize = body.len();
    let ghost head = r@;
    while i < n
        invariant
            i <= n,
            n == body@.len(),
            r@ =~= head + body@.take(i as int),
        decreases n - i,
    {
        r.push(body[i]);
        proof {
            assert(body@.take(i + 1) =~= body@.take(i as int).push(body@[i as int]));
        }
        i += 1;
    }
    proof {
        assert(body@.take(n as int) =~= body@);
        assert(r@ =~= frame_bytes(body@));
    }
    r
}

/// A blank line: carriage return, line feed, twice, starting at `i`.
pub open spec fn crlfcrlf_at(b: Seq<u8>, i: int) -> bool {
    &&& 0 <= i
    &&& i + 4 <= b.len()
    &&& b[i] == 13 && b[i + 1] == 10 && b[i + 2] == 13 && b[i + 3] == 10
}

/// Finds the end of the header block: the first blank line.
pub fn find_crlfcrlf(buf: &Vec<u8>) -> (r: Option<usize>)
    ensures
        match r {
            Some(i) => crlfcrlf_at(buf@, i as int) && forall|j: int|
                0 <= j < i ==> !crlfcrlf_at(buf@, j),
            None => forall|j: int| !crlfcrlf_at(buf@, j),
        },
{
    let n: usize = buf.len();
    if n < 4 {
        return None;
    }
    let mut i: usize = 0;
    while i <= n - 4
        invariant
            4 <= n,
            n == buf@.len(),
            i <= n - 4 + 1,
            forall|j: int| 0 <= j < i ==> !crlfcrlf_at(buf@, j),
        decreases n - i,
    {
        if buf[i] == 13 && buf[i + 1] == 10 && buf[i + 2] == 13 && buf[i + 3] == 10 {
            return Some(i);
        }
        i += 1;
    }
    assert(forall|j: int| crlfcrlf_at(buf@, j) ==> 0 <= j <= n - 4);
    None
}

/// `[a, b)` spans one header line: it begins at the block's start or
/// right after a line break, ends at the block's end or right before
/// one, and holds none inside.
pub open spec fn line_span(h: Seq<u8>, a: int, b: int) -> bool {
    &&& 0 <= a <= b <= h.len()
    &&& (a == 0 || (a >= 2 && h[a - 2] == 13 && h[a - 1] == 10))
    &&& (b == h.len() || (b + 2 <= h.len() && h[b] == 13 && h[b + 1] == 10))
    &&& (forall|t: int| a <= t < b - 1 ==> !((#[trigger] h[t]) == 13 && h[t + 1] == 10))
}

/// Scans a header block (the bytes before the blank line) for its
/// `Content-Length` line; other header lines are tolerated and ignored.
/// An answer names the length some line of the block declares; no
/// answer means no line declared one.
pub fn header_content_length(header: &Vec<u8>) -> (r: Option<u64>)
    ensures
        r matches Some(v) ==> exists|a: int, b: int, s: int, e: int|
            line_span(header@, a, b) && cl_line(header@.subrange(a, b), s, e) && digits_val(
                header@.subrange(a, b).subrange(s, e),
            ) == v,
        r is None ==> forall|a: int, b: int, s: int, e: int|
            line_span(header@, a, b) && #[trigger] cl_line(
                header@.subrange(a, b),
                s,
                e,
            ) ==> digits_val(header@.subrange(a, b).subrange(s, e)) > u64::MAX,
{
    let n: usize = header.len();
    let mut start: usize = 0;
    loop
        invariant
            start <= n,
            n == header@.len(),
            start == 0 || (start >= 2 && header@[start - 2] == 13 && header@[start - 1]
                == 10),
            forall|a: int, b: int, s2: int, e2: int|
                line_span(header@, a, b) && a < start && #[trigger] cl_line(
                    header@.subrange(a, b),
                    s2,
                    e2,
                ) ==> digits_val(header@.subrange(a, b).subrange(s2, e2)) > u64::MAX,
        decreases n - start,
    {
        // find the end of this line
        let mut end: usize = start;
        while end < n && !(end + 1 < n && header[end] == 13 && header[end + 1] == 10)
            invariant
                start <= end <= n,
                n == header@.len(),
                forall|t: int|
                    start <= t < end ==> !((#[trigger] header@[t]) == 13 && t + 1 < n
                        && header@[t + 1] == 10),
            decreases n - end,
        {
            end += 1;
        }
        let mut line: Vec<u8> = Vec::new();
        let mut i: usize = start;
        while i < end
            invariant
                start <= i <= end <= n,
                n == header@.len(),
                line@ =~= header@.subrange(start as int, i as int),
            decreases end - i,
        {
            line.push(header[i]);
            proof {
                assert(header@.subrange(start as int, i + 1) =~= header@.subrange(
                    start as int,
                    i as int,
                ).push(header@[i as int]));
            }
            i += 1;
        }
        let parsed = parse_content_length_line(&line);
        proof {
            if parsed is None {
                assert forall|a: int, b: int, s2: int, e2: int|
                    line_span(header@, a, b) && a < end + 2 && #[trigger] cl_line(
                        header@.subrange(a, b),
                        s2,
                        e2,
                    ) implies digits_val(header@.subrange(a, b).subrange(s2, e2))
                    > u64::MAX by {
                    if a >= start {
                        lemma_line_span_unique(header@, start as int, end as int, a, b);
                        assert(header@.subrange(a, b) =~= line@);
                    }
                }
            }
        }
        match parsed {
            Some(v) => {
                proof {
                    assert(line@ =~= header@.subrange(start as int, end as int));
                    assert(line_span(header@, start as int, end as int)) by {
                        if end < n {
                            assert(end + 1 < n && header@[end as int] == 13 && header@[end
                                + 1] == 10);
                        }
                    }
                }
                return Some(v);
            },
            None => {},
        }
        if end >= n {
            proof {
                assert forall|a: int, b: int, s2: int, e2: int|
                    line_span(header@, a, b) && #[trigger] cl_line(
                        header@.subrange(a, b),
                        s2,
                        e2,
                    ) implies digits_val(header@.subrange(a, b).subrange(s2, e2))
                    > u64::MAX by {
                    assert(a <= b <= n);
                    assert(a < end + 2);
                }
            }
            return None;
        }
        // skip the line break
        if end + 1 < n {
            start = end + 2;
        } else {
            proof {
                assert(false);
            }
            return None;
        }
    }
}

/// Within one scan step, the only line span beginning at or after the
/// current line's start and before the next line's start is the current
/// line itself.
proof fn lemma_line_span_unique(h: Seq<u8>, start: int, end: int, a: int, b: int)
    requires
        line_span(h, a, b),
        0 <= start <= end <= h.len(),
        start == 0 || (start >= 2 && h[start - 2] == 13 && h[start - 1] == 10),
        forall|t: int|
            start <= t < end ==> !((#[trigger] h[t]) == 13 && t + 1 < h.len() && h[t + 1]
                == 10),
        end == h.len() || (end + 1 < h.len() && h[end] == 13 && h[end + 1] == 10),
        start <= a < end + 2,
    ensures
        a == start && b == end,
{
    if a > start {
        assert(a >= 2 && h[a - 2] == 13 && h[a - 1] == 10);
        if a - 2 >= start {
            if a - 2 < end {
                assert(a - 1 < h.len());
                assert(!(h[a - 2] == 13 && a - 1 < h.len() && h[a - 1] == 10));
            } else {
                assert(a >= end + 2);
            }
        } else {
            assert(a - 2 == start - 1);
            assert(h[start - 1] == 10);
            assert(h[a - 2] == 13);
        }
    }
    if b < end {
        assert(b + 2 <= h.len() && h[b] == 13 && h[b + 1] == 10);
        assert(start <= b < end);
        assert(!(h[b] == 13 && b + 1 < h.len() && h[b + 1] == 10));
    }
    if b > end {
        assert(end < h.len());
        assert(end + 1 < h.len() && h[end] == 13 && h[end + 1] == 10);
        if end < b - 1 {
            assert(!((h[end]) == 13 && h[end + 1] == 10));
        } else {
            assert(end == b - 1);
            assert(b == h.len() || (b + 2 <= h.len() && h[b] == 13));
            assert(h[end + 1] == 10);
            if b < h.len() {
                assert(h[b] == 13);
            } else {
                assert(end + 1 == h.len());
            }
        }
    }
}

pub open spec fn is_digit(b: u8) -> bool {
    48 <= b <= 57
}

pub open spec fn is_space(b: u8) -> bool {
    b == 32 || b == 9
}

/// The value of a run of decimal digit bytes, most significant first.
pub open spec fn digits_val(s: Seq<u8>) -> int
    decreases s.len(),
{
    if s.len() == 0 {
        0
    } else {
        digits_val(s.drop_last()) * 10 + (s.last() - 48)
    }
}

/// A well-formed `Content-Length` header line: the field name, then
/// optional blanks, then at least one digit, then optional blanks.
pub open spec fn cl_line(line: Seq<u8>, s: int, e: int) -> bool {
    &&& ascii_bytes("Content-Length:"@).is_prefix_of(line)
    &&& 15 <= s <= e <= line.len()
    &&& (forall|t: int| 15 <= t < s ==> is_space(line[t]))
    &&& (forall|t: int| s <= t < e ==> is_digit(line[t]))
    &&& (forall|t: int| e <= t < line.len() ==> is_space(line[t]))
    &&& s < e
}

/// Parses one header line. The answer is the declared content length
/// exactly when the line is a well-formed `Content-Length` line whose
/// value fits in 64 bits.
pub fn parse_content_length_line(line: &Vec<u8>) -> (r: Option<u64>)
    ensures
        match r {
            Some(n) => exists|s: int, e: int|
                cl_line(line@, s, e) && digits_val(line@.subrange(s, e)) == n,
            None => forall|s: int, e: int|
                cl_line(line@, s, e) ==> digits_val(line@.subrange(s, e)) > u64::MAX,
        },
{
    let n: usize = line.len();
    proof {
        reveal_strlit("Content-Length:");
    }
    if n < 15 {
        assert(forall|s: int, e: int| !cl_line(line@, s, e)) by {
            assert(ascii_bytes("Content-Length:"@).len() == 15);
        }
        return None;
    }
    let prefix: [u8; 15] = [67, 111, 110, 116, 101, 110, 116, 45, 76, 101, 110, 103, 116, 104, 58];
    let mut i: usize = 0;
    while i < 15
        invariant
            i <= 15,
            15 <= n,
            n == line@.len(),
            prefix@ =~= ascii_bytes("Content-Length:"@),
            forall|j: int| 0 <= j < i ==> line@[j] == ascii_bytes("Content-Length:"@)[j],
        decreases 15 - i,
    {
        if line[i] != prefix[i] {
            assert(forall|s: int, e: int| !cl_line(line@, s, e)) by {
                assert(line@[i as int] != ascii_bytes("Content-Length:"@)[i as int]);
            }
            return None;
        }
        i += 1;
    }
    assert(ascii_bytes("Content-Length:"@).is_prefix_of(line@)) by {
        assert(line@.subrange(0, 15) =~= ascii_bytes("Content-Length:"@));
    }
    let mut s: usize = 15;
    while s < n && (line[s] == 32 || line[s] == 9)
        invariant
            15 <= s <= n,
            n == line@.len(),
            forall|t: int| 15 <= t < s ==> is_space(line@[t]),
        decreases n - s,
    {
        s += 1;
    }
    let mut e: usize = s;
    let mut val: u64 = 0;
    let mut overflow: bool = false;
    while e < n && line[e] >= 48 && line[e] <= 57
        invariant
            s <= e <= n,
            n == line@.len(),
            forall|t: int| s <= t < e ==> is_digit(line@[t]),
            !overflow ==> val == digits_val(line@.subrange(s as int, e as int)),
            overflow ==> digits_val(line@.subrange(s as int, e as int)) > u64::MAX,
        decreases n - e,
    {
        let d: u8 = line[e] - 48;
        proof {
            assert(line@.subrange(s as int, e + 1).drop_last() =~= line@.subrange(
                s as int,
                e as int,
            ));
            assert(line@.subrange(s as int, e + 1).last() == line@[e as int]);
        }
        if overflow || val > (u64::MAX - (d as u64)) / 10 {
            proof {
                if !overflow {
                    assert(val * 10 + d > u64::MAX) by (nonlinear_arith)
                        requires
                            val > (u64::MAX - (d as u64)) / 10,
                            d < 10,
                    ;
                }
                assert(digits_val(line@.subrange(s as int, e + 1)) > u64::MAX) by {
                    let pre = digits_val(line@.subrange(s as int, e as int));
                    assert(pre >= 0) by {
                        lemma_digits_val_nonneg(line@.subrange(s as int, e as int));
                    }
                    if overflow {
                        assert(pre > u64::MAX);
                        assert(pre * 10 + (line@[e as int] - 48) > u64::MAX)
                            by (nonlinear_arith)
                            requires
                                pre > u64::MAX,
                                line@[e as int] >= 48,
                        ;
                    }
                }
            }
            overflow = true;
        } else {
            val = val * 10 + (d as u64);
        }
        e += 1;
    }
    if e == s {
        // no digits after the field name
        proof {
            assert forall|s2: int, e2: int| cl_line(line@, s2, e2) implies false by {
                lemma_cl_line_no_digits(line@, s2, e2, s as int);
            }
        }
        return None;
    }
    // the rest of the line must be blank
    let mut t: usize = e;
    while t < n
        invariant
            15 <= s < e <= t <= n,
            n == line@.len(),
            forall|u: int| 15 <= u < s ==> is_space(line@[u]),
            forall|u: int| s <= u < e ==> is_digit(line@[u]),
            forall|u: int| e <= u < t ==> is_space(line@[u]),
            e == n || !is_digit(line@[e as int]),
        decreases n - t,
    {
        if !(line[t] == 32 || line[t] == 9) {
            proof {
                assert forall|s2: int, e2: int| cl_line(line@, s2, e2) implies false by {
                    lemma_cl_line_bounds(line@, s2, e2, s as int, e as int, t as int);
                }
            }
            return None;
        }
        t += 1;
    }
    proof {
        assert(cl_line(line@, s as int, e as int));
    }
    if overflow {
        proof {
            assert forall|s2: int, e2: int| cl_line(line@, s2, e2) implies digits_val(
                line@.subrange(s2, e2),
            ) > u64::MAX by {
                lemma_cl_line_unique(line@, s2, e2, s as int, e as int);
            }
        }
        None
    } else {
        Some(val)
    }
}

proof fn lemma_digits_val_nonneg(s: Seq<u8>)
    requires
        forall|i: int| 0 <= i < s.len() ==> is_digit(#[trigger] s[i]),
    ensures
        digits_val(s) >= 0,
    decreases s.len(),
{
    if s.len() > 0 {
        assert(forall|i: int|
            0 <= i < s.drop_last().len() ==> is_digit(#[trigger] s.drop_last()[i]));
        lemma_digits_val_nonneg(s.drop_last());
        assert(digits_val(s.drop_last()) * 10 >= 0) by (nonlinear_arith)
            requires
                digits_val(s.drop_last()) >= 0,
        ;
    }
}

/// Two well-formed readings of one line name the same digit run.
proof fn lemma_cl_line_unique(line: Seq<u8>, s2: int, e2: int, s: int, e: int)
    requires
        cl_line(line, s2, e2),
        cl_line(line, s, e),
    ensures
        s2 == s && e2 == e,
{
    if s2 < s {
        assert(is_digit(line[s2]) && is_space(line[s2]));
    }
    if s < s2 {
        assert(is_digit(line[s]) && is_space(line[s]));
    }
    if e2 < e {
        assert(is_digit(line[e2]) && is_space(line[e2]));
    }
    if e < e2 {
        assert(is_digit(line[e]) && is_space(line[e]));
    }
}

/// No well-formed reading exists when no digit follows the blanks after
/// the field name: `s` is the first non-blank position (or the line
/// end), and no digit stands there.
proof fn lemma_cl_line_no_digits(line: Seq<u8>, s2: int, e2: int, s: int)
    requires
        forall|u: int| 15 <= u < s ==> is_space(line[u]),
        15 <= s <= line.len(),
        s < line.len() ==> !is_space(line[s]),
        s < line.len() ==> !is_digit(line[s]),
    ensures
        !cl_line(line, s2, e2),
{
    if cl_line(line, s2, e2) {
        if s2 < s {
            assert(is_digit(line[s2]) && is_space(line[s2]));
        } else if s < s2 {
            assert(s < line.len());
            assert(is_space(line[s]));
        } else {
            assert(s2 < e2 <= line.len());
            assert(is_digit(line[s]));
        }
    }
}

/// No well-formed reading exists when the digit run is followed by a
/// byte that is neither blank nor digit before the line ends.
proof fn lemma_cl_line_bounds(line: Seq<u8>, s2: int, e2: int, s: int, e: int, t: int)
    requires
        forall|u: int| 15 <= u < s ==> is_space(line[u]),
        forall|u: int| s <= u < e ==> is_digit(line[u]),
        forall|u: int| e <= u < t ==> is_space(line[u]),
        15 <= s < e <= t < line.len(),
        !is_space(line[t]),
        !is_digit(line[e]),
    ensures
        !cl_line(line, s2, e2),
{
    if cl_line(line, s2, e2) {
        if s2 < s {
            assert(is_digit(line[s2]) && is_space(line[s2]));
        } else if s < s2 {
            assert(is_space(line[s]) && is_digit(line[s]));
        } else {
            if e2 < e {
                assert(is_digit(line[e2]) && is_space(line[e2]));
            } else if e < e2 {
                assert(is_digit(line[e]));
            } else {
                assert(is_space(line[t]));
            }
        }
    }
}

} // verus!
