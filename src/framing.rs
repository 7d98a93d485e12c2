//! Frames on the wire: a block of `Key: Value` header lines, a blank line,
//! then exactly `Content-Length` bytes of body.
use vstd::prelude::*;
use vstd::slice::{slice_subrange, slice_to_vec};

verus! {

/// A header line of a frame that this library understands.
#[derive(Debug, Clone, Copy, PartialEq, Eq, Structural)]
pub enum LSPHeader {
    ContentType,
    ContentLength(usize),
}

/// Why a frame could not be read.
#[derive(Debug, PartialEq, Eq, Structural)]
pub enum FramingError {
    /// A header line has no `:`, or `Content-Length` is missing or not a number.
    MalformedHeader,
    /// The stream ended inside a header block or a body.
    Truncated,
}

/// What the start of a byte buffer holds.
#[derive(Debug, PartialEq)]
pub enum Decoded {
    /// One whole frame: its body, and how many bytes of the buffer it used.
    Frame { body: Vec<u8>, consumed: usize },
    /// The frame is not complete yet; more bytes may still come.
    NeedMore,
    /// The stream ended cleanly, between two frames.
    Eof,
}

pub open spec fn is_digit(b: u8) -> bool {
    48 <= b <= 57
}

pub open spec fn all_digits(s: Seq<u8>) -> bool {
    forall|i: int| 0 <= i < s.len() ==> is_digit(#[trigger] s[i])
}

/// The number that a string of decimal digits denotes.
pub open spec fn decimal_value(s: Seq<u8>) -> nat
    decreases s.len(),
{
    if s.len() == 0 {
        0
    } else {
        decimal_value(s.drop_last()) * 10 + (s.last() - 48) as nat
    }
}

/// The shortest decimal writing of `n`.
pub open spec fn decimal_digits(n: nat) -> Seq<u8>
    decreases n,
{
    if n < 10 {
        seq![(48 + n) as u8]
    } else {
        decimal_digits(n / 10).push((48 + n % 10) as u8)
    }
}

pub open spec fn lower(b: u8) -> u8 {
    if 65 <= b <= 90 {
        (b + 32) as u8
    } else {
        b
    }
}

/// `key` equals the lower-case `name` when ASCII case is ignored.
pub open spec fn same_ignoring_case(key: Seq<u8>, name: Seq<u8>) -> bool {
    key.len() == name.len() && forall|i: int| 0 <= i < key.len() ==> lower(#[trigger] key[i]) == name[i]
}

/// `content-length`
pub open spec fn content_length_name() -> Seq<u8> {
    seq![99u8, 111, 110, 116, 101, 110, 116, 45, 108, 101, 110, 103, 116, 104]
}

/// `content-type`
pub open spec fn content_type_name() -> Seq<u8> {
    seq![99u8, 111, 110, 116, 101, 110, 116, 45, 116, 121, 112, 101]
}

/// `Content-Length: `
pub open spec fn length_prefix() -> Seq<u8> {
    seq![67u8, 111, 110, 116, 101, 110, 116, 45, 76, 101, 110, 103, 116, 104, 58, 32]
}

/// `\r\n\r\n`
pub open spec fn blank_line() -> Seq<u8> {
    seq![13u8, 10, 13, 10]
}

/// The frame that carries `body`.
pub open spec fn frame_of(body: Seq<u8>) -> Seq<u8> {
    length_prefix() + decimal_digits(body.len()) + blank_line() + body
}

/// `c` is the first position of byte `b` in `s`.
pub open spec fn first_index_of(s: Seq<u8>, b: u8, c: int) -> bool {
    0 <= c < s.len() && s[c] == b && forall|j: int| 0 <= j < c ==> s[j] != b
}

pub open spec fn skip_spaces(s: Seq<u8>) -> Seq<u8>
    decreases s.len(),
{
    if s.len() > 0 && s[0] == 32 {
        skip_spaces(s.drop_first())
    } else {
        s
    }
}

/// What one header line (without its line break) means. The key ends at the
/// first `:`; spaces after the `:` are skipped; keys match in any case; keys
/// other than the two known ones are ignored.
pub open spec fn header_spec(line: Seq<u8>) -> Result<Option<LSPHeader>, FramingError> {
    if exists|c: int| first_index_of(line, 58, c) {
        let c = choose|c: int| first_index_of(line, 58, c);
        let key = line.subrange(0, c);
        let value = skip_spaces(line.subrange(c + 1, line.len() as int));
        if same_ignoring_case(key, content_length_name()) {
            if value.len() > 0 && all_digits(value) && decimal_value(value) <= usize::MAX {
                Ok(Some(LSPHeader::ContentLength(decimal_value(value) as usize)))
            } else {
                Err(FramingError::MalformedHeader)
            }
        } else if same_ignoring_case(key, content_type_name()) {
            Ok(Some(LSPHeader::ContentType))
        } else {
            Ok(None)
        }
    } else {
        Err(FramingError::MalformedHeader)
    }
}

/// The position of the first `\r\n` at or after `start`, or -1.
pub open spec fn find_crlf(buf: Seq<u8>, start: int) -> int
    decreases buf.len() - start,
{
    if start < 0 || start + 1 >= buf.len() {
        -1
    } else if buf[start] == 13 && buf[start + 1] == 10 {
        start
    } else {
        find_crlf(buf, start + 1)
    }
}

/// The result of reading the header block.
pub ghost enum HeaderScan {
    Incomplete,
    Malformed,
    Done { body_start: int, length: Option<usize> },
}

/// Reads header lines from `start`, the last `Content-Length` seen being `length`.
pub open spec fn scan_headers(buf: Seq<u8>, start: int, length: Option<usize>) -> HeaderScan
    decreases buf.len() - start,
{
    let e = find_crlf(buf, start);
    if start < 0 || e < start || e + 2 > buf.len() {
        HeaderScan::Incomplete
    } else if e == start {
        HeaderScan::Done { body_start: start + 2, length }
    } else {
        match header_spec(buf.subrange(start, e)) {
            Err(_) => HeaderScan::Malformed,
            Ok(Some(LSPHeader::ContentLength(n))) => scan_headers(buf, e + 2, Some(n)),
            Ok(_) => scan_headers(buf, e + 2, length),
        }
    }
}

/// What a buffer holds, `eof` telling whether the stream has ended after it.
pub ghost enum FrameOutcome {
    Eof,
    NeedMore,
    Frame { start: int, end: int },
    Failed { err: FramingError },
}

pub open spec fn frame_outcome(buf: Seq<u8>, eof: bool) -> FrameOutcome {
    if buf.len() == 0 && eof {
        FrameOutcome::Eof
    } else {
        match scan_headers(buf, 0, None) {
            HeaderScan::Malformed => FrameOutcome::Failed { err: FramingError::MalformedHeader },
            HeaderScan::Done { body_start, length: None } => FrameOutcome::Failed {
                err: FramingError::MalformedHeader,
            },
            HeaderScan::Done { body_start, length: Some(n) } => if body_start + n <= buf.len() {
                FrameOutcome::Frame { start: body_start, end: body_start + n }
            } else if eof {
                FrameOutcome::Failed { err: FramingError::Truncated }
            } else {
                FrameOutcome::NeedMore
            },
            HeaderScan::Incomplete => if eof {
                FrameOutcome::Failed { err: FramingError::Truncated }
            } else {
                FrameOutcome::NeedMore
            },
        }
    }
}

/// `r` is what `frame_outcome` describes for `buf`.
pub open spec fn decoded_as(r: Result<Decoded, FramingError>, buf: Seq<u8>, eof: bool) -> bool {
    match frame_outcome(buf, eof) {
        FrameOutcome::Eof => r matches Ok(Decoded::Eof),
        FrameOutcome::NeedMore => r matches Ok(Decoded::NeedMore),
        FrameOutcome::Frame { start, end } => match r {
            Ok(Decoded::Frame { body, consumed }) => body@ == buf.subrange(start, end)
                && consumed == end,
            _ => false,
        },
        FrameOutcome::Failed { err } => r == Err::<Decoded, FramingError>(err),
    }
}

pub proof fn lemma_decimal_digits(n: nat)
    ensures
        decimal_digits(n).len() >= 1,
        all_digits(decimal_digits(n)),
        decimal_value(decimal_digits(n)) == n,
    decreases n,
{
    if n >= 10 {
        lemma_decimal_digits(n / 10);
        let d = decimal_digits(n);
        assert(d.drop_last() =~= decimal_digits(n / 10));
        assert(d.last() == (48 + n % 10) as u8);
        assert(d.last() - 48 == n % 10);
        assert(n == (n / 10) * 10 + n % 10) by (nonlinear_arith);
        assert(decimal_value(d) == decimal_value(d.drop_last()) * 10 + (d.last() - 48) as nat);
        assert forall|i: int| 0 <= i < d.len() implies is_digit(#[trigger] d[i]) by {
            if i < d.len() - 1 {
                assert(d[i] == decimal_digits(n / 10)[i]);
            }
        };
    } else {
        let d = decimal_digits(n);
        assert(d.drop_last() =~= Seq::<u8>::empty());
        assert(d.last() - 48 == n);
        assert(decimal_value(d) == decimal_value(d.drop_last()) * 10 + (d.last() - 48) as nat);
    }
}

proof fn lemma_prefix_value(s: Seq<u8>, i: int)
    requires
        all_digits(s),
        0 <= i <= s.len(),
    ensures
        decimal_value(s.subrange(0, i)) <= decimal_value(s),
    decreases s.len(),
{
    if i < s.len() {
        lemma_prefix_value(s.drop_last(), i);
        assert(s.drop_last().subrange(0, i) =~= s.subrange(0, i));
    } else {
        assert(s.subrange(0, i) =~= s);
    }
}

/// Appends the decimal writing of `n`.
pub fn push_decimal(n: u64, out: &mut Vec<u8>)
    ensures
        final(out)@ == old(out)@ + decimal_digits(n as nat),
    decreases n,
{
    if n >= 10 {
        push_decimal(n / 10, out);
    }
    out.push((48 + n % 10) as u8);
    assert(final(out)@ =~= old(out)@ + decimal_digits(n as nat));
}

/// The value of a non-empty string of decimal digits, where it fits in a `u64`.
pub fn parse_decimal(s: &[u8]) -> (r: Option<u64>)
    ensures
        r == (if s@.len() > 0 && all_digits(s@) && decimal_value(s@) <= u64::MAX {
            Some(decimal_value(s@) as u64)
        } else {
            None::<u64>
        }),
{
    if s.len() == 0 {
        return None;
    }
    let mut acc: u64 = 0;
    let mut i: usize = 0;
    while i < s.len()
        invariant
            0 <= i <= s@.len(),
            all_digits(s@.subrange(0, i as int)),
            acc as nat == decimal_value(s@.subrange(0, i as int)),
        decreases s@.len() - i,
    {
        let b = s[i];
        if b < 48 || b > 57 {
            return None;
        }
        let d = (b - 48) as u64;
        assert(s@.subrange(0, i + 1).drop_last() =~= s@.subrange(0, i as int));
        if acc > (u64::MAX - d) / 10 {
            proof {
                assert(decimal_value(s@.subrange(0, i + 1)) > u64::MAX) by (nonlinear_arith)
                    requires
                        acc > (u64::MAX - d) / 10,
                        decimal_value(s@.subrange(0, i + 1)) == acc * 10 + d,
                        d <= 9,
                ;
                if all_digits(s@) {
                    lemma_prefix_value(s@, i + 1);
                }
            }
            return None;
        }
        acc = acc * 10 + d;
        i = i + 1;
    }
    assert(s@.subrange(0, s@.len() as int) =~= s@);
    Some(acc)
}

/// Builds the frame that carries `body`.
pub fn encode_frame(body: &[u8]) -> (r: Vec<u8>)
    ensures
        r@ == frame_of(body@),
{
    let mut out: Vec<u8> = vec![67u8, 111, 110, 116, 101, 110, 116, 45, 76, 101, 110, 103, 116, 104, 58, 32];
    push_decimal(body.len() as u64, &mut out);
    out.push(13);
    out.push(10);
    out.push(13);
    out.push(10);
    let mut rest = slice_to_vec(body);
    out.append(&mut rest);
    assert(out@ =~= frame_of(body@));
    out
}

fn lower_byte(b: u8) -> (r: u8)
    ensures
        r == lower(b),
{
    if 65 <= b && b <= 90 {
        b + 32
    } else {
        b
    }
}

/// Whether `line[start..end]` equals the lower-case `name` when ASCII case is ignored.
fn key_matches(line: &[u8], end: usize, name: &Vec<u8>) -> (r: bool)
    requires
        end <= line@.len(),
    ensures
        r == same_ignoring_case(line@.subrange(0, end as int), name@),
{
    if end != name.len() {
        return false;
    }
    let mut i: usize = 0;
    while i < end
        invariant
            i <= end,
            end == name@.len(),
            end <= line@.len(),
            forall|j: int| 0 <= j < i ==> lower(line@[j]) == name@[j],
        decreases end - i,
    {
        if lower_byte(line[i]) != name[i] {
            assert(lower(line@.subrange(0, end as int)[i as int]) != name@[i as int]);
            return false;
        }
        i = i + 1;
    }
    assert forall|j: int| 0 <= j < end implies lower(#[trigger] line@.subrange(0, end as int)[j])
        == name@[j] by {
        assert(line@.subrange(0, end as int)[j] == line@[j]);
    };
    true
}

/// Reads one header line, given without its line break.
pub fn parse_header(line: &[u8]) -> (r: Result<Option<LSPHeader>, FramingError>)
    ensures
        r == header_spec(line@),
{
    let mut c: usize = 0;
    while c < line.len() && line[c] != 58
        invariant
            c <= line@.len(),
            forall|j: int| 0 <= j < c ==> line@[j] != 58,
        decreases line@.len() - c,
    {
        c = c + 1;
    }
    if c == line.len() {
        assert(!exists|k: int| first_index_of(line@, 58, k));
        return Err(FramingError::MalformedHeader);
    }
    assert(first_index_of(line@, 58, c as int));
    let ghost k = choose|k: int| first_index_of(line@, 58, k);
    assert(k == c) by {
        if k < c {
            assert(line@[k] != 58);
        } else if k > c {
            assert(line@[c as int] != 58);
        }
    };
    let mut v: usize = c + 1;
    while v < line.len() && line[v] == 32
        invariant
            c + 1 <= v <= line@.len(),
            skip_spaces(line@.subrange(v as int, line@.len() as int)) == skip_spaces(
                line@.subrange(c + 1, line@.len() as int),
            ),
        decreases line@.len() - v,
    {
        assert(line@.subrange(v as int, line@.len() as int).drop_first() =~= line@.subrange(
            v + 1,
            line@.len() as int,
        ));
        v = v + 1;
    }
    let ghost value = line@.subrange(v as int, line@.len() as int);
    assert(skip_spaces(value) == value);
    let length_name: Vec<u8> = vec![99u8, 111, 110, 116, 101, 110, 116, 45, 108, 101, 110, 103, 116, 104];
    let ctype_name: Vec<u8> = vec![99u8, 111, 110, 116, 101, 110, 116, 45, 116, 121, 112, 101];
    assert(length_name@ =~= content_length_name());
    assert(ctype_name@ =~= content_type_name());
    if key_matches(line, c, &length_name) {
        let digits = slice_subrange(line, v, line.len());
        match parse_decimal(digits) {
            Some(n) => {
                if n <= usize::MAX as u64 {
                    Ok(Some(LSPHeader::ContentLength(n as usize)))
                } else {
                    Err(FramingError::MalformedHeader)
                }
            },
            None => Err(FramingError::MalformedHeader),
        }
    } else if key_matches(line, c, &ctype_name) {
        Ok(Some(LSPHeader::ContentType))
    } else {
        Ok(None)
    }
}

proof fn lemma_find_crlf_bounds(buf: Seq<u8>, start: int)
    ensures
        find_crlf(buf, start) == -1 || (start <= find_crlf(buf, start) && find_crlf(buf, start)
            + 2 <= buf.len()),
    decreases buf.len() - start,
{
    if start >= 0 && start + 1 < buf.len() && !(buf[start] == 13 && buf[start + 1] == 10) {
        lemma_find_crlf_bounds(buf, start + 1);
    }
}

/// The position of the first `\r\n` at or after `start`.
fn next_crlf(buf: &[u8], start: usize) -> (r: Option<usize>)
    requires
        start <= buf@.len(),
    ensures
        match r {
            Some(e) => e as int == find_crlf(buf@, start as int),
            None => find_crlf(buf@, start as int) == -1,
        },
{
    let mut i: usize = start;
    while i < buf.len() && i + 1 < buf.len()
        invariant
            start <= i <= buf@.len(),
            find_crlf(buf@, i as int) == find_crlf(buf@, start as int),
        decreases buf@.len() - i,
    {
        if buf[i] == 13 && buf[i + 1] == 10 {
            return Some(i);
        }
        i = i + 1;
    }
    None
}

/// Reads the frame at the start of `buf`, the bytes that have arrived so far;
/// `eof` tells whether the stream has ended after them.
pub fn decode_frame(buf: &[u8], eof: bool) -> (r: Result<Decoded, FramingError>)
    ensures
        decoded_as(r, buf@, eof),
{
    if buf.len() == 0 && eof {
        return Ok(Decoded::Eof);
    }
    let total = buf.len();
    let mut pos: usize = 0;
    let mut length: Option<usize> = None;
    loop
        invariant
            total == buf@.len(),
            pos <= buf@.len(),
            !(buf@.len() == 0 && eof),
            scan_headers(buf@, pos as int, length) == scan_headers(buf@, 0, None),
        decreases buf@.len() - pos,
    {
        proof {
            lemma_find_crlf_bounds(buf@, pos as int);
        }
        match next_crlf(buf, pos) {
            None => {
                return if eof {
                    Err(FramingError::Truncated)
                } else {
                    Ok(Decoded::NeedMore)
                };
            },
            Some(e) => {
                if e == pos {
                    let start = pos + 2;
                    match length {
                        None => {
                            return Err(FramingError::MalformedHeader);
                        },
                        Some(n) => {
                            if n <= buf.len() - start {
                                let body = slice_to_vec(slice_subrange(buf, start, start + n));
                                return Ok(Decoded::Frame { body, consumed: start + n });
                            } else if eof {
                                return Err(FramingError::Truncated);
                            } else {
                                return Ok(Decoded::NeedMore);
                            }
                        },
                    }
                }
                match parse_header(slice_subrange(buf, pos, e)) {
                    Err(_) => {
                        return Err(FramingError::MalformedHeader);
                    },
                    Ok(Some(LSPHeader::ContentLength(n))) => {
                        length = Some(n);
                    },
                    Ok(_) => {},
                }
                pos = e + 2;
            },
        }
    }
}

proof fn lemma_find_crlf_skip(buf: Seq<u8>, a: int, b: int)
    requires
        0 <= a <= b,
        b + 1 < buf.len(),
        buf[b] == 13,
        buf[b + 1] == 10,
        forall|j: int| a <= j < b ==> buf[j] != 13,
    ensures
        find_crlf(buf, a) == b,
    decreases b - a,
{
    if a < b {
        lemma_find_crlf_skip(buf, a + 1, b);
    }
}

/// The header block that declares a body of `n` bytes.
pub open spec fn header_block(n: nat) -> Seq<u8> {
    length_prefix() + decimal_digits(n) + blank_line()
}

proof fn lemma_scan_header_block(n: nat, rest: Seq<u8>)
    requires
        n <= usize::MAX,
    ensures
        scan_headers(header_block(n) + rest, 0, None) == (HeaderScan::Done {
            body_start: header_block(n).len() as int,
            length: Some(n as usize),
        }),
{
    let d = decimal_digits(n);
    lemma_decimal_digits(n);
    let p = length_prefix();
    let buf = header_block(n) + rest;
    let e: int = 16 + d.len() as int;
    assert(p.len() == 16);
    assert(header_block(n).len() == e + 4);
    assert forall|j: int| 0 <= j < e implies buf[j] != 13 && buf[j] != 58 || j == 14 by {
        if j < 16 {
            assert(buf[j] == p[j]);
        } else {
            assert(buf[j] == d[j - 16]);
            assert(is_digit(d[j - 16]));
        }
    };
    assert(buf[e] == 13 && buf[e + 1] == 10 && buf[e + 2] == 13 && buf[e + 3] == 10);
    lemma_find_crlf_skip(buf, 0, e);
    lemma_find_crlf_skip(buf, e + 2, e + 2);
    let line = buf.subrange(0, e);
    assert(line =~= p + d);
    assert(first_index_of(line, 58, 14));
    let c = choose|c: int| first_index_of(line, 58, c);
    assert(c == 14) by {
        if c < 14 {
            assert(line[c] != 58);
        } else if c > 14 {
            assert(line[14] == 58);
        }
    };
    let key = line.subrange(0, 14);
    assert(key =~= p.subrange(0, 14));
    assert(same_ignoring_case(key, content_length_name()));
    let after = line.subrange(15, e);
    assert(after =~= seq![32u8] + d);
    assert(after.drop_first() =~= d);
    assert(skip_spaces(d) == d);
    assert(skip_spaces(after) == d);
    assert(header_spec(line) == Ok::<Option<LSPHeader>, FramingError>(
        Some(LSPHeader::ContentLength(n as usize)),
    ));
    assert(scan_headers(buf, e + 2, Some(n as usize)) == (HeaderScan::Done {
        body_start: e + 4,
        length: Some(n as usize),
    }));
}

/// A frame made by `encode_frame` reads back as exactly its body, whatever
/// bytes follow it and whether or not the stream ends after it.
pub proof fn lemma_frame_round_trip(body: Seq<u8>, rest: Seq<u8>, eof: bool)
    requires
        body.len() <= usize::MAX,
    ensures
        frame_outcome(frame_of(body) + rest, eof) == (FrameOutcome::Frame {
            start: frame_of(body).len() - body.len(),
            end: frame_of(body).len() as int,
        }),
        (frame_of(body) + rest).subrange(
            frame_of(body).len() - body.len(),
            frame_of(body).len() as int,
        ) == body,
{
    let h = header_block(body.len());
    let buf = frame_of(body) + rest;
    assert(buf =~= h + (body + rest));
    lemma_scan_header_block(body.len(), body + rest);
    assert(buf.subrange(h.len() as int, (h.len() + body.len()) as int) =~= body);
}

/// A header block that declares `n` bytes, followed by fewer than `n`: more
/// bytes are awaited while the stream is open, and the frame is truncated
/// once it has ended.
pub proof fn lemma_short_body(n: nat, partial: Seq<u8>)
    requires
        n <= usize::MAX,
        partial.len() < n,
    ensures
        frame_outcome(header_block(n) + partial, true) == (FrameOutcome::Failed {
            err: FramingError::Truncated,
        }),
        frame_outcome(header_block(n) + partial, false) == FrameOutcome::NeedMore,
{
    lemma_scan_header_block(n, partial);
}

} // verus!
