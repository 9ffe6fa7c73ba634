//! The response codec: turns an HTTP response (status, ordered header list,
//! raw body) into the three columns an idempotency row stores, and back.
//!
//! The header list is framed as a sequence of length-prefixed byte strings:
//! for each header, the name and then the value, each preceded by its length
//! as eight little-endian bytes.
use vstd::bytes::*;
use vstd::prelude::*;
use vstd::slice::slice_subrange;

verus! {

/// One response header: its name and its raw value bytes, in the order the
/// response carried them.
pub struct HeaderPair {
    pub name: Vec<u8>,
    pub value: Vec<u8>,
}

impl View for HeaderPair {
    type V = (Seq<u8>, Seq<u8>);

    open spec fn view(&self) -> (Seq<u8>, Seq<u8>) {
        (self.name@, self.value@)
    }
}

/// A framework-independent HTTP response: status code, ordered headers, body.
pub struct HttpResponse {
    pub status: u16,
    pub headers: Vec<HeaderPair>,
    pub body: Vec<u8>,
}

/// The mathematical value of a response.
pub struct ResponseView {
    pub status: u16,
    pub headers: Seq<(Seq<u8>, Seq<u8>)>,
    pub body: Seq<u8>,
}

pub open spec fn headers_view(hs: Seq<HeaderPair>) -> Seq<(Seq<u8>, Seq<u8>)> {
    hs.map_values(|h: HeaderPair| h@)
}

impl View for HttpResponse {
    type V = ResponseView;

    open spec fn view(&self) -> ResponseView {
        ResponseView { status: self.status, headers: headers_view(self.headers@), body: self.body@ }
    }
}

/// The response columns of an idempotency row, once processing has completed.
pub struct SavedResponse {
    pub status_code: u16,
    pub headers: Vec<u8>,
    pub body: Vec<u8>,
}

pub struct SavedView {
    pub status_code: u16,
    pub headers: Seq<u8>,
    pub body: Seq<u8>,
}

impl View for SavedResponse {
    type V = SavedView;

    open spec fn view(&self) -> SavedView {
        SavedView { status_code: self.status_code, headers: self.headers@, body: self.body@ }
    }
}

/// Why stored columns could not be turned back into a response.
#[derive(Debug, PartialEq, Eq, Structural, Clone, Copy)]
pub enum CodecError {
    InvalidStatusCode,
    MalformedHeaders,
}

/// An HTTP status code is a three-digit number.
pub open spec fn valid_status(code: u16) -> bool {
    100 <= code <= 999
}

pub open spec fn frame(b: Seq<u8>) -> Seq<u8> {
    spec_u64_to_le_bytes(b.len() as u64) + b
}

pub open spec fn header_bytes(h: (Seq<u8>, Seq<u8>)) -> Seq<u8> {
    frame(h.0) + frame(h.1)
}

/// The stored form of a header list.
pub open spec fn encode_headers(hs: Seq<(Seq<u8>, Seq<u8>)>) -> Seq<u8>
    decreases hs.len(),
{
    if hs.len() == 0 {
        Seq::empty()
    } else {
        encode_headers(hs.drop_last()) + header_bytes(hs.last())
    }
}

/// Splits one length-prefixed byte string off the front of `b`.
pub open spec fn take_frame(b: Seq<u8>) -> Option<(Seq<u8>, Seq<u8>)> {
    if b.len() < 8 {
        None
    } else {
        let n = spec_u64_from_le_bytes(b.take(8)) as int;
        if n <= b.len() - 8 {
            Some((b.subrange(8, 8 + n), b.skip(8 + n)))
        } else {
            None
        }
    }
}

/// Reads a stored header list; `None` when the bytes are not a sequence of
/// complete (name, value) frames.
pub open spec fn parse_headers(b: Seq<u8>) -> Option<Seq<(Seq<u8>, Seq<u8>)>>
    decreases b.len(),
{
    if b.len() == 0 {
        Some(Seq::empty())
    } else if let Some((name, rest)) = take_frame(b) {
        if let Some((value, rest2)) = take_frame(rest) {
            if let Some(tail) = parse_headers(rest2) {
                Some(seq![(name, value)] + tail)
            } else {
                None
            }
        } else {
            None
        }
    } else {
        None
    }
}

pub open spec fn encode_response(r: ResponseView) -> SavedView {
    SavedView { status_code: r.status, headers: encode_headers(r.headers), body: r.body }
}

pub open spec fn decode_response(s: SavedView) -> Result<ResponseView, CodecError> {
    if !valid_status(s.status_code) {
        Err(CodecError::InvalidStatusCode)
    } else if let Some(hs) = parse_headers(s.headers) {
        Ok(ResponseView { status: s.status_code, headers: hs, body: s.body })
    } else {
        Err(CodecError::MalformedHeaders)
    }
}


pub open spec fn prefix_with(
    acc: Seq<(Seq<u8>, Seq<u8>)>,
    o: Option<Seq<(Seq<u8>, Seq<u8>)>>,
) -> Option<Seq<(Seq<u8>, Seq<u8>)>> {
    match o {
        Some(t) => Some(acc + t),
        None => None,
    }
}

/// Every name and value of the list has a length that its eight-byte prefix
/// can hold; true of any list held in memory.
pub open spec fn headers_fit(hs: Seq<(Seq<u8>, Seq<u8>)>) -> bool {
    forall|i: int| 0 <= i < hs.len() ==> #[trigger] hs[i].0.len() <= u64::MAX && hs[i].1.len() <= u64::MAX
}

/// Copies `b[lo..hi]` into a fresh vector.
pub fn copy_range(b: &Vec<u8>, lo: usize, hi: usize) -> (r: Vec<u8>)
    requires
        lo <= hi <= b@.len(),
    ensures
        r@ == b@.subrange(lo as int, hi as int),
{
    let mut r: Vec<u8> = Vec::with_capacity(hi - lo);
    let mut i: usize = lo;
    while i < hi
        invariant
            lo <= i <= hi <= b@.len(),
            r@ == b@.subrange(lo as int, i as int),
        decreases hi - i,
    {
        r.push(b[i]);
        i = i + 1;
        assert(r@ =~= b@.subrange(lo as int, i as int));
    }
    r
}

fn push_frame(out: &mut Vec<u8>, b: &Vec<u8>)
    ensures
        final(out)@ == old(out)@ + frame(b@),
{
    let mut len_bytes = u64_to_le_bytes(b.len() as u64);
    out.append(&mut len_bytes);
    let mut content = copy_range(b, 0, b.len());
    assert(b@.subrange(0, b@.len() as int) =~= b@);
    out.append(&mut content);
    assert(final(out)@ =~= old(out)@ + frame(b@));
}

/// Serialises a header list to its stored form, keeping the order.
pub fn encode_header_list(headers: &Vec<HeaderPair>) -> (r: Vec<u8>)
    ensures
        r@ == encode_headers(headers_view(headers@)),
{
    let mut out: Vec<u8> = Vec::new();
    let mut i: usize = 0;
    while i < headers.len()
        invariant
            i <= headers@.len(),
            out@ == encode_headers(headers_view(headers@.take(i as int))),
        decreases headers@.len() - i,
    {
        let ghost before = out@;
        push_frame(&mut out, &headers[i].name);
        push_frame(&mut out, &headers[i].value);
        proof {
            let hv = headers_view(headers@.take(i + 1));
            assert(hv.drop_last() =~= headers_view(headers@.take(i as int)));
            assert(hv.last() == headers@[i as int]@);
            assert(out@ =~= before + header_bytes(headers@[i as int]@));
        }
        i = i + 1;
    }
    assert(headers@.take(headers@.len() as int) =~= headers@);
    out
}

proof fn lemma_take_frame_of_split(b: Seq<u8>, pos: int, n: int)
    requires
        0 <= pos,
        pos + 8 <= b.len(),
        n == spec_u64_from_le_bytes(b.subrange(pos, pos + 8)) as int,
    ensures
        b.skip(pos).len() >= 8,
        spec_u64_from_le_bytes(b.skip(pos).take(8)) as int == n,
        n <= b.len() - pos - 8 ==> take_frame(b.skip(pos)) == Some(
            (b.subrange(pos + 8, pos + 8 + n), b.skip(pos + 8 + n)),
        ),
        n > b.len() - pos - 8 ==> take_frame(b.skip(pos)) is None,
{
    assert(b.skip(pos).take(8) =~= b.subrange(pos, pos + 8));
    if n <= b.len() - pos - 8 {
        assert(b.skip(pos).subrange(8, 8 + n) =~= b.subrange(pos + 8, pos + 8 + n));
        assert(b.skip(pos).skip(8 + n) =~= b.skip(pos + 8 + n));
    }
}

/// Reads one length-prefixed frame at `pos`: `Some((content, next))` exactly
/// when `take_frame` succeeds on `b[pos..]`.
fn read_frame(b: &Vec<u8>, pos: usize) -> (r: Option<(Vec<u8>, usize)>)
    requires
        pos <= b@.len(),
    ensures
        match r {
            Some((c, next)) => take_frame(b@.skip(pos as int)) == Some(
                (c@, b@.skip(next as int)),
            ) && pos < next <= b@.len(),
            None => take_frame(b@.skip(pos as int)) is None,
        },
{
    let rest = b.len() - pos;
    if rest < 8 {
        return None;
    }
    let n = u64_from_le_bytes(slice_subrange(b.as_slice(), pos, pos + 8));
    proof {
        lemma_take_frame_of_split(b@, pos as int, n as int);
    }
    if n > (rest - 8) as u64 {
        return None;
    }
    let n = n as usize;
    let content = copy_range(b, pos + 8, pos + 8 + n);
    Some((content, pos + 8 + n))
}

/// Reads a stored header list back, exactly as `parse_headers` describes.
pub fn decode_header_list(b: &Vec<u8>) -> (r: Option<Vec<HeaderPair>>)
    ensures
        match r {
            Some(hs) => parse_headers(b@) == Some(headers_view(hs@)),
            None => parse_headers(b@) is None,
        },
{
    let mut out: Vec<HeaderPair> = Vec::new();
    let mut pos: usize = 0;
    assert(b@.skip(0) =~= b@);
    assert(headers_view(out@) =~= Seq::empty());
    while pos < b.len()
        invariant
            pos <= b@.len(),
            parse_headers(b@) == prefix_with(headers_view(out@), parse_headers(b@.skip(pos as int))),
        decreases b@.len() - pos,
    {
        let ghost tail = b@.skip(pos as int);
        let first = read_frame(b, pos);
        let (name, p2) = match first {
            Some(f) => f,
            None => {
                return None;
            },
        };
        let second = read_frame(b, p2);
        let (value, p3) = match second {
            Some(f) => f,
            None => {
                proof {
                    assert(take_frame(tail) == Some((name@, b@.skip(p2 as int))));
                }
                return None;
            },
        };
        let ghost h = (name@, value@);
        let ghost before = headers_view(out@);
        out.push(HeaderPair { name, value });
        proof {
            assert(headers_view(out@) =~= before.push(h));
            match parse_headers(b@.skip(p3 as int)) {
                Some(t) => {
                    assert(before + (seq![h] + t) =~= before.push(h) + t);
                },
                None => {},
            }
        }
        pos = p3;
    }
    assert(b@.skip(pos as int) =~= Seq::empty());
    assert(headers_view(out@) + Seq::<(Seq<u8>, Seq<u8>)>::empty() =~= headers_view(out@));
    Some(out)
}


impl HttpResponse {
    /// Every header of a response in memory fits its length prefix.
    pub proof fn lemma_headers_fit(&self)
        ensures
            headers_fit(self@.headers),
    {
        assert forall|i: int| 0 <= i < self@.headers.len() implies #[trigger] self@.headers[i].0.len() <= u64::MAX
            && self@.headers[i].1.len() <= u64::MAX by {
            assert(self@.headers[i] == self.headers@[i]@);
            assert(self.headers@[i].name.len() == self.headers@[i].name@.len());
            assert(self.headers@[i].value.len() == self.headers@[i].value@.len());
        }
    }
}

/// Turns a response into the columns stored for it.
pub fn encode(r: &HttpResponse) -> (s: SavedResponse)
    ensures
        s@ == encode_response(r@),
{
    let body = copy_range(&r.body, 0, r.body.len());
    assert(r.body@.subrange(0, r.body@.len() as int) =~= r.body@);
    SavedResponse { status_code: r.status, headers: encode_header_list(&r.headers), body }
}

/// Rebuilds a response from stored columns; fails on a status code outside
/// 100..=999 or on a header column that is not well framed.
pub fn decode(s: &SavedResponse) -> (r: Result<HttpResponse, CodecError>)
    ensures
        match r {
            Ok(resp) => decode_response(s@) == Ok::<ResponseView, CodecError>(resp@),
            Err(e) => decode_response(s@) == Err::<ResponseView, CodecError>(e),
        },
{
    if s.status_code < 100 || s.status_code > 999 {
        return Err(CodecError::InvalidStatusCode);
    }
    match decode_header_list(&s.headers) {
        Some(headers) => {
            let body = copy_range(&s.body, 0, s.body.len());
            assert(s.body@.subrange(0, s.body@.len() as int) =~= s.body@);
            Ok(HttpResponse { status: s.status_code, headers, body })
        },
        None => Err(CodecError::MalformedHeaders),
    }
}

proof fn lemma_encode_headers_front(hs: Seq<(Seq<u8>, Seq<u8>)>)
    requires
        hs.len() > 0,
    ensures
        encode_headers(hs) == header_bytes(hs[0]) + encode_headers(hs.drop_first()),
    decreases hs.len(),
{
    if hs.len() == 1 {
        assert(hs.drop_last() =~= Seq::empty());
        assert(hs.drop_first() =~= Seq::empty());
        assert(encode_headers(hs) =~= header_bytes(hs[0]) + encode_headers(hs.drop_first()));
    } else {
        lemma_encode_headers_front(hs.drop_last());
        assert(hs.drop_last().drop_first() =~= hs.drop_first().drop_last());
        assert(hs.drop_first().last() == hs.last());
        assert(encode_headers(hs) =~= header_bytes(hs[0]) + encode_headers(hs.drop_first()));
    }
}

proof fn lemma_take_frame_of_frame(c: Seq<u8>, rest: Seq<u8>)
    requires
        c.len() <= u64::MAX,
    ensures
        take_frame(frame(c) + rest) == Some((c, rest)),
{
    lemma_auto_spec_u64_to_from_le_bytes();
    let b = frame(c) + rest;
    assert(b.take(8) =~= spec_u64_to_le_bytes(c.len() as u64));
    assert(b.subrange(8, 8 + c.len() as int) =~= c);
    assert(b.skip(8 + c.len() as int) =~= rest);
}

/// Reading the stored form of a header list gives the list back, in order.
pub proof fn lemma_headers_round_trip(hs: Seq<(Seq<u8>, Seq<u8>)>)
    requires
        headers_fit(hs),
    ensures
        parse_headers(encode_headers(hs)) == Some(hs),
    decreases hs.len(),
{
    if hs.len() == 0 {
        assert(hs =~= Seq::empty());
    } else {
        let tail = hs.drop_first();
        assert(headers_fit(tail)) by {
            assert forall|i: int| 0 <= i < tail.len() implies #[trigger] tail[i].0.len() <= u64::MAX
                && tail[i].1.len() <= u64::MAX by {
                assert(tail[i] == hs[i + 1]);
            }
        }
        lemma_headers_round_trip(tail);
        lemma_encode_headers_front(hs);
        assert(hs[0].0.len() <= u64::MAX && hs[0].1.len() <= u64::MAX);
        let e = encode_headers(hs);
        let rest1 = frame(hs[0].1) + encode_headers(tail);
        assert(e =~= frame(hs[0].0) + rest1);
        lemma_take_frame_of_frame(hs[0].0, rest1);
        lemma_take_frame_of_frame(hs[0].1, encode_headers(tail));
        lemma_auto_spec_u64_to_from_le_bytes();
        assert(e.len() > 0);
        assert(seq![hs[0]] + tail =~= hs);
    }
}

/// A response with a valid status code, once stored, replays as the same
/// status, the same headers in the same order, and the same body bytes.
pub proof fn lemma_response_round_trip(r: ResponseView)
    requires
        valid_status(r.status),
        headers_fit(r.headers),
    ensures
        decode_response(encode_response(r)) == Ok::<ResponseView, CodecError>(r),
{
    lemma_headers_round_trip(r.headers);
}

} // verus!
