//! The request reader: from the bytes that a connection delivers to a
//! request.

use vstd::prelude::*;
use crate::common::{HttpRequest, Headers, RequestModel};
use crate::literals::{
    content_length_name, content_length_name_bytes, host_name, host_name_bytes,
};
use crate::text::{
    copy_range, declared, number, read_number, run_len, scan, scan_back, trim, trim_end,
    trim_range, trim_start, ByteClass, Declared, lemma_run_len_bound,
};

verus! {

/// Why a request could not be read.
#[derive(Clone, Copy, Debug, PartialEq, Eq)]
pub enum ParseError {
    /// The first line does not hold exactly three words.
    RequestLine,
    /// The connection ended before the declared length of the body came.
    TruncatedBody,
}

/// The index just past the line that starts at `from`: past its line feed,
/// or the end of `s` where no line feed follows.
pub open spec fn line_end(s: Seq<u8>, from: int) -> int {
    let n = run_len(s.skip(from), ByteClass::Except(10));
    if from + n < s.len() {
        from + n + 1
    } else {
        s.len() as int
    }
}

/// The three words of a request line: method, path and version, with white
/// space before, between and after them. `None` where the line holds fewer
/// or more words.
pub open spec fn split_request_line(line: Seq<u8>) -> Option<(Seq<u8>, Seq<u8>, Seq<u8>)> {
    let a = trim_start(line);
    let m = run_len(a, ByteClass::Word) as int;
    let b = trim_start(a.skip(m));
    let p = run_len(b, ByteClass::Word) as int;
    let c = trim_start(b.skip(p));
    let v = run_len(c, ByteClass::Word) as int;
    let d = trim_start(c.skip(v));
    if m > 0 && p > 0 && v > 0 && d.len() == 0 {
        Some((a.take(m), b.take(p), c.take(v)))
    } else {
        None
    }
}

/// The name and value of a header line, each without surrounding white
/// space: what stands before the first colon and what stands after it.
/// `None` for a line without a colon.
pub open spec fn split_field(line: Seq<u8>) -> Option<(Seq<u8>, Seq<u8>)> {
    let c = run_len(line, ByteClass::Except(58)) as int;
    if c < line.len() {
        Some((trim(line.take(c)), trim(line.skip(c + 1))))
    } else {
        None
    }
}

/// The fields after one more header line: a line with a colon sets its
/// name to its value, a line without one changes nothing.
pub open spec fn add_field(acc: Map<Seq<u8>, Seq<u8>>, line: Seq<u8>) -> Map<Seq<u8>, Seq<u8>> {
    match split_field(line) {
        Some(f) => acc.insert(f.0, f.1),
        None => acc,
    }
}

/// Reads header lines from `from` on, starting with the fields `acc`, up to
/// the first line that is empty but for white space, or to the end of `s`.
/// Gives the fields and the index at which the body starts.
pub open spec fn read_fields(s: Seq<u8>, from: int, acc: Map<Seq<u8>, Seq<u8>>) -> (
    Map<Seq<u8>, Seq<u8>>,
    int,
)
    decreases s.len() - from,
{
    if from < 0 || from >= s.len() {
        (acc, s.len() as int)
    } else {
        let next = line_end(s, from);
        let line = trim_end(s.subrange(from, next));
        if line.len() == 0 {
            (acc, next)
        } else {
            read_fields(s, next, add_field(acc, line))
        }
    }
}

/// What the head of a request says, as mathematical values.
pub struct HeadModel {
    /// The request, with an empty body.
    pub request: RequestModel,
    /// The index at which the body starts.
    pub body_start: int,
    /// The length that the head declares for the body, if it declares one.
    pub body_len: Option<nat>,
}

/// The head of the request that `s` starts with: request line and header
/// section. `None` where the request line is malformed.
pub open spec fn head_of(s: Seq<u8>) -> Option<HeadModel> {
    let first_end = line_end(s, 0);
    match split_request_line(s.subrange(0, first_end)) {
        None => None,
        Some(words) => {
            let (headers, body_start) = read_fields(s, first_end, Map::empty());
            Some(
                HeadModel {
                    request: RequestModel {
                        version: words.2,
                        method: words.0,
                        path: words.1,
                        host: if headers.contains_key(host_name()) {
                            headers[host_name()]
                        } else {
                            Seq::empty()
                        },
                        headers,
                        body: Seq::empty(),
                    },
                    body_start,
                    body_len: if headers.contains_key(content_length_name()) {
                        number(headers[content_length_name()])
                    } else {
                        None
                    },
                },
            )
        },
    }
}

/// The request that the bytes `s` of a connection hold. The body is empty
/// where the head declares no length, and else holds exactly the declared
/// number of bytes after the head; a connection that ends before them gives
/// no request.
pub open spec fn parse_request(s: Seq<u8>) -> Result<RequestModel, ParseError> {
    match head_of(s) {
        None => Err(ParseError::RequestLine),
        Some(h) => match h.body_len {
            None => Ok(h.request),
            Some(n) => if h.body_start + n <= s.len() {
                Ok(
                    RequestModel {
                        version: h.request.version,
                        method: h.request.method,
                        path: h.request.path,
                        host: h.request.host,
                        headers: h.request.headers,
                        body: s.subrange(h.body_start, h.body_start + n),
                    },
                )
            } else {
                Err(ParseError::TruncatedBody)
            },
        },
    }
}

/// The body starts after the line at which reading the fields began, and
/// within the bytes.
pub proof fn lemma_read_fields_bounds(s: Seq<u8>, from: int, acc: Map<Seq<u8>, Seq<u8>>)
    requires
        0 <= from <= s.len(),
    ensures
        from <= read_fields(s, from, acc).1 <= s.len(),
    decreases s.len() - from,
{
    if from < s.len() {
        lemma_run_len_bound(s.skip(from), ByteClass::Except(10));
        let next = line_end(s, from);
        if trim_end(s.subrange(from, next)).len() != 0 {
            lemma_read_fields_bounds(s, next, add_field(acc, trim_end(s.subrange(from, next))));
        }
    }
}

/// The length that the fields declare for the body: the number that the
/// length field spells, and nothing where there is no such field or it
/// spells no number.
pub open spec fn declared_length(headers: Map<Seq<u8>, Seq<u8>>) -> nat {
    if headers.contains_key(content_length_name()) {
        match number(headers[content_length_name()]) {
            Some(n) => n,
            None => 0,
        }
    } else {
        0
    }
}

/// The body of a request that was read always has the length that its
/// fields declare, and the host is the value of the host field.
pub proof fn lemma_body_has_declared_length(s: Seq<u8>)
    ensures
        match parse_request(s) {
            Ok(m) => m.body.len() == declared_length(m.headers) && (m.headers.contains_key(
                host_name(),
            ) ==> m.host == m.headers[host_name()]) && (!m.headers.contains_key(host_name())
                ==> m.host.len() == 0),
            Err(_) => true,
        },
{
    lemma_run_len_bound(s.skip(0), ByteClass::Except(10));
    lemma_read_fields_bounds(s, line_end(s, 0), Map::empty());
}

/// The head of a request as read.
#[derive(Debug)]
pub struct Head {
    /// The request, with an empty body.
    pub request: HttpRequest,
    /// The index at which the body starts.
    pub body_start: usize,
    /// The length that the head declares for the body.
    pub body_len: Declared,
}

impl Head {
    /// Whether the head holds what `m` says.
    pub open spec fn matches(&self, m: HeadModel) -> bool {
        &&& self.request@ == m.request
        &&& self.request.headers.wf()
        &&& self.body_start == m.body_start
        &&& self.body_len == match m.body_len {
            None => Declared::Absent,
            Some(n) => if n <= usize::MAX {
                Declared::Within(n as usize)
            } else {
                Declared::Beyond
            },
        }
    }
}

/// The index just past the line that starts at `from`.
pub fn next_line(s: &[u8], from: usize) -> (r: usize)
    requires
        from < s@.len(),
    ensures
        r == line_end(s@, from as int),
        from < r <= s@.len(),
{
    let e = scan(s, from, s.len(), ByteClass::Except(10));
    assert(s@.subrange(from as int, s@.len() as int) =~= s@.skip(from as int));
    if e < s.len() {
        e + 1
    } else {
        s.len()
    }
}

/// Splits the request line `s[lo..hi]` into its three words.
pub fn request_line_words(s: &[u8], lo: usize, hi: usize) -> (r: Option<
    (Vec<u8>, Vec<u8>, Vec<u8>),
>)
    requires
        lo <= hi <= s@.len(),
    ensures
        match r {
            Some(w) => split_request_line(s@.subrange(lo as int, hi as int)) == Some(
                (w.0@, w.1@, w.2@),
            ),
            None => split_request_line(s@.subrange(lo as int, hi as int)).is_none(),
        },
{
    let ghost line = s@.subrange(lo as int, hi as int);
    let a0 = scan(s, lo, hi, ByteClass::Space);
    let ghost a = trim_start(line);
    assert(a =~= s@.subrange(a0 as int, hi as int));
    let a1 = scan(s, a0, hi, ByteClass::Word);
    assert(a.skip(a1 - a0) =~= s@.subrange(a1 as int, hi as int));
    let b0 = scan(s, a1, hi, ByteClass::Space);
    let ghost b = trim_start(a.skip(a1 - a0));
    assert(b =~= s@.subrange(b0 as int, hi as int));
    let b1 = scan(s, b0, hi, ByteClass::Word);
    assert(b.skip(b1 - b0) =~= s@.subrange(b1 as int, hi as int));
    let c0 = scan(s, b1, hi, ByteClass::Space);
    let ghost c = trim_start(b.skip(b1 - b0));
    assert(c =~= s@.subrange(c0 as int, hi as int));
    let c1 = scan(s, c0, hi, ByteClass::Word);
    assert(c.skip(c1 - c0) =~= s@.subrange(c1 as int, hi as int));
    let d0 = scan(s, c1, hi, ByteClass::Space);
    let ghost d = trim_start(c.skip(c1 - c0));
    assert(d =~= s@.subrange(d0 as int, hi as int));
    if a1 > a0 && b1 > b0 && c1 > c0 && d0 == hi {
        let method = copy_range(s, a0, a1);
        let path = copy_range(s, b0, b1);
        let version = copy_range(s, c0, c1);
        assert(method@ =~= a.take(a1 - a0));
        assert(path@ =~= b.take(b1 - b0));
        assert(version@ =~= c.take(c1 - c0));
        Some((method, path, version))
    } else {
        None
    }
}

/// Reads the header line `s[lo..hi]`, which has no white space at its end,
/// into `headers`.
pub fn read_field(headers: &mut Headers, s: &[u8], lo: usize, hi: usize)
    requires
        lo <= hi <= s@.len(),
        old(headers).wf(),
    ensures
        final(headers).wf(),
        final(headers)@ == add_field(old(headers)@, s@.subrange(lo as int, hi as int)),
{
    let ghost line = s@.subrange(lo as int, hi as int);
    let c = scan(s, lo, hi, ByteClass::Except(58));
    if c < hi {
        let (n0, n1) = trim_range(s, lo, c);
        let (v0, v1) = trim_range(s, c + 1, hi);
        assert(line.take(c - lo) =~= s@.subrange(lo as int, c as int));
        assert(line.skip(c - lo + 1) =~= s@.subrange(c + 1, hi as int));
        let name = copy_range(s, n0, n1);
        let value = copy_range(s, v0, v1);
        headers.insert(name, value);
    }
}

/// Reads the head of a request: the request line and the header section.
pub fn parse_head(input: &[u8]) -> (r: Result<Head, ParseError>)
    ensures
        match r {
            Ok(h) => head_of(input@).is_some() && h.matches(head_of(input@).unwrap())
                && h.body_start <= input@.len(),
            Err(e) => head_of(input@).is_none() && e == ParseError::RequestLine,
        },
{
    let n = input.len();
    let first_end: usize = if n == 0 {
        0
    } else {
        next_line(input, 0)
    };
    proof {
        if n == 0 {
            lemma_run_len_bound(input@.skip(0), ByteClass::Except(10));
        }
    }
    let words = match request_line_words(input, 0, first_end) {
        Some(w) => w,
        None => {
            return Err(ParseError::RequestLine);
        },
    };
    let mut headers = Headers::new();
    let mut pos: usize = first_end;
    let mut done = false;
    let ghost goal = read_fields(input@, first_end as int, Map::empty());
    while pos < n && !done
        invariant
            n == input@.len(),
            pos <= n,
            headers.wf(),
            goal == (if done {
                (headers@, pos as int)
            } else {
                read_fields(input@, pos as int, headers@)
            }),
        decreases n - pos + (if done { 0int } else { 1int }),
    {
        let next = next_line(input, pos);
        let end = scan_back(input, pos, next);
        if end == pos {
            done = true;
        } else {
            read_field(&mut headers, input, pos, end);
        }
        pos = next;
    }
    let host = match headers.get(host_name_bytes().as_slice()) {
        Some(v) => v.clone(),
        None => Vec::new(),
    };
    let body_len = match headers.get(content_length_name_bytes().as_slice()) {
        Some(v) => read_number(v.as_slice(), usize::MAX),
        None => Declared::Absent,
    };
    Ok(
        Head {
            request: HttpRequest {
                version: words.2,
                method: words.0,
                path: words.1,
                host,
                headers,
                body: Vec::new(),
            },
            body_start: pos,
            body_len,
        },
    )
}

/// Reads a request from the bytes that a connection delivered up to its
/// end.
pub fn parse_http_request(input: &[u8]) -> (r: Result<HttpRequest, ParseError>)
    ensures
        match r {
            Ok(req) => parse_request(input@) == Ok::<RequestModel, ParseError>(req@)
                && req.headers.wf(),
            Err(e) => parse_request(input@) == Err::<RequestModel, ParseError>(e),
        },
{
    let head = match parse_head(input) {
        Ok(h) => h,
        Err(e) => {
            return Err(e);
        },
    };
    let total = input.len();
    match head.body_len {
        Declared::Absent => Ok(head.request),
        Declared::Beyond => Err(ParseError::TruncatedBody),
        Declared::Within(len) => {
            if len <= total - head.body_start {
                let mut request = head.request;
                request.body = copy_range(input, head.body_start, head.body_start + len);
                Ok(request)
            } else {
                Err(ParseError::TruncatedBody)
            }
        },
    }
}

} // verus!
