//! Requests, responses and their header fields.

use vstd::prelude::*;
use crate::literals::{
    body_bad_request, body_bad_request_bytes, body_not_found, body_not_found_bytes, http_version,
    http_version_bytes, reason_bad_request, reason_bad_request_bytes, reason_not_found,
    reason_not_found_bytes, reason_ok, reason_ok_bytes,
};
use crate::text::{append_bytes, decimal, decimal_bytes, same_bytes};

verus! {

/// A header field as a pair of byte strings: name, then value.
pub type Field = (Seq<u8>, Seq<u8>);

/// The mapping that a sequence of fields stands for: a later field replaces
/// an earlier one of the same name.
pub open spec fn fields_map(e: Seq<Field>) -> Map<Seq<u8>, Seq<u8>>
    decreases e.len(),
{
    if e.len() == 0 {
        Map::empty()
    } else {
        fields_map(e.drop_last()).insert(e.last().0, e.last().1)
    }
}

/// Whether no name occurs twice among the fields.
pub open spec fn distinct_names(e: Seq<Field>) -> bool {
    forall|i: int, j: int| 0 <= i < j < e.len() ==> (#[trigger] e[i]).0 != (#[trigger] e[j]).0
}

/// Whether some field of `e` has the name `n`.
pub open spec fn has_name(e: Seq<Field>, n: Seq<u8>) -> bool {
    exists|i: int| 0 <= i < e.len() && (#[trigger] e[i]).0 == n
}

/// The bytes of the header section that the fields are written as: for each
/// field its name, a colon and a space, its value, and a line break.
pub open spec fn header_lines(e: Seq<Field>) -> Seq<u8>
    decreases e.len(),
{
    if e.len() == 0 {
        Seq::empty()
    } else {
        header_lines(e.drop_last()) + e.last().0 + seq![58u8, 32u8] + e.last().1 + seq![
            13u8,
            10u8,
        ]
    }
}

/// The mapping holds exactly the names of the fields, and for a name that
/// occurs once the value beside it.
pub proof fn lemma_fields_map(e: Seq<Field>)
    ensures
        forall|n: Seq<u8>| #[trigger] fields_map(e).contains_key(n) <==> has_name(e, n),
        distinct_names(e) ==> forall|i: int|
            0 <= i < e.len() ==> fields_map(e)[(#[trigger] e[i]).0] == e[i].1,
    decreases e.len(),
{
    if e.len() > 0 {
        let f = e.drop_last();
        lemma_fields_map(f);
        assert forall|n: Seq<u8>| #[trigger] fields_map(e).contains_key(n) <==> has_name(
            e,
            n,
        ) by {
            if has_name(e, n) {
                let i = choose|i: int| 0 <= i < e.len() && (#[trigger] e[i]).0 == n;
                if i < e.len() - 1 {
                    assert(f[i].0 == n);
                    assert(has_name(f, n));
                    assert(fields_map(f).contains_key(n));
                } else {
                    assert(e.last().0 == n);
                }
                assert(fields_map(e).contains_key(n));
            }
            if fields_map(e).contains_key(n) {
                if n == e.last().0 {
                    assert(e[e.len() - 1].0 == n);
                } else {
                    assert(fields_map(f).contains_key(n));
                    assert(has_name(f, n));
                    let i = choose|i: int| 0 <= i < f.len() && (#[trigger] f[i]).0 == n;
                    assert(e[i].0 == n);
                }
            }
        }
        if distinct_names(e) {
            assert(distinct_names(f)) by {
                assert forall|i: int, j: int| 0 <= i < j < f.len() implies (#[trigger] f[i]).0 != (
                #[trigger] f[j]).0 by {
                    assert(e[i].0 != e[j].0);
                }
            }
            assert forall|i: int| 0 <= i < e.len() implies fields_map(e)[(#[trigger] e[i]).0]
                == e[i].1 by {
                if i < e.len() - 1 {
                    assert(f[i] == e[i]);
                    assert(e[i].0 != e[e.len() - 1].0);
                    assert(fields_map(f)[f[i].0] == f[i].1);
                }
            }
        }
    }
}

/// Replacing the value of a field whose name occurs once replaces it in the
/// mapping.
pub proof fn lemma_fields_map_update(e: Seq<Field>, i: int, v: Seq<u8>)
    requires
        0 <= i < e.len(),
        distinct_names(e),
    ensures
        distinct_names(e.update(i, (e[i].0, v))),
        fields_map(e.update(i, (e[i].0, v))) == fields_map(e).insert(e[i].0, v),
    decreases e.len(),
{
    let n = e[i].0;
    let g = e.update(i, (n, v));
    assert forall|a: int, b: int| 0 <= a < b < g.len() implies (#[trigger] g[a]).0 != (
    #[trigger] g[b]).0 by {
        assert(e[a].0 != e[b].0);
    }
    let f = e.drop_last();
    if i == e.len() - 1 {
        assert(g.drop_last() =~= f);
        assert(fields_map(g) =~= fields_map(e).insert(n, v));
    } else {
        assert(distinct_names(f)) by {
            assert forall|a: int, b: int| 0 <= a < b < f.len() implies (#[trigger] f[a]).0 != (
            #[trigger] f[b]).0 by {
                assert(e[a].0 != e[b].0);
            }
        }
        lemma_fields_map_update(f, i, v);
        assert(f[i] == e[i]);
        assert(g.drop_last() =~= f.update(i, (n, v)));
        assert(g.last() == e.last());
        assert(e[i].0 != e[e.len() - 1].0);
        assert(fields_map(g) =~= fields_map(e).insert(n, v));
    }
}

/// One header field.
#[derive(Debug)]
pub struct Header {
    pub name: Vec<u8>,
    pub value: Vec<u8>,
}

/// The header fields of a message: a mapping from case-sensitive names to
/// values, kept in the order in which the names first came.
#[derive(Debug)]
pub struct Headers {
    entries: Vec<Header>,
}

impl Headers {
    /// The fields in the order in which their names first came.
    pub closed spec fn fields(&self) -> Seq<Field> {
        Seq::new(self.entries@.len(), |i: int| (self.entries@[i].name@, self.entries@[i].value@))
    }

    /// The mapping from names to values.
    pub open spec fn view(&self) -> Map<Seq<u8>, Seq<u8>> {
        fields_map(self.fields())
    }

    /// No name is held twice.
    pub open spec fn wf(&self) -> bool {
        distinct_names(self.fields())
    }

    /// No fields.
    pub fn new() -> (r: Self)
        ensures
            r.wf(),
            r.fields() == Seq::<Field>::empty(),
            r@ == Map::<Seq<u8>, Seq<u8>>::empty(),
    {
        let r = Headers { entries: Vec::new() };
        assert(r.fields() =~= Seq::<Field>::empty());
        r
    }

    /// The number of fields.
    pub fn len(&self) -> (r: usize)
        ensures
            r == self.fields().len(),
    {
        self.entries.len()
    }

    /// The position of the field named `name`, if there is one.
    fn position(&self, name: &[u8]) -> (r: Option<usize>)
        ensures
            match r {
                Some(i) => i < self.fields().len() && self.fields()[i as int].0 == name@,
                None => !has_name(self.fields(), name@),
            },
    {
        let mut i: usize = 0;
        while i < self.entries.len()
            invariant
                i <= self.entries@.len(),
                forall|k: int| 0 <= k < i ==> (#[trigger] self.fields()[k]).0 != name@,
            decreases self.entries@.len() - i,
        {
            if same_bytes(self.entries[i].name.as_slice(), name) {
                return Some(i);
            }
            i = i + 1;
        }
        None
    }

    /// Sets the field named `name` to `value`: the value of a name already
    /// held is replaced where it stands, a new name comes last.
    pub fn insert(&mut self, name: Vec<u8>, value: Vec<u8>)
        requires
            old(self).wf(),
        ensures
            final(self).wf(),
            final(self)@ == old(self)@.insert(name@, value@),
            has_name(old(self).fields(), name@) ==> exists|i: int|
                0 <= i < old(self).fields().len() && (#[trigger] old(self).fields()[i]).0 == name@
                    && final(self).fields() == old(self).fields().update(i, (name@, value@)),
            !has_name(old(self).fields(), name@) ==> final(self).fields() == old(
                self,
            ).fields().push((name@, value@)),
    {
        let ghost before = self.fields();
        match self.position(name.as_slice()) {
            Some(i) => {
                let ghost v = value@;
                self.entries[i].value = value;
                proof {
                    assert(self.fields() =~= before.update(i as int, (before[i as int].0, v)));
                    lemma_fields_map_update(before, i as int, v);
                }
            },
            None => {
                let ghost n = name@;
                let ghost v = value@;
                self.entries.push(Header { name, value });
                proof {
                    assert(self.fields() =~= before.push((n, v)));
                    assert(self.fields().drop_last() =~= before);
                    assert forall|a: int, b: int| 0 <= a < b < self.fields().len() implies (
                    #[trigger] self.fields()[a]).0 != (#[trigger] self.fields()[b]).0 by {
                        if b < before.len() {
                            assert(before[a].0 != before[b].0);
                        } else {
                            assert(before[a].0 != n);
                        }
                    }
                }
            },
        }
    }

    /// The value of the field named `name`, if there is one.
    pub fn get(&self, name: &[u8]) -> (r: Option<&Vec<u8>>)
        requires
            self.wf(),
        ensures
            match r {
                Some(v) => self@.contains_key(name@) && v@ == self@[name@],
                None => !self@.contains_key(name@),
            },
    {
        proof {
            lemma_fields_map(self.fields());
        }
        match self.position(name) {
            Some(i) => {
                assert(self.fields()[i as int].1 == self.entries@[i as int].value@);
                Some(&self.entries[i].value)
            },
            None => None,
        }
    }

    /// Appends the header section to `out`: one line for each field.
    pub fn write_to(&self, out: &mut Vec<u8>)
        ensures
            final(out)@ == old(out)@ + header_lines(self.fields()),
    {
        let mut i: usize = 0;
        while i < self.entries.len()
            invariant
                i <= self.entries@.len(),
                out@ == old(out)@ + header_lines(self.fields().take(i as int)),
            decreases self.entries@.len() - i,
        {
            let ghost start = out@;
            append_bytes(out, self.entries[i].name.as_slice());
            out.push(58u8);
            out.push(32u8);
            append_bytes(out, self.entries[i].value.as_slice());
            out.push(13u8);
            out.push(10u8);
            i = i + 1;
            proof {
                let t = self.fields().take(i as int);
                assert(t.drop_last() =~= self.fields().take(i - 1));
                assert(t.last() == self.fields()[i - 1]);
                assert(out@ =~= start + t.last().0 + seq![58u8, 32u8] + t.last().1 + seq![
                    13u8,
                    10u8,
                ]);
                assert(out@ =~= old(out)@ + header_lines(t));
            }
        }
        assert(self.fields().take(i as int) =~= self.fields());
    }
}

/// What a request holds, as mathematical values.
pub struct RequestModel {
    pub version: Seq<u8>,
    pub method: Seq<u8>,
    pub path: Seq<u8>,
    pub host: Seq<u8>,
    pub headers: Map<Seq<u8>, Seq<u8>>,
    pub body: Seq<u8>,
}

/// A request as read from a connection.
#[derive(Debug)]
pub struct HttpRequest {
    pub version: Vec<u8>,
    pub method: Vec<u8>,
    pub path: Vec<u8>,
    pub host: Vec<u8>,
    pub headers: Headers,
    pub body: Vec<u8>,
}

impl HttpRequest {
    pub open spec fn view(&self) -> RequestModel {
        RequestModel {
            version: self.version@,
            method: self.method@,
            path: self.path@,
            host: self.host@,
            headers: self.headers@,
            body: self.body@,
        }
    }
}

/// What a response holds, as mathematical values. The fields stand in the
/// order in which they are written.
pub struct ResponseModel {
    pub version: Seq<u8>,
    pub status_code: nat,
    pub status_message: Seq<u8>,
    pub fields: Seq<Field>,
    pub body: Seq<u8>,
}

impl ResponseModel {
    /// The mapping from header names to values.
    pub open spec fn headers(self) -> Map<Seq<u8>, Seq<u8>> {
        fields_map(self.fields)
    }

    /// The status line without its line break: version, status code in
    /// decimal and reason phrase, with one space between them.
    pub open spec fn status_line(self) -> Seq<u8> {
        self.version + seq![32u8] + decimal(self.status_code) + seq![32u8] + self.status_message
    }

    /// The bytes that the response is sent as: the status line, the header
    /// section, one empty line, and the body as it is.
    pub open spec fn wire(self) -> Seq<u8> {
        self.status_line() + seq![13u8, 10u8] + header_lines(self.fields) + seq![13u8, 10u8]
            + self.body
    }
}

/// A response to be written to a connection.
#[derive(Debug)]
pub struct HttpResponse {
    pub version: Vec<u8>,
    pub status_code: u16,
    pub status_message: Vec<u8>,
    pub headers: Headers,
    pub body: Vec<u8>,
}

impl HttpResponse {
    pub open spec fn view(&self) -> ResponseModel {
        ResponseModel {
            version: self.version@,
            status_code: self.status_code as nat,
            status_message: self.status_message@,
            fields: self.headers.fields(),
            body: self.body@,
        }
    }

    /// Status 200 with the given body and no header fields.
    pub fn ok(body: Vec<u8>) -> (r: Self)
        ensures
            r.headers.wf(),
            r@ == (ResponseModel {
                version: http_version(),
                status_code: 200,
                status_message: reason_ok(),
                fields: Seq::empty(),
                body: body@,
            }),
    {
        HttpResponse {
            version: http_version_bytes(),
            status_code: 200,
            status_message: reason_ok_bytes(),
            headers: Headers::new(),
            body,
        }
    }

    /// Status 404 with a body that says so and no header fields.
    #[allow(non_snake_case)]
    pub fn NotFound() -> (r: Self)
        ensures
            r.headers.wf(),
            r@ == (ResponseModel {
                version: http_version(),
                status_code: 404,
                status_message: reason_not_found(),
                fields: Seq::empty(),
                body: body_not_found(),
            }),
    {
        HttpResponse {
            version: http_version_bytes(),
            status_code: 404,
            status_message: reason_not_found_bytes(),
            headers: Headers::new(),
            body: body_not_found_bytes(),
        }
    }

    /// Status 400 with a body that says so and no header fields.
    #[allow(non_snake_case)]
    pub fn BadRequest() -> (r: Self)
        ensures
            r.headers.wf(),
            r@ == (ResponseModel {
                version: http_version(),
                status_code: 400,
                status_message: reason_bad_request(),
                fields: Seq::empty(),
                body: body_bad_request(),
            }),
    {
        HttpResponse {
            version: http_version_bytes(),
            status_code: 400,
            status_message: reason_bad_request_bytes(),
            headers: Headers::new(),
            body: body_bad_request_bytes(),
        }
    }

    /// The bytes that the response is sent as. No header field is added:
    /// a length of the body is declared only where the response holds one.
    pub fn plain_text(&self) -> (r: Vec<u8>)
        ensures
            r@ == self@.wire(),
    {
        let mut r: Vec<u8> = Vec::new();
        append_bytes(&mut r, self.version.as_slice());
        r.push(32u8);
        let code = decimal_bytes(self.status_code as usize);
        append_bytes(&mut r, code.as_slice());
        r.push(32u8);
        append_bytes(&mut r, self.status_message.as_slice());
        r.push(13u8);
        r.push(10u8);
        assert(r@ =~= self@.status_line() + seq![13u8, 10u8]);
        self.headers.write_to(&mut r);
        r.push(13u8);
        r.push(10u8);
        append_bytes(&mut r, self.body.as_slice());
        assert(r@ =~= self@.wire());
        r
    }
}

/// The header section of a serialised response ends with exactly one empty
/// line, and the body follows it unchanged, however many fields there are.
pub proof fn lemma_wire_ends_with_body(m: ResponseModel)
    ensures
        m.wire().len() >= m.body.len() + 4,
        m.wire().skip(m.wire().len() - m.body.len()) == m.body,
        m.wire().subrange(m.wire().len() - m.body.len() - 2, m.wire().len() - m.body.len())
            == seq![13u8, 10u8],
        m.wire().subrange(m.wire().len() - m.body.len() - 4, m.wire().len() - m.body.len() - 2)
            == seq![13u8, 10u8],
{
    let head = m.status_line() + seq![13u8, 10u8] + header_lines(m.fields);
    assert(m.wire() =~= head + seq![13u8, 10u8] + m.body);
    assert(m.wire().skip(m.wire().len() - m.body.len()) =~= m.body);
    assert(m.wire().subrange(m.wire().len() - m.body.len() - 2, m.wire().len() - m.body.len())
        =~= seq![13u8, 10u8]);
    if m.fields.len() == 0 {
        assert(head =~= m.status_line() + seq![13u8, 10u8]);
    } else {
        let e = m.fields;
        let pre = m.status_line() + seq![13u8, 10u8] + header_lines(e.drop_last()) + e.last().0
            + seq![58u8, 32u8] + e.last().1;
        assert(head =~= pre + seq![13u8, 10u8]);
    }
    assert(m.wire().subrange(
        m.wire().len() - m.body.len() - 4,
        m.wire().len() - m.body.len() - 2,
    ) =~= seq![13u8, 10u8]);
}

} // verus!
