//! What is written can be read back: a reader that follows the wire format
//! finds in a serialised response the status, the header fields and the body
//! that the response held.

use vstd::prelude::*;
use crate::common::{fields_map, header_lines, Field, ResponseModel};
use crate::parser::{add_field, line_end, read_fields, split_field};
use crate::text::{
    decimal, is_space, lemma_decimal_round_trip, number, run_len, trailing_spaces, trim,
    trim_end, trim_start, ByteClass,
};

verus! {

/// Whether `x` has no white space at either end.
pub open spec fn is_trimmed(x: Seq<u8>) -> bool {
    x.len() == 0 || (!is_space(x[0]) && !is_space(x.last()))
}

/// Whether the byte `b` does not occur in `x`.
pub open spec fn lacks(x: Seq<u8>, b: u8) -> bool {
    forall|i: int| 0 <= i < x.len() ==> #[trigger] x[i] != b
}

/// Whether a field survives being written on a line of its own: name and
/// value hold no line feed and no white space at their ends, and the name
/// holds no colon.
pub open spec fn is_plain_field(f: Field) -> bool {
    &&& is_trimmed(f.0)
    &&& is_trimmed(f.1)
    &&& lacks(f.0, 10)
    &&& lacks(f.1, 10)
    &&& lacks(f.0, 58)
}

/// Whether every field of `e` is plain.
pub open spec fn all_plain(e: Seq<Field>) -> bool {
    forall|i: int| 0 <= i < e.len() ==> is_plain_field(#[trigger] e[i])
}

/// The line that a field is written as.
pub open spec fn field_line(f: Field) -> Seq<u8> {
    f.0 + seq![58u8, 32u8] + f.1 + seq![13u8, 10u8]
}

/// A run over `a + b` covers `a` where all of `a` belongs to the class, and
/// goes on into `b`.
pub proof fn lemma_run_len_concat(a: Seq<u8>, b: Seq<u8>, c: ByteClass)
    requires
        forall|i: int| 0 <= i < a.len() ==> c.has(#[trigger] a[i]),
    ensures
        run_len(a + b, c) == a.len() + run_len(b, c),
    decreases a.len(),
{
    if a.len() == 0 {
        assert(a + b =~= b);
    } else {
        assert((a + b)[0] == a[0]);
        assert((a + b).skip(1) =~= a.skip(1) + b);
        assert forall|i: int| 0 <= i < a.skip(1).len() implies c.has(#[trigger] a.skip(1)[i]) by {
            assert(a.skip(1)[i] == a[i + 1]);
        }
        lemma_run_len_concat(a.skip(1), b, c);
    }
}

/// The white space at the end of `a + b` covers `b` where all of `b` is
/// white space, and goes on into `a`.
pub proof fn lemma_trailing_spaces_concat(a: Seq<u8>, b: Seq<u8>)
    requires
        forall|i: int| 0 <= i < b.len() ==> is_space(#[trigger] b[i]),
    ensures
        trailing_spaces(a + b) == b.len() + trailing_spaces(a),
    decreases b.len(),
{
    if b.len() == 0 {
        assert(a + b =~= a);
    } else {
        assert((a + b).last() == b.last());
        assert((a + b).drop_last() =~= a + b.drop_last());
        assert forall|i: int| 0 <= i < b.drop_last().len() implies is_space(
            #[trigger] b.drop_last()[i],
        ) by {
            assert(b.drop_last()[i] == b[i]);
        }
        lemma_trailing_spaces_concat(a, b.drop_last());
    }
}

/// Trimming changes nothing of what has no white space at its ends.
pub proof fn lemma_trimmed_is_fixed(x: Seq<u8>)
    requires
        is_trimmed(x),
    ensures
        trim_start(x) == x,
        trim_end(x) == x,
        trim(x) == x,
{
    assert(x.skip(0) =~= x);
    assert(x.take(x.len() as int) =~= x);
}

/// A written field, cut at its line break and trimmed, splits into the name
/// and the value that were written.
pub proof fn lemma_split_written_field(f: Field)
    requires
        is_plain_field(f),
    ensures
        trim_end(field_line(f)).len() > 0,
        split_field(trim_end(field_line(f))) == Some(f),
{
    let line = field_line(f);
    lemma_trimmed_is_fixed(f.0);
    lemma_trimmed_is_fixed(f.1);
    let colon = ByteClass::Except(58);
    if f.1.len() == 0 {
        let a = f.0 + seq![58u8];
        let b = seq![32u8, 13u8, 10u8];
        assert(line =~= a + b);
        lemma_trailing_spaces_concat(a, b);
        assert(a.last() == 58u8);
        assert(trailing_spaces(a) == 0);
        assert(trim_end(line) =~= a);
        lemma_run_len_concat(f.0, seq![58u8], colon);
        assert(seq![58u8][0] == 58u8);
        assert(run_len(seq![58u8], colon) == 0);
        assert(a.take(f.0.len() as int) =~= f.0);
        assert(a.skip(f.0.len() as int + 1) =~= Seq::<u8>::empty());
        assert(a.skip(f.0.len() as int + 1) =~= f.1);
    } else {
        let a = f.0 + seq![58u8, 32u8] + f.1;
        let b = seq![13u8, 10u8];
        assert(line =~= a + b);
        lemma_trailing_spaces_concat(a, b);
        assert(a.last() == f.1.last());
        assert(trailing_spaces(a) == 0);
        assert(trim_end(line) =~= a);
        let tail = seq![58u8, 32u8] + f.1;
        assert(a =~= f.0 + tail);
        lemma_run_len_concat(f.0, tail, colon);
        assert(tail[0] == 58u8);
        assert(run_len(tail, colon) == 0);
        assert(a.take(f.0.len() as int) =~= f.0);
        let after = a.skip(f.0.len() as int + 1);
        assert(after =~= seq![32u8] + f.1);
        lemma_run_len_concat(seq![32u8], f.1, ByteClass::Space);
        assert(run_len(f.1, ByteClass::Space) == 0);
        assert(trim_start(after) =~= f.1);
    }
}

/// Reading a written field advances past its line and sets its name to its
/// value.
pub proof fn lemma_read_written_field(
    s: Seq<u8>,
    q: int,
    acc: Map<Seq<u8>, Seq<u8>>,
    f: Field,
)
    requires
        is_plain_field(f),
        0 <= q,
        q + field_line(f).len() <= s.len(),
        s.subrange(q, q + field_line(f).len()) == field_line(f),
    ensures
        read_fields(s, q, acc) == read_fields(
            s,
            q + field_line(f).len(),
            acc.insert(f.0, f.1),
        ),
{
    let line = field_line(f);
    let len = line.len() as int;
    let content = f.0 + seq![58u8, 32u8] + f.1 + seq![13u8];
    let rest = seq![10u8] + s.skip(q + len);
    assert(line =~= content + seq![10u8]);
    assert(s.skip(q) =~= s.subrange(q, q + len) + s.skip(q + len));
    assert(s.skip(q) =~= content + rest);
    assert forall|i: int| 0 <= i < content.len() implies ByteClass::Except(10).has(
        #[trigger] content[i],
    ) by {
        if i < f.0.len() {
            assert(content[i] == f.0[i]);
        } else if i < f.0.len() + 2 {
        } else if i < f.0.len() + 2 + f.1.len() {
            assert(content[i] == f.1[i - f.0.len() - 2]);
        } else {
        }
    }
    lemma_run_len_concat(content, rest, ByteClass::Except(10));
    assert(rest[0] == 10u8);
    assert(run_len(rest, ByteClass::Except(10)) == 0);
    assert(line_end(s, q) == q + len);
    lemma_split_written_field(f);
    assert(add_field(acc, trim_end(line)) == acc.insert(f.0, f.1));
}

/// The length of a written header section is the sum of its lines.
pub proof fn lemma_header_lines_step(e: Seq<Field>)
    requires
        e.len() > 0,
    ensures
        header_lines(e) == header_lines(e.drop_last()) + field_line(e.last()),
{
    assert(header_lines(e) =~= header_lines(e.drop_last()) + field_line(e.last()));
}

/// Reading the written header section of plain fields, from where it starts
/// in `s`, arrives at its end with exactly these fields.
pub proof fn lemma_read_written_fields(s: Seq<u8>, p: int, e: Seq<Field>)
    requires
        all_plain(e),
        0 <= p,
        p + header_lines(e).len() <= s.len(),
        s.subrange(p, p + header_lines(e).len()) == header_lines(e),
    ensures
        read_fields(s, p, Map::empty()) == read_fields(
            s,
            p + header_lines(e).len(),
            fields_map(e),
        ),
    decreases e.len(),
{
    if e.len() > 0 {
        let d = e.drop_last();
        let f = e.last();
        lemma_header_lines_step(e);
        let q = p + header_lines(d).len();
        let whole = s.subrange(p, p + header_lines(e).len());
        assert(s.subrange(p, q) =~= whole.take(header_lines(d).len() as int));
        assert(s.subrange(p, q) =~= header_lines(d));
        assert(s.subrange(q, q + field_line(f).len()) =~= whole.skip(header_lines(d).len() as int));
        assert(s.subrange(q, q + field_line(f).len()) =~= field_line(f));
        assert forall|i: int| 0 <= i < d.len() implies is_plain_field(#[trigger] d[i]) by {
            assert(d[i] == e[i]);
        }
        assert(is_plain_field(e[e.len() - 1]));
        lemma_read_written_fields(s, p, d);
        lemma_read_written_field(s, q, fields_map(d), f);
    }
}

/// Round trip of a response: where every field is plain, the request reader,
/// set at the line after the status line of the serialised response, reads
/// the header fields that the response held, stops at the body, and the
/// bytes from there on are the body.
pub proof fn lemma_response_reads_back(m: ResponseModel)
    requires
        all_plain(m.fields),
    ensures
        read_fields(m.wire(), (m.status_line().len() + 2) as int, Map::empty()) == (
            m.headers(),
            (m.wire().len() - m.body.len()) as int,
        ),
        m.wire().skip(m.wire().len() - m.body.len()) == m.body,
{
    let s = m.wire();
    let p = (m.status_line().len() + 2) as int;
    let hl = header_lines(m.fields);
    let q = p + hl.len();
    assert(s =~= m.status_line() + seq![13u8, 10u8] + hl + seq![13u8, 10u8] + m.body);
    assert(s.subrange(p, q) =~= hl);
    lemma_read_written_fields(s, p, m.fields);
    let rest = seq![10u8] + m.body;
    assert(s.skip(q) =~= seq![13u8] + rest);
    lemma_run_len_concat(seq![13u8], rest, ByteClass::Except(10));
    assert(rest[0] == 10u8);
    assert(run_len(rest, ByteClass::Except(10)) == 0);
    assert(line_end(s, q) == q + 2);
    let blank = s.subrange(q, q + 2);
    assert(blank =~= seq![13u8, 10u8]);
    lemma_trailing_spaces_concat(Seq::<u8>::empty(), blank);
    assert(Seq::<u8>::empty() + blank =~= blank);
    assert(trim_end(blank).len() == 0);
    assert(s.skip(s.len() - m.body.len()) =~= m.body);
}

/// What a reader finds in a response.
pub struct ReadBack {
    pub version: Seq<u8>,
    pub status_code: nat,
    pub status_message: Seq<u8>,
    pub headers: Map<Seq<u8>, Seq<u8>>,
    pub body: Seq<u8>,
}

/// What a status line says: the first word is the version, the second the
/// status code in decimal, and what follows, without white space around it,
/// the reason phrase. `None` where a word is missing or the code is no
/// number.
pub open spec fn read_status_line(line: Seq<u8>) -> Option<(Seq<u8>, nat, Seq<u8>)> {
    let a = trim_start(line);
    let v = run_len(a, ByteClass::Word) as int;
    let b = trim_start(a.skip(v));
    let c = run_len(b, ByteClass::Word) as int;
    match number(b.take(c)) {
        Some(code) => if v > 0 {
            Some((a.take(v), code, trim(b.skip(c))))
        } else {
            None
        },
        None => None,
    }
}

/// What a reader that follows the wire format finds in the bytes `s` of a
/// response: the status line, then header lines as in a request up to the
/// empty line, then the body up to the end.
pub open spec fn read_response(s: Seq<u8>) -> Option<ReadBack> {
    let first_end = line_end(s, 0);
    match read_status_line(s.subrange(0, first_end)) {
        None => None,
        Some(status) => {
            let (headers, body_start) = read_fields(s, first_end, Map::empty());
            Some(
                ReadBack {
                    version: status.0,
                    status_code: status.1,
                    status_message: status.2,
                    headers,
                    body: s.skip(body_start),
                },
            )
        },
    }
}

/// Whether `x` is one word: not empty and without white space.
pub open spec fn is_word(x: Seq<u8>) -> bool {
    x.len() > 0 && forall|i: int| 0 <= i < x.len() ==> !is_space(#[trigger] x[i])
}

/// The digits of a number are one word.
pub proof fn lemma_decimal_is_word(n: nat)
    ensures
        is_word(decimal(n)),
{
    lemma_decimal_round_trip(n);
    assert forall|i: int| 0 <= i < decimal(n).len() implies !is_space(
        #[trigger] decimal(n)[i],
    ) by {
        assert(48 <= decimal(n)[i] <= 57);
    }
}

/// A word that white space follows is found as it stands: nothing is
/// trimmed before it, and it ends where the white space starts.
pub proof fn lemma_leading_word(w: Seq<u8>, rest: Seq<u8>)
    requires
        is_word(w),
        rest.len() > 0,
        is_space(rest[0]),
    ensures
        trim_start(w + rest) == w + rest,
        run_len(w + rest, ByteClass::Word) == w.len(),
        (w + rest).take(w.len() as int) == w,
        (w + rest).skip(w.len() as int) == rest,
{
    let x = w + rest;
    assert(x[0] == w[0]);
    assert(run_len(x, ByteClass::Space) == 0);
    assert(x.skip(0) =~= x);
    assert forall|i: int| 0 <= i < w.len() implies ByteClass::Word.has(#[trigger] w[i]) by {}
    lemma_run_len_concat(w, rest, ByteClass::Word);
    assert(run_len(rest, ByteClass::Word) == 0);
    assert(x.take(w.len() as int) =~= w);
    assert(x.skip(w.len() as int) =~= rest);
}

/// A space before something that starts with no white space is all that
/// is trimmed from its start.
pub proof fn lemma_one_space_before(x: Seq<u8>)
    requires
        x.len() > 0,
        !is_space(x[0]),
    ensures
        trim_start(seq![32u8] + x) == x,
{
    lemma_run_len_concat(seq![32u8], x, ByteClass::Space);
    assert(run_len(x, ByteClass::Space) == 0);
    assert((seq![32u8] + x).skip(1) =~= x);
}

/// A reason phrase, written after a space and before a line break, is what
/// trimming leaves.
pub proof fn lemma_reason_reads_back(message: Seq<u8>)
    requires
        is_trimmed(message),
    ensures
        trim(seq![32u8] + message + seq![13u8, 10u8]) == message,
{
    let x = seq![32u8] + message + seq![13u8, 10u8];
    if message.len() == 0 {
        assert(x =~= seq![32u8, 13u8, 10u8] + Seq::<u8>::empty());
        lemma_run_len_concat(seq![32u8, 13u8, 10u8], Seq::<u8>::empty(), ByteClass::Space);
        assert(trim_start(x) =~= Seq::<u8>::empty());
        assert(trim_end(Seq::<u8>::empty()) =~= Seq::<u8>::empty());
    } else {
        let tail = message + seq![13u8, 10u8];
        assert(x =~= seq![32u8] + tail);
        assert(tail[0] == message[0]);
        lemma_one_space_before(tail);
        lemma_trailing_spaces_concat(message, seq![13u8, 10u8]);
        assert(trailing_spaces(message) == 0);
        assert(trim_end(tail) =~= message);
    }
}

/// A written status line, with its line break, reads back as the version,
/// the code and the reason phrase that were written.
pub proof fn lemma_status_line_reads_back(version: Seq<u8>, code: nat, message: Seq<u8>)
    requires
        is_word(version),
        is_trimmed(message),
    ensures
        read_status_line(
            version + seq![32u8] + decimal(code) + seq![32u8] + message + seq![13u8, 10u8],
        ) == Some((version, code, message)),
{
    let digits = decimal(code);
    let line = version + seq![32u8] + digits + seq![32u8] + message + seq![13u8, 10u8];
    let after_code = seq![32u8] + message + seq![13u8, 10u8];
    let b = digits + after_code;
    let after_version = seq![32u8] + b;
    assert(line =~= version + after_version);
    lemma_decimal_round_trip(code);
    lemma_decimal_is_word(code);
    lemma_leading_word(version, after_version);
    assert(b[0] == digits[0]);
    lemma_one_space_before(b);
    lemma_leading_word(digits, after_code);
    lemma_reason_reads_back(message);
}

/// Round trip of a response: where the version is one word, the reason
/// phrase and the fields hold no line feed and no white space at their ends,
/// and no name holds a colon, a reader finds in the serialised response the
/// version, the status code, the reason phrase, the header fields and the
/// body that the response held.
pub proof fn lemma_response_round_trip(m: ResponseModel)
    requires
        is_word(m.version),
        is_trimmed(m.status_message),
        lacks(m.status_message, 10),
        all_plain(m.fields),
    ensures
        read_response(m.wire()) == Some(
            ReadBack {
                version: m.version,
                status_code: m.status_code,
                status_message: m.status_message,
                headers: m.headers(),
                body: m.body,
            },
        ),
{
    let s = m.wire();
    let status = m.status_line();
    let digits = decimal(m.status_code);
    lemma_decimal_is_word(m.status_code);
    lemma_response_reads_back(m);
    let content = status + seq![13u8];
    let rest = seq![10u8] + header_lines(m.fields) + seq![13u8, 10u8] + m.body;
    assert(s =~= content + rest);
    assert(s.skip(0) =~= s);
    assert forall|i: int| 0 <= i < content.len() implies ByteClass::Except(10).has(
        #[trigger] content[i],
    ) by {
        let v = m.version.len();
        let d = digits.len();
        if i < v {
            assert(content[i] == m.version[i]);
        } else if i < v + 1 {
        } else if i < v + 1 + d {
            assert(content[i] == digits[i - v - 1]);
        } else if i < v + 1 + d + 1 {
        } else if i < v + 1 + d + 1 + m.status_message.len() {
            assert(content[i] == m.status_message[i - v - 1 - d - 1]);
        } else {
        }
    }
    lemma_run_len_concat(content, rest, ByteClass::Except(10));
    assert(rest[0] == 10u8);
    assert(run_len(rest, ByteClass::Except(10)) == 0);
    assert(line_end(s, 0) == status.len() + 2);
    assert(s.subrange(0, status.len() as int + 2) =~= status + seq![13u8, 10u8]);
    lemma_status_line_reads_back(m.version, m.status_code, m.status_message);
}

} // verus!
