//! Byte-string helpers shared by the reader and the writer: classes of
//! bytes, runs of a class, trimming, comparison and decimal numbers.

use vstd::prelude::*;

verus! {

/// Whether `b` is ASCII white space: space, tab, line feed, vertical tab,
/// form feed or carriage return.
pub open spec fn is_space(b: u8) -> bool {
    b == 32 || (9 <= b && b <= 13)
}

/// A set of bytes that a scan can run over.
#[derive(Clone, Copy, Debug)]
pub enum ByteClass {
    /// White space.
    Space,
    /// Anything but white space.
    Word,
    /// Anything but the given byte.
    Except(u8),
}

impl ByteClass {
    /// Whether `b` belongs to the class.
    pub open spec fn has(self, b: u8) -> bool {
        match self {
            ByteClass::Space => is_space(b),
            ByteClass::Word => !is_space(b),
            ByteClass::Except(x) => b != x,
        }
    }

    /// Executable form of [`ByteClass::has`].
    pub fn holds(&self, b: u8) -> (r: bool)
        ensures
            r == self.has(b),
    {
        match self {
            ByteClass::Space => b == 32 || (9 <= b && b <= 13),
            ByteClass::Word => !(b == 32 || (9 <= b && b <= 13)),
            ByteClass::Except(x) => b != *x,
        }
    }
}

/// Length of the longest prefix of `s` whose bytes all belong to `c`.
pub open spec fn run_len(s: Seq<u8>, c: ByteClass) -> nat
    decreases s.len(),
{
    if s.len() > 0 && c.has(s[0]) {
        1 + run_len(s.skip(1), c)
    } else {
        0
    }
}

/// Length of the longest suffix of `s` made of white space.
pub open spec fn trailing_spaces(s: Seq<u8>) -> nat
    decreases s.len(),
{
    if s.len() > 0 && is_space(s.last()) {
        1 + trailing_spaces(s.drop_last())
    } else {
        0
    }
}

/// `s` without its leading white space.
pub open spec fn trim_start(s: Seq<u8>) -> Seq<u8> {
    s.skip(run_len(s, ByteClass::Space) as int)
}

/// `s` without its trailing white space.
pub open spec fn trim_end(s: Seq<u8>) -> Seq<u8> {
    s.take(s.len() - trailing_spaces(s))
}

/// `s` without white space at either end.
pub open spec fn trim(s: Seq<u8>) -> Seq<u8> {
    trim_end(trim_start(s))
}

/// A run never exceeds the sequence it is taken from.
pub proof fn lemma_run_len_bound(s: Seq<u8>, c: ByteClass)
    ensures
        run_len(s, c) <= s.len(),
    decreases s.len(),
{
    if s.len() > 0 && c.has(s[0]) {
        lemma_run_len_bound(s.skip(1), c);
    }
}

/// Scans `s[lo..hi]` from the left and returns the index of the first byte
/// outside `c`, or `hi` where every byte belongs to it.
pub fn scan(s: &[u8], lo: usize, hi: usize, c: ByteClass) -> (r: usize)
    requires
        lo <= hi <= s@.len(),
    ensures
        lo <= r <= hi,
        r - lo == run_len(s@.subrange(lo as int, hi as int), c),
{
    let mut r: usize = lo;
    while r < hi && c.holds(s[r])
        invariant
            lo <= r <= hi <= s@.len(),
            run_len(s@.subrange(lo as int, hi as int), c) == (r - lo) + run_len(
                s@.subrange(r as int, hi as int),
                c,
            ),
        decreases hi - r,
    {
        assert(s@.subrange(r as int, hi as int).skip(1) =~= s@.subrange(r + 1, hi as int));
        r = r + 1;
    }
    r
}

/// Scans `s[lo..hi]` from the right and returns the index just past the last
/// byte that is no white space, or `lo` where there is none.
pub fn scan_back(s: &[u8], lo: usize, hi: usize) -> (r: usize)
    requires
        lo <= hi <= s@.len(),
    ensures
        lo <= r <= hi,
        hi - r == trailing_spaces(s@.subrange(lo as int, hi as int)),
        s@.subrange(lo as int, r as int) == trim_end(s@.subrange(lo as int, hi as int)),
{
    let mut r: usize = hi;
    while r > lo && ByteClass::Space.holds(s[r - 1])
        invariant
            lo <= r <= hi <= s@.len(),
            trailing_spaces(s@.subrange(lo as int, hi as int)) == (hi - r) + trailing_spaces(
                s@.subrange(lo as int, r as int),
            ),
        decreases r - lo,
    {
        assert(s@.subrange(lo as int, r as int).drop_last() =~= s@.subrange(lo as int, r - 1));
        r = r - 1;
    }
    assert(s@.subrange(lo as int, r as int) =~= trim_end(s@.subrange(lo as int, hi as int)));
    r
}

/// Whether `line` holds nothing but white space.
pub fn is_blank(line: &[u8]) -> (r: bool)
    ensures
        r == (trim_end(line@).len() == 0),
{
    let end = scan_back(line, 0, line.len());
    assert(line@.subrange(0, line@.len() as int) =~= line@);
    end == 0
}

/// The bounds of `s[lo..hi]` without white space at either end.
pub fn trim_range(s: &[u8], lo: usize, hi: usize) -> (r: (usize, usize))
    requires
        lo <= hi <= s@.len(),
    ensures
        lo <= r.0 <= r.1 <= hi,
        s@.subrange(r.0 as int, r.1 as int) == trim(s@.subrange(lo as int, hi as int)),
{
    let a = scan(s, lo, hi, ByteClass::Space);
    let b = scan_back(s, a, hi);
    assert(s@.subrange(a as int, hi as int) =~= trim_start(s@.subrange(lo as int, hi as int)));
    (a, b)
}

/// A copy of `s[lo..hi]`.
pub fn copy_range(s: &[u8], lo: usize, hi: usize) -> (r: Vec<u8>)
    requires
        lo <= hi <= s@.len(),
    ensures
        r@ == s@.subrange(lo as int, hi as int),
{
    let mut r: Vec<u8> = Vec::new();
    let mut i: usize = lo;
    while i < hi
        invariant
            lo <= i <= hi <= s@.len(),
            r@ == s@.subrange(lo as int, i as int),
        decreases hi - i,
    {
        r.push(s[i]);
        i = i + 1;
        assert(r@ =~= s@.subrange(lo as int, i as int));
    }
    r
}

/// Whether two byte strings hold the same bytes.
pub fn same_bytes(a: &[u8], b: &[u8]) -> (r: bool)
    ensures
        r == (a@ == b@),
{
    if a.len() != b.len() {
        return false;
    }
    let mut i: usize = 0;
    while i < a.len()
        invariant
            i <= a@.len(),
            a@.len() == b@.len(),
            forall|k: int| 0 <= k < i ==> a@[k] == b@[k],
        decreases a@.len() - i,
    {
        if a[i] != b[i] {
            return false;
        }
        i = i + 1;
    }
    assert(a@ =~= b@);
    true
}

/// Appends the bytes of `tail` to `out`.
pub fn append_bytes(out: &mut Vec<u8>, tail: &[u8])
    ensures
        final(out)@ == old(out)@ + tail@,
{
    let mut i: usize = 0;
    while i < tail.len()
        invariant
            i <= tail@.len(),
            out@ == old(out)@ + tail@.take(i as int),
        decreases tail@.len() - i,
    {
        out.push(tail[i]);
        i = i + 1;
        assert(out@ =~= old(out)@ + tail@.take(i as int));
    }
    assert(tail@.take(tail@.len() as int) =~= tail@);
}

/// The decimal digits of `n`, most significant first, without leading zeros.
pub open spec fn decimal(n: nat) -> Seq<u8>
    decreases n,
{
    if n < 10 {
        seq![(48 + n) as u8]
    } else {
        decimal(n / 10).push((48 + n % 10) as u8)
    }
}

/// Whether every byte of `s` is a decimal digit.
pub open spec fn is_digits(s: Seq<u8>) -> bool {
    forall|i: int| 0 <= i < s.len() ==> 48 <= #[trigger] s[i] <= 57
}

/// The number that the digits of `s` spell, read as decimal.
pub open spec fn decimal_value(s: Seq<u8>) -> nat
    decreases s.len(),
{
    if s.len() == 0 {
        0
    } else {
        decimal_value(s.drop_last()) * 10 + (s.last() - 48) as nat
    }
}

/// The number that `s` spells: one or more decimal digits, which a single
/// plus sign may precede. `None` for anything else.
pub open spec fn number(s: Seq<u8>) -> Option<nat> {
    let d = if s.len() > 0 && s[0] == 43 {
        s.skip(1)
    } else {
        s
    };
    if d.len() > 0 && is_digits(d) {
        Some(decimal_value(d))
    } else {
        None
    }
}

/// Writing a number in decimal and reading it back gives the number.
pub proof fn lemma_decimal_round_trip(n: nat)
    ensures
        decimal(n).len() > 0,
        is_digits(decimal(n)),
        decimal_value(decimal(n)) == n,
        number(decimal(n)) == Some(n),
    decreases n,
{
    if n < 10 {
        let s = decimal(n);
        assert(s.drop_last().len() == 0);
        assert(decimal_value(s.drop_last()) == 0);
    } else {
        lemma_decimal_round_trip(n / 10);
        let s = decimal(n);
        assert(s.drop_last() =~= decimal(n / 10));
    }
}

/// The decimal digits of `n`.
pub fn decimal_bytes(n: usize) -> (r: Vec<u8>)
    ensures
        r@ == decimal(n as nat),
    decreases n,
{
    if n < 10 {
        let d: u8 = 48 + (n as u8);
        let mut r: Vec<u8> = Vec::new();
        r.push(d);
        assert(r@ =~= decimal(n as nat));
        r
    } else {
        let mut r = decimal_bytes(n / 10);
        let d: u8 = 48 + ((n % 10) as u8);
        r.push(d);
        r
    }
}

/// What a byte string says of a length, read against a limit.
#[derive(Clone, Copy, Debug, PartialEq, Eq)]
pub enum Declared {
    /// The bytes spell no number.
    Absent,
    /// The bytes spell this number, which is within the limit.
    Within(usize),
    /// The bytes spell a number beyond the limit.
    Beyond,
}

/// What [`read_number`] returns for a byte string and a limit.
pub open spec fn declared(s: Seq<u8>, limit: nat) -> Declared {
    match number(s) {
        None => Declared::Absent,
        Some(n) => if n <= limit {
            Declared::Within(n as usize)
        } else {
            Declared::Beyond
        },
    }
}

/// Reading more digits never makes the number smaller.
proof fn lemma_decimal_value_step(s: Seq<u8>, i: int)
    requires
        0 <= i < s.len(),
        48 <= s[i] <= 57,
    ensures
        decimal_value(s.take(i + 1)) == decimal_value(s.take(i)) * 10 + (s[i] - 48),
        decimal_value(s.take(i + 1)) >= decimal_value(s.take(i)),
{
    assert(s.take(i + 1).drop_last() =~= s.take(i));
}

/// Reads `s` as a number and compares it with `limit`, without overflow
/// however long the digits run.
pub fn read_number(s: &[u8], limit: usize) -> (r: Declared)
    ensures
        r == declared(s@, limit as nat),
{
    let start: usize = if s.len() > 0 && s[0] == 43 {
        1
    } else {
        0
    };
    if start == s.len() {
        return Declared::Absent;
    }
    let ghost d = s@.skip(start as int);
    assert(start == 0 ==> d =~= s@);
    let mut i: usize = start;
    let mut acc: usize = 0;
    let mut over = false;
    while i < s.len()
        invariant
            start <= i <= s@.len(),
            start == (if s@.len() > 0 && s@[0] == 43 { 1usize } else { 0usize }),
            d == s@.skip(start as int),
            start == 0 ==> d == s@,
            is_digits(d.take(i - start)),
            !over ==> acc == decimal_value(d.take(i - start)) && acc <= limit,
            over ==> decimal_value(d.take(i - start)) > limit,
        decreases s@.len() - i,
    {
        let b = s[i];
        if b < 48 || b > 57 {
            proof {
                let k = i - start;
                assert(d[k] == b);
                assert(!is_digits(d));
            }
            return Declared::Absent;
        }
        let v: usize = (b - 48) as usize;
        proof {
            lemma_decimal_value_step(d, i - start);
            assert forall|k: int| 0 <= k < i + 1 - start implies 48 <= #[trigger] d.take(
                i + 1 - start,
            )[k] <= 57 by {
                if k < i - start {
                    assert(d.take(i - start)[k] == d[k]);
                }
            }
        }
        if !over {
            if v > limit || acc > (limit - v) / 10 {
                over = true;
            } else {
                acc = acc * 10 + v;
            }
        }
        i = i + 1;
    }
    assert(d.take(i - start) =~= d);
    if over {
        Declared::Beyond
    } else {
        Declared::Within(acc)
    }
}

} // verus!
