//! Decoding a whole maps file, line by line and in order.
use vstd::prelude::*;
use crate::line::{decode_line, find_char, line_result, DecodeErrorKind};
use crate::record::{MemoryMap, MemoryMapView};
use crate::text::{chars_of, string_of};

verus! {

#[verifier::external_type_specification]
#[verifier::external_body]
pub struct ExIoError(std::io::Error);

/// A line of a maps file that could not be decoded.
#[derive(Clone, Debug, PartialEq, Eq)]
pub struct DecodeError {
    pub kind: DecodeErrorKind,
    /// The number of the offending line, counting from 1.
    pub line_number: usize,
    /// The offending line as written.
    pub line: String,
    /// The part of the line that could not be decoded.
    pub text: String,
}

/// The mathematical form of a `DecodeError`.
pub struct DecodeErrorView {
    pub kind: DecodeErrorKind,
    pub line_number: nat,
    pub line: Seq<char>,
    pub text: Seq<char>,
}

impl View for DecodeError {
    type V = DecodeErrorView;

    open spec fn view(&self) -> DecodeErrorView {
        DecodeErrorView {
            kind: self.kind,
            line_number: self.line_number as nat,
            line: self.line@,
            text: self.text@,
        }
    }
}

/// Why no maps could be had: the text could not be read, or could not be decoded.
#[derive(Debug)]
pub enum Error {
    Io(std::io::Error),
    Decode(DecodeError),
}

/// Where the line that starts at `i` ends: the next newline, or the end of `s`.
pub open spec fn line_end(s: Seq<char>, i: int) -> int {
    find_char(s, i, s.len() as int, '\n')
}

proof fn lemma_find_char_bounds(s: Seq<char>, i: int, hi: int, c: char)
    requires
        i <= hi,
    ensures
        i <= find_char(s, i, hi, c) <= hi,
        find_char(s, i, hi, c) < hi ==> s[find_char(s, i, hi, c)] == c,
    decreases hi - i,
{
    if i < hi && s[i] != c {
        lemma_find_char_bounds(s, i + 1, hi, c);
    }
}

/// The maps that the lines of `s` from index `i` on decode to, the first of
/// them being line `n`; or the first line that does not decode. Empty lines
/// are passed over.
pub open spec fn decode_from(s: Seq<char>, i: int, n: nat) -> Result<
    Seq<MemoryMapView>,
    DecodeErrorView,
>
    decreases s.len() + 1 - i,
    via decode_from_decreases
{
    if i < 0 || i >= s.len() {
        Ok(Seq::empty())
    } else {
        let e = line_end(s, i);
        let line = s.subrange(i, e);
        let rest = decode_from(s, e + 1, n + 1);
        if line.len() == 0 {
            rest
        } else {
            match line_result(line) {
                Err(f) => Err(
                    DecodeErrorView {
                        kind: f.kind,
                        line_number: n,
                        line,
                        text: line.subrange(f.lo as int, f.hi as int),
                    },
                ),
                Ok(m) => match rest {
                    Ok(ms) => Ok(seq![m] + ms),
                    Err(err) => Err(err),
                },
            }
        }
    }
}

#[via_fn]
proof fn decode_from_decreases(s: Seq<char>, i: int, n: nat) {
    if 0 <= i < s.len() {
        lemma_find_char_bounds(s, i, s.len() as int, '\n');
    }
}

/// The maps that the text `s` decodes to, one for each non-empty line, in order;
/// or the first line that does not decode.
pub open spec fn decode_text(s: Seq<char>) -> Result<Seq<MemoryMapView>, DecodeErrorView> {
    decode_from(s, 0, 1)
}

/// The views of a sequence of maps.
pub open spec fn views(ms: Seq<MemoryMap>) -> Seq<MemoryMapView> {
    ms.map_values(|m: MemoryMap| m@)
}

fn copy_range(s: &Vec<char>, lo: usize, hi: usize) -> (r: Vec<char>)
    requires
        lo <= hi <= s@.len(),
    ensures
        r@ == s@.subrange(lo as int, hi as int),
{
    let mut r: Vec<char> = Vec::new();
    let mut k = lo;
    while k < hi
        invariant
            lo <= k <= hi <= s@.len(),
            r@ == s@.subrange(lo as int, k as int),
        decreases hi - k,
    {
        r.push(s[k]);
        k = k + 1;
    }
    r
}

/// Decodes the maps listed in `text`, one for each non-empty line, in order,
/// or reports the first line that does not decode.
pub fn parse_from_text(text: &str) -> (r: Result<Vec<MemoryMap>, DecodeError>)
    ensures
        match (r, decode_text(text@)) {
            (Ok(ms), Ok(vs)) => views(ms@) == vs,
            (Err(e), Err(v)) => e@ == v,
            _ => false,
        },
        text@.len() == 0 ==> (r matches Ok(ms) && ms@.len() == 0),
        r matches Ok(ms) ==> forall|k: int| 0 <= k < ms@.len() ==> #[trigger] ms@[k].address_range.begin
            <= ms@[k].address_range.end,
{
    let s = chars_of(text);
    let len = s.len();
    let mut out: Vec<MemoryMap> = Vec::new();
    let mut i: usize = 0;
    // the number of lines before index `i`
    let mut k: usize = 0;
    while i < len
        invariant
            len == s@.len(),
            s@ == text@,
            k <= i <= len,
            decode_text(s@) == match decode_from(s@, i as int, k as nat + 1) {
                Ok(ms) => Ok(views(out@) + ms),
                Err(err) => Err(err),
            },
        decreases len - i,
    {
        let e = find_char_in_text(&s, i, len);
        let line = copy_range(&s, i, e);
        let ghost rest = decode_from(s@, e + 1, k as nat + 2);
        if e > i {
            match decode_line(&line) {
                Err(f) => {
                    let whole = string_of(&line, 0, line.len());
                    let bad = string_of(&line, f.lo, f.hi);
                    assert(line@.subrange(0, line@.len() as int) =~= line@);
                    return Err(
                        DecodeError { kind: f.kind, line_number: k + 1, line: whole, text: bad },
                    );
                },
                Ok(m) => {
                    proof {
                        match rest {
                            Ok(ms) => {
                                assert(views(out@.push(m)) + ms =~= views(out@) + (seq![m@] + ms));
                            },
                            Err(_) => {},
                        }
                    }
                    out.push(m);
                },
            }
        } else {
            assert(line@.len() == 0);
        }
        if e < len {
            i = e + 1;
            k = k + 1;
        } else {
            i = len;
        }
    }
    assert(views(out@) + Seq::<MemoryMapView>::empty() =~= views(out@));
    proof {
        lemma_decoded_ranges_ordered(s@);
        let vs = views(out@);
        assert(decode_text(s@) == Ok::<Seq<MemoryMapView>, DecodeErrorView>(vs));
        assert(ranges_ordered(vs));
        assert forall|k: int| 0 <= k < out@.len() implies #[trigger] out@[k].address_range.begin
            <= out@[k].address_range.end by {
            assert(vs[k] == out@[k]@);
            assert(vs[k].address_range.begin <= vs[k].address_range.end);
        }
    }
    Ok(out)
}

fn find_char_in_text(s: &Vec<char>, i: usize, len: usize) -> (r: usize)
    requires
        i <= len == s@.len(),
    ensures
        r == line_end(s@, i as int),
        i <= r <= len,
{
    crate::line::find_char_in(s, i, len, '\n')
}

/// Decodes the outcome of reading a maps file: a read failure is passed on as
/// `Error::Io` untouched, and text that was read is decoded as by `parse_from_text`.
pub fn parse_from_contents(contents: Result<String, std::io::Error>) -> (r: Result<
    Vec<MemoryMap>,
    Error,
>)
    ensures
        match contents {
            Err(e) => r == Err::<Vec<MemoryMap>, Error>(Error::Io(e)),
            Ok(t) => match (r, decode_text(t@)) {
                (Ok(ms), Ok(vs)) => views(ms@) == vs,
                (Err(Error::Decode(e)), Err(v)) => e@ == v,
                _ => false,
            },
        },
{
    match contents {
        Err(e) => Err(Error::Io(e)),
        Ok(t) => match parse_from_text(t.as_str()) {
            Ok(ms) => Ok(ms),
            Err(d) => Err(Error::Decode(d)),
        },
    }
}

proof fn lemma_find_char_shift(a: Seq<char>, b: Seq<char>, j: int, c: char)
    requires
        0 <= j <= b.len(),
    ensures
        find_char(a + b, a.len() + j, (a + b).len() as int, c) == a.len() + find_char(
            b,
            j,
            b.len() as int,
            c,
        ),
    decreases b.len() - j,
{
    if j < b.len() {
        assert((a + b)[a.len() + j] == b[j]);
        lemma_find_char_shift(a, b, j + 1, c);
    }
}

proof fn lemma_find_char_prefix(a: Seq<char>, b: Seq<char>, i: int, c: char)
    requires
        0 <= i <= a.len(),
        find_char(a, i, a.len() as int, c) < a.len(),
    ensures
        find_char(a + b, i, (a + b).len() as int, c) == find_char(a, i, a.len() as int, c),
    decreases a.len() - i,
{
    if i < a.len() && a[i] != c {
        assert((a + b)[i] == a[i]);
        lemma_find_char_prefix(a, b, i + 1, c);
    } else {
        assert((a + b)[i] == a[i]);
    }
}

/// Decoding the lines of `b` does not depend on text placed before it.
proof fn lemma_decode_shift(a: Seq<char>, b: Seq<char>, j: int, n: nat)
    requires
        0 <= j,
    ensures
        decode_from(a + b, a.len() + j, n) == decode_from(b, j, n),
    decreases b.len() + 1 - j,
{
    if j < b.len() {
        let e = line_end(b, j);
        lemma_find_char_bounds(b, j, b.len() as int, '\n');
        lemma_find_char_shift(a, b, j, '\n');
        assert((a + b).subrange(a.len() + j, a.len() + e) =~= b.subrange(j, e));
        lemma_decode_shift(a, b, e + 1, n + 1);
    }
}

/// A successful decoding does not depend on the number given to its first line.
proof fn lemma_decode_number_free(s: Seq<char>, i: int, n: nat, m: nat)
    requires
        decode_from(s, i, n) is Ok,
    ensures
        decode_from(s, i, m) == decode_from(s, i, n),
    decreases s.len() + 1 - i,
{
    if 0 <= i < s.len() {
        let e = line_end(s, i);
        lemma_find_char_bounds(s, i, s.len() as int, '\n');
        lemma_decode_number_free(s, e + 1, n + 1, m + 1);
    }
}

proof fn lemma_decode_prefix(a: Seq<char>, b: Seq<char>, i: int, n: nat)
    requires
        0 <= i <= a.len(),
        a.len() == 0 || a.last() == '\n',
        decode_from(a, i, n) is Ok,
        decode_text(b) is Ok,
    ensures
        decode_from(a + b, i, n) == Ok::<Seq<MemoryMapView>, DecodeErrorView>(
            decode_from(a, i, n)->Ok_0 + decode_text(b)->Ok_0,
        ),
    decreases a.len() - i,
{
    if i == a.len() {
        lemma_decode_shift(a, b, 0, n);
        lemma_decode_number_free(b, 0, 1, n);
        assert(Seq::<MemoryMapView>::empty() + decode_text(b)->Ok_0 =~= decode_text(b)->Ok_0);
    } else {
        let e = line_end(a, i);
        lemma_find_char_bounds(a, i, a.len() as int, '\n');
        assert(find_char(a, i, a.len() as int, '\n') < a.len()) by {
            if find_char(a, i, a.len() as int, '\n') == a.len() {
                lemma_find_char_last(a, i);
            }
        }
        lemma_find_char_prefix(a, b, i, '\n');
        assert((a + b).subrange(i, e) =~= a.subrange(i, e));
        lemma_decode_prefix(a, b, e + 1, n + 1);
        let line = a.subrange(i, e);
        if line.len() != 0 {
            let m = line_result(line)->Ok_0;
            let x = decode_from(a, e + 1, n + 1)->Ok_0;
            assert(seq![m] + (x + decode_text(b)->Ok_0) =~= (seq![m] + x) + decode_text(b)->Ok_0);
        }
    }
}

proof fn lemma_find_char_last(a: Seq<char>, i: int)
    requires
        0 <= i < a.len(),
        a.last() == '\n',
    ensures
        find_char(a, i, a.len() as int, '\n') < a.len(),
    decreases a.len() - i,
{
    if a[i] != '\n' {
        lemma_find_char_last(a, i + 1);
    }
}

/// Maps come out in the order of their lines: when `a` is whole lines (empty,
/// or ending in a newline) and `a` and `b` both decode, `a` followed by `b`
/// decodes to the maps of `a` followed by the maps of `b`.
pub proof fn lemma_decode_concat(a: Seq<char>, b: Seq<char>)
    requires
        a.len() == 0 || a.last() == '\n',
        decode_text(a) is Ok,
        decode_text(b) is Ok,
    ensures
        decode_text(a + b) == Ok::<Seq<MemoryMapView>, DecodeErrorView>(
            decode_text(a)->Ok_0 + decode_text(b)->Ok_0,
        ),
{
    lemma_decode_prefix(a, b, 0, 1);
}

/// Whether every map of `vs` has its first address no greater than its end address.
pub open spec fn ranges_ordered(vs: Seq<MemoryMapView>) -> bool {
    forall|k: int| 0 <= k < vs.len() ==> #[trigger] vs[k].address_range.begin
        <= vs[k].address_range.end
}

proof fn lemma_decode_from_ordered(s: Seq<char>, i: int, n: nat)
    ensures
        decode_from(s, i, n) matches Ok(vs) ==> ranges_ordered(vs),
    decreases s.len() + 1 - i,
{
    if 0 <= i < s.len() {
        let e = line_end(s, i);
        lemma_find_char_bounds(s, i, s.len() as int, '\n');
        lemma_decode_from_ordered(s, e + 1, n + 1);
        let line = s.subrange(i, e);
        if line.len() != 0 {
            if let Ok(m) = line_result(line) {
                if let Ok(ms) = decode_from(s, e + 1, n + 1) {
                    let vs = seq![m] + ms;
                    assert forall|k: int| 0 <= k < vs.len() implies #[trigger] vs[k].address_range.begin
                        <= vs[k].address_range.end by {
                        if k > 0 {
                            assert(vs[k] == ms[k - 1]);
                        }
                    }
                }
            }
        }
    }
}

/// Every map that a text decodes to has its first address no greater than its
/// end address.
pub proof fn lemma_decoded_ranges_ordered(s: Seq<char>)
    ensures
        decode_text(s) matches Ok(vs) ==> ranges_ordered(vs),
{
    lemma_decode_from_ordered(s, 0, 1);
}

/// The lines of `ls` joined by newlines.
pub open spec fn join_lines(ls: Seq<Seq<char>>) -> Seq<char>
    decreases ls.len(),
{
    if ls.len() == 0 {
        Seq::empty()
    } else if ls.len() == 1 {
        ls[0]
    } else {
        ls[0] + seq!['\n'] + join_lines(ls.drop_first())
    }
}

proof fn lemma_find_char_skip(s: Seq<char>, i: int, j: int, hi: int, c: char)
    requires
        0 <= i <= j <= hi <= s.len(),
        forall|k: int| i <= k < j ==> s[k] != c,
    ensures
        find_char(s, i, hi, c) == find_char(s, j, hi, c),
    decreases j - i,
{
    if i < j {
        lemma_find_char_skip(s, i + 1, j, hi, c);
    }
}

/// A line without a newline decodes the same with one newline after it.
proof fn lemma_newline_after_line(l: Seq<char>)
    requires
        l.len() > 0,
        forall|k: int| 0 <= k < l.len() ==> l[k] != '\n',
    ensures
        decode_text(l + seq!['\n']) == decode_text(l),
{
    let t = l + seq!['\n'];
    let n = l.len() as int;
    lemma_find_char_skip(l, 0, n, n, '\n');
    assert forall|k: int| 0 <= k < n implies t[k] != '\n' by {
        assert(t[k] == l[k]);
    }
    lemma_find_char_skip(t, 0, n, n + 1, '\n');
    assert(t[n] == '\n');
    assert(t.subrange(0, n) =~= l);
    assert(l.subrange(0, n) =~= l);
    assert(line_end(t, 0) == n);
    assert(line_end(l, 0) == n);
    assert(decode_from(t, n + 1, 2) == Ok::<Seq<MemoryMapView>, DecodeErrorView>(Seq::empty()));
    assert(decode_from(l, n + 1, 2) == Ok::<Seq<MemoryMapView>, DecodeErrorView>(Seq::empty()));
    assert(decode_from(t, 0, 1) == decode_from(l, 0, 1));
}

/// Maps come out in the order of their lines: when each of the lines `ls`
/// holds no newline and decodes to the single map `vs[i]`, the lines joined by
/// newlines decode to `vs`, in the same order.
pub proof fn lemma_decode_lines(ls: Seq<Seq<char>>, vs: Seq<MemoryMapView>)
    requires
        ls.len() == vs.len(),
        forall|i: int| 0 <= i < ls.len() ==> decode_text(#[trigger] ls[i])
            == Ok::<Seq<MemoryMapView>, DecodeErrorView>(seq![vs[i]]),
        forall|i: int, k: int| 0 <= i < ls.len() && 0 <= k < ls[i].len() ==> #[trigger] ls[i][k]
            != '\n',
    ensures
        decode_text(join_lines(ls)) == Ok::<Seq<MemoryMapView>, DecodeErrorView>(vs),
    decreases ls.len(),
{
    if ls.len() == 0 {
        assert(vs =~= Seq::<MemoryMapView>::empty());
    } else if ls.len() == 1 {
        assert(vs =~= seq![vs[0]]);
    } else {
        let l = ls[0];
        let rest = ls.drop_first();
        assert(decode_text(l) == Ok::<Seq<MemoryMapView>, DecodeErrorView>(seq![vs[0]]));
        assert(l.len() > 0) by {
            if l.len() == 0 {
                assert(decode_text(l) == Ok::<Seq<MemoryMapView>, DecodeErrorView>(Seq::empty()));
                assert(seq![vs[0]].len() == 1);
            }
        }
        assert forall|k: int| 0 <= k < l.len() implies l[k] != '\n' by {
            assert(ls[0][k] != '\n');
        }
        lemma_newline_after_line(l);
        assert forall|i: int| 0 <= i < rest.len() implies decode_text(#[trigger] rest[i])
            == Ok::<Seq<MemoryMapView>, DecodeErrorView>(seq![vs.drop_first()[i]]) by {
            assert(rest[i] == ls[i + 1]);
        }
        assert forall|i: int, k: int| 0 <= i < rest.len() && 0 <= k < rest[i].len() implies #[trigger] rest[i][k]
            != '\n' by {
            assert(rest[i] == ls[i + 1]);
        }
        lemma_decode_lines(rest, vs.drop_first());
        let a = l + seq!['\n'];
        assert(a.last() == '\n');
        lemma_decode_concat(a, join_lines(rest));
        assert(join_lines(ls) == a + join_lines(rest));
        assert(seq![vs[0]] + vs.drop_first() =~= vs);
    }
}

} // verus!
