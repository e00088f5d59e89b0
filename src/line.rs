//! Splitting one maps line into fields and decoding each field.
use vstd::prelude::*;
use crate::number::{number_in, parse_number};
use crate::record::{
    AddressRange, Device, MemoryMap, MemoryMapView, Pathname, PathnameView, Permissions,
};
use crate::text::string_of;

verus! {

/// The fields of a maps line that hold a fixed kind of value.
#[derive(Clone, Copy, Debug, PartialEq, Eq, Structural)]
pub enum FieldName {
    Address,
    Permissions,
    Offset,
    Device,
    Inode,
}

/// Why a line could not be decoded.
#[derive(Clone, Copy, Debug, PartialEq, Eq, Structural)]
pub enum DecodeErrorKind {
    /// `missing` of the five required fields are absent from the line.
    MissingField { missing: usize },
    /// A field, or one half of it, is not a number that fits in a `u64`.
    MalformedInteger { field: FieldName },
    /// The two addresses are valid but written with different numbers of digits.
    WidthMismatch { begin_width: usize, end_width: usize },
    /// The range's first address is greater than its end address.
    ReversedRange,
    /// The permissions field holds `letter` at `position`, where it is not allowed.
    IllegalPermission { position: usize, letter: char },
    /// The permissions field is not four characters long.
    PermissionsLength { length: usize },
    /// The device field does not hold exactly one `:`.
    MalformedDevice,
}

/// A decoding failure inside one line: its kind and the offending text `[lo, hi)`.
#[derive(Clone, Copy, Debug, PartialEq, Eq, Structural)]
pub struct LineFault {
    pub kind: DecodeErrorKind,
    pub lo: usize,
    pub hi: usize,
}

/// A fault of `kind` over the text `[lo, hi)`.
pub open spec fn fault(kind: DecodeErrorKind, lo: int, hi: int) -> LineFault {
    LineFault { kind, lo: lo as usize, hi: hi as usize }
}

/// The characters that separate fields.
pub open spec fn is_space(c: char) -> bool {
    c == ' ' || c == '\t'
}

/// The first index at or after `i` that holds no separator.
pub open spec fn skip_space(s: Seq<char>, i: int) -> int
    decreases s.len() - i,
{
    if 0 <= i < s.len() && is_space(s[i]) {
        skip_space(s, i + 1)
    } else {
        i
    }
}

/// The first index at or after `i` that holds a separator (or the end).
pub open spec fn token_end(s: Seq<char>, i: int) -> int
    decreases s.len() - i,
{
    if 0 <= i < s.len() && !is_space(s[i]) {
        token_end(s, i + 1)
    } else {
        i
    }
}

/// The first index in `[i, hi)` that holds `c`, or `hi`.
pub open spec fn find_char(s: Seq<char>, i: int, hi: int, c: char) -> int
    decreases hi - i,
{
    if i < hi && s[i] != c {
        find_char(s, i + 1, hi, c)
    } else {
        i
    }
}

/// The end of `[lo, hi)` once trailing separators are dropped.
pub open spec fn trim_end(s: Seq<char>, lo: int, hi: int) -> int
    decreases hi - lo,
{
    if lo < hi && is_space(s[hi - 1]) {
        trim_end(s, lo, hi - 1)
    } else {
        hi
    }
}

/// Where the `k`-th whitespace-delimited field of `s` starts.
pub open spec fn field_start(s: Seq<char>, k: nat) -> int
    decreases k,
{
    if k == 0 {
        skip_space(s, 0)
    } else {
        skip_space(s, token_end(s, field_start(s, (k - 1) as nat)))
    }
}

/// Where the `k`-th whitespace-delimited field of `s` ends.
pub open spec fn field_end(s: Seq<char>, k: nat) -> int {
    token_end(s, field_start(s, k))
}

/// How many of the five required fields `s` holds.
pub open spec fn fields_present(s: Seq<char>) -> nat {
    if field_start(s, 0) >= s.len() {
        0
    } else if field_start(s, 1) >= s.len() {
        1
    } else if field_start(s, 2) >= s.len() {
        2
    } else if field_start(s, 3) >= s.len() {
        3
    } else if field_start(s, 4) >= s.len() {
        4
    } else {
        5
    }
}

/// The address range `begin-end` in `s[a..b]`: two hexadecimal numbers of equal
/// width, the first no greater than the second.
pub open spec fn decode_address(s: Seq<char>, a: int, b: int) -> Result<AddressRange, LineFault> {
    let dash = find_char(s, a, b, '-');
    let malformed = DecodeErrorKind::MalformedInteger { field: FieldName::Address };
    if dash >= b {
        Err(fault(malformed, a, b))
    } else {
        match number_in(s, a, dash, 16) {
            None => Err(fault(malformed, a, dash)),
            Some(begin) => match number_in(s, dash + 1, b, 16) {
                None => Err(fault(malformed, dash + 1, b)),
                Some(end) => if dash - a != b - (dash + 1) {
                    Err(
                        fault(
                            DecodeErrorKind::WidthMismatch {
                                begin_width: (dash - a) as usize,
                                end_width: (b - (dash + 1)) as usize,
                            },
                            a,
                            b,
                        ),
                    )
                } else if begin > end {
                    Err(fault(DecodeErrorKind::ReversedRange, a, b))
                } else {
                    Ok(AddressRange { begin, end })
                },
            },
        }
    }
}

/// Whether `c` may stand at `position` of a permissions field.
pub open spec fn permission_allowed(c: char, position: int) -> bool {
    if position == 0 {
        c == 'r' || c == '-'
    } else if position == 1 {
        c == 'w' || c == '-'
    } else if position == 2 {
        c == 'x' || c == '-'
    } else {
        c == 's' || c == 'p'
    }
}

/// The permissions `rwxp` in `s[a..b]`.
pub open spec fn decode_permissions(s: Seq<char>, a: int, b: int) -> Result<Permissions, LineFault> {
    if b - a != 4 {
        Err(fault(DecodeErrorKind::PermissionsLength { length: (b - a) as usize }, a, b))
    } else if !permission_allowed(s[a], 0) {
        Err(fault(DecodeErrorKind::IllegalPermission { position: 0, letter: s[a] }, a, b))
    } else if !permission_allowed(s[a + 1], 1) {
        Err(fault(DecodeErrorKind::IllegalPermission { position: 1, letter: s[a + 1] }, a, b))
    } else if !permission_allowed(s[a + 2], 2) {
        Err(fault(DecodeErrorKind::IllegalPermission { position: 2, letter: s[a + 2] }, a, b))
    } else if !permission_allowed(s[a + 3], 3) {
        Err(fault(DecodeErrorKind::IllegalPermission { position: 3, letter: s[a + 3] }, a, b))
    } else {
        Ok(
            Permissions {
                readable: s[a] == 'r',
                writable: s[a + 1] == 'w',
                executable: s[a + 2] == 'x',
                shared: s[a + 3] == 's',
                private: s[a + 3] == 'p',
            },
        )
    }
}

/// A hexadecimal number in `s[a..b]`, else a malformed-integer fault for `field`.
pub open spec fn decode_number(s: Seq<char>, a: int, b: int, radix: nat, field: FieldName) -> Result<
    u64,
    LineFault,
> {
    match number_in(s, a, b, radix) {
        Some(v) => Ok(v),
        None => Err(fault(DecodeErrorKind::MalformedInteger { field }, a, b)),
    }
}

/// The device `major:minor` in `s[a..b]`, both halves hexadecimal.
pub open spec fn decode_device(s: Seq<char>, a: int, b: int) -> Result<Device, LineFault> {
    let colon = find_char(s, a, b, ':');
    if colon >= b || find_char(s, colon + 1, b, ':') < b {
        Err(fault(DecodeErrorKind::MalformedDevice, a, b))
    } else {
        match decode_number(s, a, colon, 16, FieldName::Device) {
            Err(e) => Err(e),
            Ok(major) => match decode_number(s, colon + 1, b, 16, FieldName::Device) {
                Err(e) => Err(e),
                Ok(minor) => Ok(Device { major, minor }),
            },
        }
    }
}

/// What the trailing text `t` of a line (already trimmed) names.
pub open spec fn classify(t: Seq<char>) -> PathnameView {
    if t.len() == 0 {
        PathnameView::Mmap
    } else if t[0] == '[' && t.last() == ']' {
        if t == seq!['[', 's', 't', 'a', 'c', 'k', ']'] {
            PathnameView::Stack
        } else if t == seq!['[', 'v', 'd', 's', 'o', ']'] {
            PathnameView::Vdso
        } else if t == seq!['[', 'v', 'v', 'a', 'r', ']'] {
            PathnameView::Vvar
        } else if t == seq!['[', 'v', 's', 'y', 's', 'c', 'a', 'l', 'l', ']'] {
            PathnameView::Vsyscall
        } else if t == seq!['[', 'h', 'e', 'a', 'p', ']'] {
            PathnameView::Heap
        } else {
            PathnameView::OtherPseudo(t)
        }
    } else {
        PathnameView::Path(t)
    }
}

/// The text after the fifth field, without the separators around it.
pub open spec fn trailing_text(s: Seq<char>) -> Seq<char> {
    let p = skip_space(s, field_end(s, 4));
    s.subrange(p, trim_end(s, p, s.len() as int))
}

/// The decoded form of the line `s`, or the first fault in it, fields taken in order.
pub open spec fn line_result(s: Seq<char>) -> Result<MemoryMapView, LineFault> {
    if fields_present(s) < 5 {
        Err(
            fault(
                DecodeErrorKind::MissingField { missing: (5 - fields_present(s)) as usize },
                0,
                s.len() as int,
            ),
        )
    } else {
        match decode_address(s, field_start(s, 0), field_end(s, 0)) {
            Err(e) => Err(e),
            Ok(address_range) => match decode_permissions(s, field_start(s, 1), field_end(s, 1)) {
                Err(e) => Err(e),
                Ok(permissions) => match decode_number(
                    s,
                    field_start(s, 2),
                    field_end(s, 2),
                    16,
                    FieldName::Offset,
                ) {
                    Err(e) => Err(e),
                    Ok(offset) => match decode_device(s, field_start(s, 3), field_end(s, 3)) {
                        Err(e) => Err(e),
                        Ok(device) => match decode_number(
                            s,
                            field_start(s, 4),
                            field_end(s, 4),
                            10,
                            FieldName::Inode,
                        ) {
                            Err(e) => Err(e),
                            Ok(inode) => Ok(
                                MemoryMapView {
                                    address_range,
                                    permissions,
                                    offset,
                                    device,
                                    inode,
                                    pathname: classify(trailing_text(s)),
                                },
                            ),
                        },
                    },
                },
            },
        }
    }
}

fn skip_spaces(s: &Vec<char>, i: usize) -> (r: usize)
    requires
        i <= s@.len(),
    ensures
        r == skip_space(s@, i as int),
        i <= r <= s@.len(),
{
    let mut j = i;
    while j < s.len() && (s[j] == ' ' || s[j] == '\t')
        invariant
            i <= j <= s@.len(),
            skip_space(s@, j as int) == skip_space(s@, i as int),
        decreases s@.len() - j,
    {
        j = j + 1;
    }
    j
}

fn token_end_at(s: &Vec<char>, i: usize) -> (r: usize)
    requires
        i <= s@.len(),
    ensures
        r == token_end(s@, i as int),
        i <= r <= s@.len(),
{
    let mut j = i;
    while j < s.len() && !(s[j] == ' ' || s[j] == '\t')
        invariant
            i <= j <= s@.len(),
            token_end(s@, j as int) == token_end(s@, i as int),
        decreases s@.len() - j,
    {
        j = j + 1;
    }
    j
}

pub(crate) fn find_char_in(s: &Vec<char>, i: usize, hi: usize, c: char) -> (r: usize)
    requires
        i <= hi <= s@.len(),
    ensures
        r == find_char(s@, i as int, hi as int, c),
        i <= r <= hi,
{
    let mut j = i;
    while j < hi && s[j] != c
        invariant
            i <= j <= hi <= s@.len(),
            find_char(s@, j as int, hi as int, c) == find_char(s@, i as int, hi as int, c),
        decreases hi - j,
    {
        j = j + 1;
    }
    j
}

fn trim_end_at(s: &Vec<char>, lo: usize, hi: usize) -> (r: usize)
    requires
        lo <= hi <= s@.len(),
    ensures
        r == trim_end(s@, lo as int, hi as int),
        lo <= r <= hi,
{
    let mut j = hi;
    while j > lo && (s[j - 1] == ' ' || s[j - 1] == '\t')
        invariant
            lo <= j <= hi <= s@.len(),
            trim_end(s@, lo as int, j as int) == trim_end(s@, lo as int, hi as int),
        decreases j - lo,
    {
        j = j - 1;
    }
    j
}

fn address_at(s: &Vec<char>, a: usize, b: usize) -> (r: Result<AddressRange, LineFault>)
    requires
        a <= b <= s@.len(),
    ensures
        r == decode_address(s@, a as int, b as int),
        r matches Err(f) ==> a <= f.lo <= f.hi <= b,
{
    let dash = find_char_in(s, a, b, '-');
    let malformed = DecodeErrorKind::MalformedInteger { field: FieldName::Address };
    if dash >= b {
        return Err(LineFault { kind: malformed, lo: a, hi: b });
    }
    let begin = match parse_number(s, a, dash, 16) {
        None => return Err(LineFault { kind: malformed, lo: a, hi: dash }),
        Some(v) => v,
    };
    let end = match parse_number(s, dash + 1, b, 16) {
        None => return Err(LineFault { kind: malformed, lo: dash + 1, hi: b }),
        Some(v) => v,
    };
    if dash - a != b - (dash + 1) {
        return Err(
            LineFault {
                kind: DecodeErrorKind::WidthMismatch {
                    begin_width: dash - a,
                    end_width: b - (dash + 1),
                },
                lo: a,
                hi: b,
            },
        );
    }
    if begin > end {
        return Err(LineFault { kind: DecodeErrorKind::ReversedRange, lo: a, hi: b });
    }
    Ok(AddressRange { begin, end })
}

fn permissions_at(s: &Vec<char>, a: usize, b: usize) -> (r: Result<Permissions, LineFault>)
    requires
        a <= b <= s@.len(),
    ensures
        r == decode_permissions(s@, a as int, b as int),
        r matches Err(f) ==> a <= f.lo <= f.hi <= b,
{
    if b - a != 4 {
        return Err(
            LineFault { kind: DecodeErrorKind::PermissionsLength { length: b - a }, lo: a, hi: b },
        );
    }
    let (c0, c1, c2, c3) = (s[a], s[a + 1], s[a + 2], s[a + 3]);
    if !(c0 == 'r' || c0 == '-') {
        return Err(
            LineFault {
                kind: DecodeErrorKind::IllegalPermission { position: 0, letter: c0 },
                lo: a,
                hi: b,
            },
        );
    }
    if !(c1 == 'w' || c1 == '-') {
        return Err(
            LineFault {
                kind: DecodeErrorKind::IllegalPermission { position: 1, letter: c1 },
                lo: a,
                hi: b,
            },
        );
    }
    if !(c2 == 'x' || c2 == '-') {
        return Err(
            LineFault {
                kind: DecodeErrorKind::IllegalPermission { position: 2, letter: c2 },
                lo: a,
                hi: b,
            },
        );
    }
    if !(c3 == 's' || c3 == 'p') {
        return Err(
            LineFault {
                kind: DecodeErrorKind::IllegalPermission { position: 3, letter: c3 },
                lo: a,
                hi: b,
            },
        );
    }
    Ok(
        Permissions {
            readable: c0 == 'r',
            writable: c1 == 'w',
            executable: c2 == 'x',
            shared: c3 == 's',
            private: c3 == 'p',
        },
    )
}

fn number_at(s: &Vec<char>, a: usize, b: usize, radix: u64, field: FieldName) -> (r: Result<
    u64,
    LineFault,
>)
    requires
        a <= b <= s@.len(),
        radix == 10 || radix == 16,
    ensures
        r == decode_number(s@, a as int, b as int, radix as nat, field),
        r matches Err(f) ==> a <= f.lo <= f.hi <= b,
{
    match parse_number(s, a, b, radix) {
        Some(v) => Ok(v),
        None => Err(LineFault { kind: DecodeErrorKind::MalformedInteger { field }, lo: a, hi: b }),
    }
}

fn device_at(s: &Vec<char>, a: usize, b: usize) -> (r: Result<Device, LineFault>)
    requires
        a <= b <= s@.len(),
    ensures
        r == decode_device(s@, a as int, b as int),
        r matches Err(f) ==> a <= f.lo <= f.hi <= b,
{
    let colon = find_char_in(s, a, b, ':');
    if colon >= b || find_char_in(s, colon + 1, b, ':') < b {
        return Err(LineFault { kind: DecodeErrorKind::MalformedDevice, lo: a, hi: b });
    }
    let major = match number_at(s, a, colon, 16, FieldName::Device) {
        Err(e) => return Err(e),
        Ok(v) => v,
    };
    let minor = match number_at(s, colon + 1, b, 16, FieldName::Device) {
        Err(e) => return Err(e),
        Ok(v) => v,
    };
    Ok(Device { major, minor })
}

/// Whether `s[lo..hi]` is the text `w`.
fn text_is(s: &Vec<char>, lo: usize, hi: usize, w: &[char]) -> (r: bool)
    requires
        lo <= hi <= s@.len(),
    ensures
        r == (s@.subrange(lo as int, hi as int) == w@),
{
    if hi - lo != w.len() {
        assert(s@.subrange(lo as int, hi as int).len() != w@.len());
        return false;
    }
    let mut k: usize = 0;
    while k < w.len()
        invariant
            hi - lo == w@.len(),
            lo <= hi <= s@.len(),
            k <= w@.len(),
            forall|j: int| 0 <= j < k ==> s@[lo + j] == w@[j],
        decreases w@.len() - k,
    {
        if s[lo + k] != w[k] {
            assert(s@.subrange(lo as int, hi as int)[k as int] != w@[k as int]);
            return false;
        }
        k = k + 1;
    }
    assert(s@.subrange(lo as int, hi as int) =~= w@);
    true
}

/// Classifies the trailing text `s[lo..hi]` of a line.
fn classify_at(s: &Vec<char>, lo: usize, hi: usize) -> (r: Pathname)
    requires
        lo <= hi <= s@.len(),
    ensures
        r@ == classify(s@.subrange(lo as int, hi as int)),
{
    let ghost t = s@.subrange(lo as int, hi as int);
    if lo == hi {
        return Pathname::Mmap;
    }
    if !(s[lo] == '[' && s[hi - 1] == ']') {
        let p = string_of(s, lo, hi);
        return Pathname::Path(p);
    }
    let stack = ['[', 's', 't', 'a', 'c', 'k', ']'];
    let vdso = ['[', 'v', 'd', 's', 'o', ']'];
    let vvar = ['[', 'v', 'v', 'a', 'r', ']'];
    let vsyscall = ['[', 'v', 's', 'y', 's', 'c', 'a', 'l', 'l', ']'];
    let heap = ['[', 'h', 'e', 'a', 'p', ']'];
    assert(stack@ == seq!['[', 's', 't', 'a', 'c', 'k', ']']);
    assert(vdso@ == seq!['[', 'v', 'd', 's', 'o', ']']);
    assert(vvar@ == seq!['[', 'v', 'v', 'a', 'r', ']']);
    assert(vsyscall@ == seq!['[', 'v', 's', 'y', 's', 'c', 'a', 'l', 'l', ']']);
    assert(heap@ == seq!['[', 'h', 'e', 'a', 'p', ']']);
    if text_is(s, lo, hi, stack.as_slice()) {
        Pathname::Stack
    } else if text_is(s, lo, hi, vdso.as_slice()) {
        Pathname::Vdso
    } else if text_is(s, lo, hi, vvar.as_slice()) {
        Pathname::Vvar
    } else if text_is(s, lo, hi, vsyscall.as_slice()) {
        Pathname::Vsyscall
    } else if text_is(s, lo, hi, heap.as_slice()) {
        Pathname::Heap
    } else {
        Pathname::OtherPseudo(string_of(s, lo, hi))
    }
}

/// Decodes one line of a maps file, given as its characters.
pub fn decode_line(s: &Vec<char>) -> (r: Result<MemoryMap, LineFault>)
    ensures
        match (r, line_result(s@)) {
            (Ok(m), Ok(v)) => m@ == v,
            (Err(e), Err(f)) => e == f,
            _ => false,
        },
        r matches Err(f) ==> f.lo <= f.hi <= s@.len(),
{
    let len = s.len();
    let s0 = skip_spaces(s, 0);
    let e0 = token_end_at(s, s0);
    let s1 = skip_spaces(s, e0);
    let e1 = token_end_at(s, s1);
    let s2 = skip_spaces(s, e1);
    let e2 = token_end_at(s, s2);
    let s3 = skip_spaces(s, e2);
    let e3 = token_end_at(s, s3);
    let s4 = skip_spaces(s, e3);
    let e4 = token_end_at(s, s4);
    assert(field_start(s@, 0) == s0);
    assert(field_start(s@, 1) == s1);
    assert(field_start(s@, 2) == s2);
    assert(field_start(s@, 3) == s3);
    assert(field_start(s@, 4) == s4);
    assert(field_end(s@, 4) == e4);
    let found: usize = if s0 >= len {
        0
    } else if s1 >= len {
        1
    } else if s2 >= len {
        2
    } else if s3 >= len {
        3
    } else if s4 >= len {
        4
    } else {
        5
    };
    if found < 5 {
        return Err(
            LineFault { kind: DecodeErrorKind::MissingField { missing: 5 - found }, lo: 0, hi: len },
        );
    }
    let address_range = match address_at(s, s0, e0) {
        Err(e) => return Err(e),
        Ok(v) => v,
    };
    let permissions = match permissions_at(s, s1, e1) {
        Err(e) => return Err(e),
        Ok(v) => v,
    };
    let offset = match number_at(s, s2, e2, 16, FieldName::Offset) {
        Err(e) => return Err(e),
        Ok(v) => v,
    };
    let device = match device_at(s, s3, e3) {
        Err(e) => return Err(e),
        Ok(v) => v,
    };
    let inode = match number_at(s, s4, e4, 10, FieldName::Inode) {
        Err(e) => return Err(e),
        Ok(v) => v,
    };
    let p = skip_spaces(s, e4);
    let q = trim_end_at(s, p, len);
    let pathname = classify_at(s, p, q);
    Ok(MemoryMap { address_range, permissions, offset, device, inode, pathname })
}

} // verus!
