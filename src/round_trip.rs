//! Writing numbers into a maps line and decoding it gives the numbers back.
use vstd::prelude::*;
use vstd::arithmetic::power::pow;
use crate::line::{
    field_end, field_start, fields_present, find_char, is_space, line_result, permission_allowed,
    skip_space, token_end, trailing_text, trim_end, decode_address, decode_device, decode_permissions,
    LineFault,
};
use crate::number::{is_digit, lemma_number_round_trip, lemma_render_round_trip, number_in, render};
use crate::record::{AddressRange, Device};

verus! {

proof fn lemma_token_end_run(s: Seq<char>, i: int, j: int)
    requires
        0 <= i <= j <= s.len(),
        forall|k: int| i <= k < j ==> !is_space(#[trigger] s[k]),
        j == s.len() || is_space(s[j]),
    ensures
        token_end(s, i) == j,
    decreases j - i,
{
    if i < j {
        lemma_token_end_run(s, i + 1, j);
    }
}

proof fn lemma_skip_space_run(s: Seq<char>, i: int, j: int)
    requires
        0 <= i <= j <= s.len(),
        forall|k: int| i <= k < j ==> is_space(#[trigger] s[k]),
        j == s.len() || !is_space(s[j]),
    ensures
        skip_space(s, i) == j,
    decreases j - i,
{
    if i < j {
        lemma_skip_space_run(s, i + 1, j);
    }
}

proof fn lemma_find_char_run(s: Seq<char>, i: int, j: int, hi: int, c: char)
    requires
        0 <= i <= j <= hi <= s.len(),
        forall|k: int| i <= k < j ==> #[trigger] s[k] != c,
        j < hi ==> s[j] == c,
    ensures
        find_char(s, i, hi, c) == j,
    decreases j - i,
{
    if i < j {
        lemma_find_char_run(s, i + 1, j, hi, c);
    }
}

/// Whether `s[i..j]` holds only separators.
pub open spec fn spaces_between(s: Seq<char>, i: int, j: int) -> bool {
    forall|k: int| i <= k < j ==> is_space(#[trigger] s[k])
}

/// Whether `s` is a maps line, field by field: `pre` separators; `begin` and
/// `end` in `wa` hexadecimal digits each, joined by `-`; a run of `g1`
/// separators; the four letters `perms`; `g2` separators; `offset` in `wo`
/// hexadecimal digits; `g3` separators; `major` and `minor` in `wmaj` and
/// `wmin` hexadecimal digits, joined by `:`; `g4` separators; `inode` in `wi`
/// decimal digits; then `g5` separators and the text `path`, which is empty or
/// begins and ends with a character that is not a separator.
pub open spec fn is_maps_line(
    s: Seq<char>,
    begin: u64,
    end: u64,
    perms: Seq<char>,
    offset: u64,
    major: u64,
    minor: u64,
    inode: u64,
    path: Seq<char>,
    widths: (nat, nat, nat, nat, nat),
    gaps: (nat, nat, nat, nat, nat, nat),
) -> bool {
    let (wa, wo, wmaj, wmin, wi) = widths;
    let (pre, g1, g2, g3, g4, g5) = gaps;
    let dash = pre + wa;
    let e0 = dash + 1 + wa;
    let s1 = e0 + g1;
    let e1 = s1 + 4;
    let s2 = e1 + g2;
    let e2 = s2 + wo;
    let s3 = e2 + g3;
    let colon = s3 + wmaj;
    let e3 = colon + 1 + wmin;
    let s4 = e3 + g4;
    let e4 = s4 + wi;
    let p = e4 + g5;
    &&& wa >= 1 && wo >= 1 && wmaj >= 1 && wmin >= 1 && wi >= 1
    &&& g1 >= 1 && g2 >= 1 && g3 >= 1 && g4 >= 1
    &&& path.len() > 0 ==> g5 >= 1 && !is_space(path[0]) && !is_space(path.last())
    &&& s.len() == p + path.len()
    &&& spaces_between(s, 0, pre as int)
    &&& s.subrange(pre as int, dash as int) == render(begin as nat, 16, wa)
    &&& s[dash as int] == '-'
    &&& s.subrange((dash + 1) as int, e0 as int) == render(end as nat, 16, wa)
    &&& spaces_between(s, e0 as int, s1 as int)
    &&& perms.len() == 4
    &&& s.subrange(s1 as int, e1 as int) == perms
    &&& spaces_between(s, e1 as int, s2 as int)
    &&& s.subrange(s2 as int, e2 as int) == render(offset as nat, 16, wo)
    &&& spaces_between(s, e2 as int, s3 as int)
    &&& s.subrange(s3 as int, colon as int) == render(major as nat, 16, wmaj)
    &&& s[colon as int] == ':'
    &&& s.subrange((colon + 1) as int, e3 as int) == render(minor as nat, 16, wmin)
    &&& spaces_between(s, e3 as int, s4 as int)
    &&& s.subrange(s4 as int, e4 as int) == render(inode as nat, 10, wi)
    &&& spaces_between(s, e4 as int, p as int)
    &&& s.subrange(p as int, s.len() as int) == path
}

/// Where the fields of `s` stand, given where its separators are.
proof fn lemma_field_positions(
    s: Seq<char>,
    pre: int,
    e0: int,
    s1: int,
    e1: int,
    s2: int,
    e2: int,
    s3: int,
    e3: int,
    s4: int,
    e4: int,
    p: int,
)
    requires
        0 <= pre < e0 < s1 < e1 < s2 < e2 < s3 < e3 < s4 < e4 <= p <= s.len(),
        spaces_between(s, 0, pre),
        spaces_between(s, e0, s1),
        spaces_between(s, e1, s2),
        spaces_between(s, e2, s3),
        spaces_between(s, e3, s4),
        spaces_between(s, e4, p),
        forall|k: int| pre <= k < e0 ==> !is_space(#[trigger] s[k]),
        forall|k: int| s1 <= k < e1 ==> !is_space(#[trigger] s[k]),
        forall|k: int| s2 <= k < e2 ==> !is_space(#[trigger] s[k]),
        forall|k: int| s3 <= k < e3 ==> !is_space(#[trigger] s[k]),
        forall|k: int| s4 <= k < e4 ==> !is_space(#[trigger] s[k]),
        e4 < s.len() ==> e4 < p,
        p < s.len() ==> !is_space(s[p]) && !is_space(s[s.len() - 1]),
    ensures
        field_start(s, 0) == pre,
        field_start(s, 1) == s1,
        field_start(s, 2) == s2,
        field_start(s, 3) == s3,
        field_start(s, 4) == s4,
        field_end(s, 0) == e0,
        field_end(s, 1) == e1,
        field_end(s, 2) == e2,
        field_end(s, 3) == e3,
        field_end(s, 4) == e4,
        fields_present(s) == 5,
        trailing_text(s) == s.subrange(p, s.len() as int),
{
    let len = s.len() as int;
    lemma_skip_space_run(s, 0, pre);
    lemma_token_end_run(s, pre, e0);
    lemma_skip_space_run(s, e0, s1);
    lemma_token_end_run(s, s1, e1);
    lemma_skip_space_run(s, e1, s2);
    lemma_token_end_run(s, s2, e2);
    lemma_skip_space_run(s, e2, s3);
    lemma_token_end_run(s, s3, e3);
    lemma_skip_space_run(s, e3, s4);
    lemma_token_end_run(s, s4, e4);
    lemma_skip_space_run(s, e4, p);
    assert(field_start(s, 0) == pre);
    assert(field_start(s, 1) == s1);
    assert(field_start(s, 2) == s2);
    assert(field_start(s, 3) == s3);
    assert(field_start(s, 4) == s4);
    assert(trim_end(s, p, len) == len);
}

proof fn lemma_digits_not_space(s: Seq<char>, lo: int, hi: int, r: Seq<char>, radix: nat)
    requires
        0 <= lo <= hi <= s.len(),
        s.subrange(lo, hi) == r,
        crate::number::all_digits(r, radix),
    ensures
        forall|k: int| lo <= k < hi ==> !is_space(#[trigger] s[k]) && s[k] != '-' && s[k] != ':',
{
    assert forall|k: int| lo <= k < hi implies !is_space(#[trigger] s[k]) && s[k] != '-' && s[k]
        != ':' by {
        assert(s[k] == s.subrange(lo, hi)[k - lo]);
        assert(is_digit(r[k - lo], radix));
    }
}

/// Every number written into a maps line is read back exactly, whatever the
/// separators between the fields and whatever the trailing pathname: a line
/// laid out as `is_maps_line` says, with valid permissions, each number
/// written with enough digits for its value, and `begin <= end`, decodes to
/// those numbers, those permissions, and the pathname that `path` names.
pub proof fn lemma_maps_line_round_trip(
    s: Seq<char>,
    begin: u64,
    end: u64,
    perms: Seq<char>,
    offset: u64,
    major: u64,
    minor: u64,
    inode: u64,
    path: Seq<char>,
    widths: (nat, nat, nat, nat, nat),
    gaps: (nat, nat, nat, nat, nat, nat),
)
    requires
        is_maps_line(s, begin, end, perms, offset, major, minor, inode, path, widths, gaps),
        begin < pow(16, widths.0) && end < pow(16, widths.0),
        offset < pow(16, widths.1),
        major < pow(16, widths.2) && minor < pow(16, widths.3),
        inode < pow(10, widths.4),
        begin <= end,
        forall|k: int| 0 <= k < 4 ==> permission_allowed(#[trigger] perms[k], k),
    ensures
        line_result(s) matches Ok(m) && m.address_range == (AddressRange { begin, end })
            && m.offset == offset && m.device == (Device { major, minor }) && m.inode == inode
            && m.pathname == crate::line::classify(path) && m.permissions.readable == (perms[0]
            == 'r') && m.permissions.writable == (perms[1] == 'w') && m.permissions.executable
            == (perms[2] == 'x') && m.permissions.shared == (perms[3] == 's')
            && m.permissions.private == (perms[3] == 'p'),
{
    let (wa, wo, wmaj, wmin, wi) = widths;
    let (pre, g1, g2, g3, g4, g5) = gaps;
    let pre = pre as int;
    let dash = pre + wa;
    let e0 = dash + 1 + wa;
    let s1 = e0 + g1;
    let e1 = s1 + 4;
    let s2 = e1 + g2;
    let e2 = s2 + wo;
    let s3 = e2 + g3;
    let colon = s3 + wmaj;
    let e3 = colon + 1 + wmin;
    let s4 = e3 + g4;
    let e4 = s4 + wi;
    let p = e4 + g5;
    let len = s.len() as int;
    lemma_render_round_trip(begin as nat, 16, wa);
    lemma_render_round_trip(end as nat, 16, wa);
    lemma_render_round_trip(offset as nat, 16, wo);
    lemma_render_round_trip(major as nat, 16, wmaj);
    lemma_render_round_trip(minor as nat, 16, wmin);
    lemma_render_round_trip(inode as nat, 10, wi);
    lemma_number_round_trip(begin, 16, wa);
    lemma_number_round_trip(end, 16, wa);
    lemma_number_round_trip(offset, 16, wo);
    lemma_number_round_trip(major, 16, wmaj);
    lemma_number_round_trip(minor, 16, wmin);
    lemma_number_round_trip(inode, 10, wi);
    lemma_digits_not_space(s, pre, dash, render(begin as nat, 16, wa), 16);
    lemma_digits_not_space(s, dash + 1, e0, render(end as nat, 16, wa), 16);
    lemma_digits_not_space(s, s2, e2, render(offset as nat, 16, wo), 16);
    lemma_digits_not_space(s, s3, colon, render(major as nat, 16, wmaj), 16);
    lemma_digits_not_space(s, colon + 1, e3, render(minor as nat, 16, wmin), 16);
    lemma_digits_not_space(s, s4, e4, render(inode as nat, 10, wi), 10);
    assert(s[s1] == perms[0] && s[s1 + 1] == perms[1] && s[s1 + 2] == perms[2] && s[s1 + 3]
        == perms[3]) by {
        assert(s.subrange(s1, e1)[0] == s[s1]);
        assert(s.subrange(s1, e1)[1] == s[s1 + 1]);
        assert(s.subrange(s1, e1)[2] == s[s1 + 2]);
        assert(s.subrange(s1, e1)[3] == s[s1 + 3]);
    }
    assert(permission_allowed(perms[0], 0) && permission_allowed(perms[1], 1)
        && permission_allowed(perms[2], 2) && permission_allowed(perms[3], 3));
    assert forall|k: int| s1 <= k < e1 implies !is_space(#[trigger] s[k]) by {
        assert(k == s1 || k == s1 + 1 || k == s1 + 2 || k == s1 + 3);
    }
    assert(!is_space(s[dash]) && !is_space(s[colon]));
    assert forall|k: int| pre <= k < e0 implies !is_space(#[trigger] s[k]) by {
        assert(k < dash || k == dash || k > dash);
    }
    assert forall|k: int| s3 <= k < e3 implies !is_space(#[trigger] s[k]) by {
        assert(k < colon || k == colon || k > colon);
    }
    if g5 >= 1 {
        assert(is_space(s[e4]));
    }
    if path.len() > 0 {
        assert(s[p] == path[0]) by {
            assert(s.subrange(p, len)[0] == s[p]);
        }
        assert(s[len - 1] == path.last()) by {
            assert(s.subrange(p, len)[path.len() - 1] == s[len - 1]);
        }
    }
    lemma_field_positions(s, pre, e0, s1, e1, s2, e2, s3, e3, s4, e4, p);
    lemma_find_char_run(s, pre, dash, e0, '-');
    lemma_find_char_run(s, s3, colon, e3, ':');
    lemma_find_char_run(s, colon + 1, e3, e3, ':');
    assert(number_in(s, pre, dash, 16) == Some(begin));
    assert(number_in(s, dash + 1, e0, 16) == Some(end));
    assert(decode_address(s, pre, e0) == Ok::<AddressRange, LineFault>(AddressRange { begin, end }));
    assert(decode_permissions(s, s1, e1) is Ok);
    assert(number_in(s, s2, e2, 16) == Some(offset));
    assert(number_in(s, s3, colon, 16) == Some(major));
    assert(number_in(s, colon + 1, e3, 16) == Some(minor));
    assert(decode_device(s, s3, e3) is Ok);
    assert(number_in(s, s4, e4, 10) == Some(inode));
    assert(trailing_text(s) == path);
}

} // verus!
