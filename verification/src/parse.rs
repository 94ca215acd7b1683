//! The coordinate parser: free text in the `row:col` format, with
//! whitespace tolerated around the numbers, becomes a pair of in-range
//! board coordinates, and anything else becomes nothing.

use vstd::prelude::*;
use vstd::string::StringSliceAdditionalSpecFns;

verus! {

/// The white-space characters encoded in one byte: tab through carriage
/// return, and the space. Together with `space2` and `space3` these are
/// the UTF-8 encodings of every character with the Unicode white-space
/// property, the set `str::trim` removes.
pub open spec fn space1(a: u8) -> bool {
    a == 32 || 9 <= a <= 13
}

/// The white-space characters encoded in two bytes: the next-line
/// control (U+0085) and the no-break space (U+00A0).
pub open spec fn space2(a: u8, b: u8) -> bool {
    a == 0xC2 && (b == 0x85 || b == 0xA0)
}

/// The white-space characters encoded in three bytes: the ogham space
/// mark (U+1680), the typographic spaces U+2000 through U+200A, the line
/// and paragraph separators (U+2028, U+2029), the narrow no-break space
/// (U+202F), the medium mathematical space (U+205F) and the ideographic
/// space (U+3000).
pub open spec fn space3(a: u8, b: u8, c: u8) -> bool {
    ||| a == 0xE1 && b == 0x9A && c == 0x80
    ||| a == 0xE2 && b == 0x80 && (0x80 <= c <= 0x8A || c == 0xA8 || c == 0xA9 || c == 0xAF)
    ||| a == 0xE2 && b == 0x81 && c == 0x9F
    ||| a == 0xE3 && b == 0x80 && c == 0x80
}

/// How many bytes of white space the text starts with: the length of the
/// first character's encoding when that character is white space, and
/// zero otherwise.
pub open spec fn leading_space_len(bs: Seq<u8>) -> int {
    if bs.len() >= 1 && space1(bs[0]) {
        1
    } else if bs.len() >= 2 && space2(bs[0], bs[1]) {
        2
    } else if bs.len() >= 3 && space3(bs[0], bs[1], bs[2]) {
        3
    } else {
        0
    }
}

/// How many bytes of white space the text ends with: the length of the
/// last character's encoding when that character is white space, and
/// zero otherwise.
pub open spec fn trailing_space_len(bs: Seq<u8>) -> int {
    let n = bs.len() as int;
    if n >= 1 && space1(bs[n - 1]) {
        1
    } else if n >= 2 && space2(bs[n - 2], bs[n - 1]) {
        2
    } else if n >= 3 && space3(bs[n - 3], bs[n - 2], bs[n - 1]) {
        3
    } else {
        0
    }
}

/// An ASCII decimal digit.
pub open spec fn is_digit(b: u8) -> bool {
    48 <= b <= 57
}

/// The bytes with their leading white space removed, one character at a
/// time.
pub open spec fn drop_leading(bs: Seq<u8>) -> Seq<u8>
    decreases bs.len(),
{
    if leading_space_len(bs) > 0 {
        drop_leading(bs.subrange(leading_space_len(bs), bs.len() as int))
    } else {
        bs
    }
}

/// The bytes with their trailing white space removed, one character at a
/// time.
pub open spec fn drop_trailing(bs: Seq<u8>) -> Seq<u8>
    decreases bs.len(),
{
    if trailing_space_len(bs) > 0 {
        drop_trailing(bs.subrange(0, bs.len() - trailing_space_len(bs)))
    } else {
        bs
    }
}

/// The bytes with white space removed from both ends: the same trimming
/// `str::trim` performs, over the UTF-8 encoding.
pub open spec fn spec_trim(bs: Seq<u8>) -> Seq<u8> {
    drop_trailing(drop_leading(bs))
}

/// The number written by a digit string, most significant digit first.
pub open spec fn numeral_value(ds: Seq<u8>) -> int
    decreases ds.len(),
{
    if ds.len() == 0 {
        0
    } else {
        numeral_value(ds.drop_last()) * 10 + (ds.last() - 48)
    }
}

/// The candidate digit string: the text with a single leading plus
/// sign, if any, removed.
pub open spec fn digits_of(bs: Seq<u8>) -> Seq<u8> {
    if bs.len() > 0 && bs[0] == 43 {
        bs.subrange(1, bs.len() as int)
    } else {
        bs
    }
}

/// The unsigned number a byte string denotes: an optional leading `+`
/// followed by at least one digit and nothing else; anything else
/// denotes no number.
pub open spec fn parse_nat(bs: Seq<u8>) -> Option<int> {
    if digits_of(bs).len() > 0 && (forall|i: int|
        0 <= i < digits_of(bs).len() ==> is_digit(#[trigger] digits_of(bs)[i])) {
        Some(numeral_value(digits_of(bs)))
    } else {
        None
    }
}

/// One half of a coordinate: the text, once trimmed, must denote a
/// number below three.
pub open spec fn spec_parse_part(bs: Seq<u8>) -> Option<usize> {
    match parse_nat(spec_trim(bs)) {
        Some(v) => if v < 3 {
            Some(v as usize)
        } else {
            None
        },
        None => None,
    }
}

/// Position `j` holds the only colon of the byte string.
pub open spec fn one_colon_at(t: Seq<u8>, j: int) -> bool {
    &&& 0 <= j < t.len()
    &&& t[j] == 58
    &&& forall|k: int| 0 <= k < t.len() && #[trigger] t[k] == 58 ==> k == j
}

/// What a whole coordinate line denotes: after trimming, exactly one
/// colon must split the text in two parts, each denoting a coordinate
/// below three; the result is the (row, column) pair, or nothing.
pub open spec fn spec_parse_coord(bs: Seq<u8>) -> Option<(usize, usize)> {
    let t = spec_trim(bs);
    if exists|j: int| one_colon_at(t, j) {
        let j = choose|j: int| one_colon_at(t, j);
        match (spec_parse_part(t.subrange(0, j)), spec_parse_part(t.subrange(j + 1, t.len() as int))) {
            (Some(row), Some(col)) => Some((row, col)),
            _ => None,
        }
    } else {
        None
    }
}

/// Measures the leading white space of `bytes[lo..hi]`.
fn leading_space_len_b(bytes: &[u8], lo: usize, hi: usize) -> (k: usize)
    requires
        lo <= hi <= bytes@.len(),
    ensures
        k == leading_space_len(bytes@.subrange(lo as int, hi as int)),
        k <= hi - lo,
{
    let ghost s = bytes@.subrange(lo as int, hi as int);
    if hi - lo >= 1 {
        proof {
            assert(s[0] == bytes@[lo as int]);
        }
        let b0: u8 = bytes[lo];
        if b0 == 32 || (9 <= b0 && b0 <= 13) {
            return 1;
        }
        if hi - lo >= 2 {
            proof {
                assert(s[1] == bytes@[lo + 1]);
            }
            let b1: u8 = bytes[lo + 1];
            if b0 == 0xC2 && (b1 == 0x85 || b1 == 0xA0) {
                return 2;
            }
            if hi - lo >= 3 {
                proof {
                    assert(s[2] == bytes@[lo + 2]);
                }
                let b2: u8 = bytes[lo + 2];
                if (b0 == 0xE1 && b1 == 0x9A && b2 == 0x80) || (b0 == 0xE2 && b1 == 0x80 && ((0x80
                    <= b2 && b2 <= 0x8A) || b2 == 0xA8 || b2 == 0xA9 || b2 == 0xAF)) || (b0 == 0xE2
                    && b1 == 0x81 && b2 == 0x9F) || (b0 == 0xE3 && b1 == 0x80 && b2 == 0x80) {
                    return 3;
                }
            }
        }
    }
    0
}

/// Measures the trailing white space of `bytes[lo..hi]`.
fn trailing_space_len_b(bytes: &[u8], lo: usize, hi: usize) -> (k: usize)
    requires
        lo <= hi <= bytes@.len(),
    ensures
        k == trailing_space_len(bytes@.subrange(lo as int, hi as int)),
        k <= hi - lo,
{
    let ghost s = bytes@.subrange(lo as int, hi as int);
    let n: usize = hi - lo;
    if n >= 1 {
        proof {
            assert(s[n - 1] == bytes@[hi - 1]);
        }
        let b0: u8 = bytes[hi - 1];
        if b0 == 32 || (9 <= b0 && b0 <= 13) {
            return 1;
        }
        if n >= 2 {
            proof {
                assert(s[n - 2] == bytes@[hi - 2]);
            }
            let b1: u8 = bytes[hi - 2];
            if b1 == 0xC2 && (b0 == 0x85 || b0 == 0xA0) {
                return 2;
            }
            if n >= 3 {
                proof {
                    assert(s[n - 3] == bytes@[hi - 3]);
                }
                let b2: u8 = bytes[hi - 3];
                if (b2 == 0xE1 && b1 == 0x9A && b0 == 0x80) || (b2 == 0xE2 && b1 == 0x80 && ((0x80
                    <= b0 && b0 <= 0x8A) || b0 == 0xA8 || b0 == 0xA9 || b0 == 0xAF)) || (b2 == 0xE2
                    && b1 == 0x81 && b0 == 0x9F) || (b2 == 0xE3 && b1 == 0x80 && b0 == 0x80) {
                    return 3;
                }
            }
        }
    }
    0
}

/// Reads one half of a coordinate from `bytes[lo..hi]`: whitespace is
/// trimmed, an optional leading plus sign and at least one digit are
/// required, and only values below three are accepted.
fn parse_part(bytes: &[u8], lo: usize, hi: usize) -> (r: Option<usize>)
    requires
        lo <= hi <= bytes@.len(),
    ensures
        r == spec_parse_part(bytes@.subrange(lo as int, hi as int)),
{
    let ghost part = bytes@.subrange(lo as int, hi as int);
    let mut a: usize = lo;
    let mut kl: usize = leading_space_len_b(bytes, a, hi);
    while kl > 0
        invariant
            lo <= a <= hi <= bytes@.len(),
            kl == leading_space_len(bytes@.subrange(a as int, hi as int)),
            kl <= hi - a,
            drop_leading(bytes@.subrange(lo as int, hi as int)) == drop_leading(
                bytes@.subrange(a as int, hi as int),
            ),
        decreases hi - a,
    {
        proof {
            assert(bytes@.subrange(a as int, hi as int).subrange(kl as int, (hi - a) as int)
                =~= bytes@.subrange(a + kl, hi as int));
        }
        a += kl;
        kl = leading_space_len_b(bytes, a, hi);
    }
    let mut b: usize = hi;
    let mut kt: usize = trailing_space_len_b(bytes, a, b);
    while kt > 0
        invariant
            lo <= a <= b <= hi <= bytes@.len(),
            kt == trailing_space_len(bytes@.subrange(a as int, b as int)),
            kt <= b - a,
            drop_trailing(bytes@.subrange(a as int, hi as int)) == drop_trailing(
                bytes@.subrange(a as int, b as int),
            ),
        decreases b,
    {
        proof {
            assert(bytes@.subrange(a as int, b as int).subrange(0, (b - a - kt) as int)
                =~= bytes@.subrange(a as int, b - kt));
        }
        b -= kt;
        kt = trailing_space_len_b(bytes, a, b);
    }
    proof {
        assert(drop_leading(part) == bytes@.subrange(a as int, hi as int));
        assert(spec_trim(part) == bytes@.subrange(a as int, b as int));
    }
    let ghost tpart = spec_trim(part);
    let mut d: usize = a;
    if d < b && bytes[d] == 43 {
        d += 1;
    }
    let ghost ds = digits_of(tpart);
    proof {
        assert(ds =~= bytes@.subrange(d as int, b as int));
    }
    if d == b {
        proof {
            assert(ds.len() == 0);
        }
        return None;
    }
    let mut val: usize = 0;
    let mut m: usize = d;
    while m < b
        invariant
            lo <= d <= m <= b <= hi <= bytes@.len(),
            part == bytes@.subrange(lo as int, hi as int),
            tpart == spec_trim(part),
            ds == digits_of(tpart),
            ds == bytes@.subrange(d as int, b as int),
            forall|k: int| d <= k < m ==> is_digit(#[trigger] bytes@[k]),
            ({
                let nv = numeral_value(bytes@.subrange(d as int, m as int));
                if nv < 3 {
                    val == nv
                } else {
                    3 <= val <= 39
                }
            }),
        decreases b - m,
    {
        let ch: u8 = bytes[m];
        if ch < 48 || ch > 57 {
            proof {
                assert(!is_digit(digits_of(tpart)[m - d]));
            }
            return None;
        }
        proof {
            let pfx1 = bytes@.subrange(d as int, m + 1 as int);
            assert(pfx1.drop_last() =~= bytes@.subrange(d as int, m as int));
            assert(pfx1.last() == bytes@[m as int]);
        }
        if val < 4 {
            val = val * 10 + ((ch - 48) as usize);
        }
        m += 1;
    }
    proof {
        assert forall|k: int| 0 <= k < ds.len() implies is_digit(#[trigger] ds[k]) by {
            assert(ds[k] == bytes@[d + k]);
        }
    }
    if val < 3 {
        Some(val)
    } else {
        None
    }
}

/// Parses free text as a board coordinate: two numbers below three,
/// separated by one colon, with whitespace tolerated around each number,
/// give the (row, column) pair; any other text gives nothing.
pub fn parse_coord(s: &str) -> (r: Option<(usize, usize)>)
    ensures
        r == spec_parse_coord(s.spec_bytes()),
{
    let bytes = s.as_bytes();
    let ghost bs = s.spec_bytes();
    let n: usize = bytes.len();
    let mut lo: usize = 0;
    let mut kl: usize = leading_space_len_b(bytes, lo, n);
    while kl > 0
        invariant
            lo <= n == bs.len(),
            bytes@ == bs,
            kl == leading_space_len(bs.subrange(lo as int, n as int)),
            kl <= n - lo,
            drop_leading(bs.subrange(0, n as int)) == drop_leading(
                bs.subrange(lo as int, n as int),
            ),
        decreases n - lo,
    {
        proof {
            assert(bs.subrange(lo as int, n as int).subrange(kl as int, (n - lo) as int)
                =~= bs.subrange(lo + kl, n as int));
        }
        lo += kl;
        kl = leading_space_len_b(bytes, lo, n);
    }
    let mut hi: usize = n;
    let mut kt: usize = trailing_space_len_b(bytes, lo, hi);
    while kt > 0
        invariant
            lo <= hi <= n == bs.len(),
            bytes@ == bs,
            kt == trailing_space_len(bs.subrange(lo as int, hi as int)),
            kt <= hi - lo,
            drop_trailing(bs.subrange(lo as int, n as int)) == drop_trailing(
                bs.subrange(lo as int, hi as int),
            ),
        decreases hi,
    {
        proof {
            assert(bs.subrange(lo as int, hi as int).subrange(0, (hi - lo - kt) as int)
                =~= bs.subrange(lo as int, hi - kt));
        }
        hi -= kt;
        kt = trailing_space_len_b(bytes, lo, hi);
    }
    proof {
        assert(bs.subrange(0, n as int) =~= bs);
        assert(drop_leading(bs) == bs.subrange(lo as int, n as int));
        assert(spec_trim(bs) == bs.subrange(lo as int, hi as int));
    }
    let ghost t = spec_trim(bs);
    let mut j: usize = lo;
    let mut cpos: usize = 0;
    let mut found = false;
    let mut twice = false;
    while j < hi
        invariant
            lo <= j <= hi <= n == bs.len(),
            bytes@ == bs,
            !found ==> forall|k: int| lo <= k < j ==> #[trigger] bs[k] != 58,
            found ==> lo <= cpos < j && bs[cpos as int] == 58,
            found ==> forall|k: int| lo <= k < cpos ==> #[trigger] bs[k] != 58,
            twice ==> found,
            (found && !twice) ==> forall|k: int| cpos < k < j ==> #[trigger] bs[k] != 58,
            twice ==> exists|k: int| cpos < k < j && #[trigger] bs[k] == 58,
        decreases hi - j,
    {
        if bytes[j] == 58 {
            if found {
                twice = true;
            } else {
                found = true;
                cpos = j;
            }
        }
        j += 1;
    }
    if !found {
        proof {
            assert forall|jj: int| !one_colon_at(t, jj) by {
                if 0 <= jj < t.len() {
                    assert(t[jj] == bs[lo + jj]);
                }
            }
        }
        return None;
    }
    if twice {
        proof {
            let k2 = choose|k: int| cpos < k < j && #[trigger] bs[k] == 58;
            assert forall|jj: int| !one_colon_at(t, jj) by {
                if one_colon_at(t, jj) {
                    assert(t[cpos - lo] == bs[cpos as int]);
                    assert(t[k2 - lo] == bs[k2]);
                    assert(cpos - lo == jj && k2 - lo == jj);
                }
            }
        }
        return None;
    }
    proof {
        assert(t[cpos - lo] == bs[cpos as int]);
        assert forall|k: int| 0 <= k < t.len() && #[trigger] t[k] == 58 implies k == cpos - lo by {
            assert(t[k] == bs[lo + k]);
        }
        assert(one_colon_at(t, cpos - lo));
        let jc = choose|jj: int| one_colon_at(t, jj);
        assert(t[cpos - lo] == 58);
        assert(jc == cpos - lo);
    }
    let r1 = parse_part(bytes, lo, cpos);
    let r2 = parse_part(bytes, cpos + 1, hi);
    proof {
        assert(t.subrange(0, cpos - lo) =~= bs.subrange(lo as int, cpos as int));
        assert(t.subrange(cpos - lo + 1, t.len() as int) =~= bs.subrange(
            cpos + 1 as int,
            hi as int,
        ));
    }
    match (r1, r2) {
        (Some(row), Some(col)) => Some((row, col)),
        _ => None,
    }
}

} // verus!
