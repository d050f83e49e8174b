//! Byte-level text utilities the configuration and data grammars are built
//! on: whitespace trimming, separator splitting, decimal integer parsing and
//! ASCII case folding, each tied to an exact specification of its result.
use vstd::prelude::*;
use vstd::utf8::{decode_utf8, valid_utf8};

verus! {

/// Line feed, the line separator of every grammar in this crate.
pub const NEWLINE: u8 = 10;

/// Comma, the field separator of configuration and text data rows.
pub const COMMA: u8 = 44;

// ---------------------------------------------------------------------------
// Whitespace and trimming
// ---------------------------------------------------------------------------

/// ASCII whitespace: space, tab, line feed, vertical tab, form feed, carriage
/// return.
pub open spec fn is_ws(b: u8) -> bool {
    b == 32 || (9 <= b && b <= 13)
}

pub open spec fn trim_front(s: Seq<u8>) -> Seq<u8>
    decreases s.len(),
{
    if s.len() > 0 && is_ws(s[0]) {
        trim_front(s.drop_first())
    } else {
        s
    }
}

pub open spec fn trim_back(s: Seq<u8>) -> Seq<u8>
    decreases s.len(),
{
    if s.len() > 0 && is_ws(s.last()) {
        trim_back(s.drop_last())
    } else {
        s
    }
}

/// The token with ASCII whitespace removed from both ends.
pub open spec fn spec_trim(s: Seq<u8>) -> Seq<u8> {
    trim_back(trim_front(s))
}

fn ws(b: u8) -> (r: bool)
    ensures
        r == is_ws(b),
{
    b == 32 || (9 <= b && b <= 13)
}

/// Copies `s[lo..hi]` into a fresh vector.
pub fn subrange_vec(s: &[u8], lo: usize, hi: usize) -> (r: Vec<u8>)
    requires
        lo <= hi <= s@.len(),
    ensures
        r@ == s@.subrange(lo as int, hi as int),
{
    let mut r: Vec<u8> = Vec::new();
    let mut i: usize = lo;
    while i < hi
        invariant
            lo <= i <= hi <= s@.len(),
            r@ == s@.subrange(lo as int, i as int),
        decreases hi - i,
    {
        r.push(s[i]);
        proof {
            assert(r@ =~= s@.subrange(lo as int, i + 1 as int));
        }
        i += 1;
    }
    r
}

/// Removes ASCII whitespace from both ends of `s`.
pub fn trim_bytes(s: &[u8]) -> (r: Vec<u8>)
    ensures
        r@ == spec_trim(s@),
{
    let n = s.len();
    let mut lo: usize = 0;
    proof {
        assert(s@.skip(0) =~= s@);
    }
    while lo < n && ws(s[lo])
        invariant
            0 <= lo <= n == s@.len(),
            trim_front(s@) == trim_front(s@.skip(lo as int)),
        decreases n - lo,
    {
        proof {
            assert(s@.skip(lo as int).drop_first() =~= s@.skip(lo as int + 1));
        }
        lo += 1;
    }
    proof {
        if lo < n {
            assert(trim_front(s@.skip(lo as int)) == s@.skip(lo as int));
        } else {
            assert(s@.skip(lo as int) =~= Seq::<u8>::empty());
        }
        assert(trim_front(s@) == s@.skip(lo as int));
    }
    let mut hi: usize = n;
    while hi > lo && ws(s[hi - 1])
        invariant
            0 <= lo <= hi <= n == s@.len(),
            trim_back(s@.skip(lo as int)) == trim_back(s@.subrange(lo as int, hi as int)),
        decreases hi,
    {
        proof {
            assert(s@.subrange(lo as int, hi as int).drop_last() =~= s@.subrange(
                lo as int,
                hi as int - 1,
            ));
        }
        hi -= 1;
    }
    proof {
        if hi > lo {
            assert(trim_back(s@.subrange(lo as int, hi as int)) == s@.subrange(
                lo as int,
                hi as int,
            ));
        } else {
            assert(s@.subrange(lo as int, hi as int) =~= Seq::<u8>::empty());
        }
    }
    subrange_vec(s, lo, hi)
}

// ---------------------------------------------------------------------------
// Splitting on a separator byte
// ---------------------------------------------------------------------------

/// Index of the first occurrence of `sep` in `s` at or after `i`, or -1.
pub open spec fn find_byte(s: Seq<u8>, sep: u8, i: int) -> int
    decreases s.len() - i,
{
    if i < 0 || i >= s.len() {
        -1
    } else if s[i] == sep {
        i
    } else {
        find_byte(s, sep, i + 1)
    }
}

pub proof fn lemma_find_byte(s: Seq<u8>, sep: u8, i: int)
    requires
        0 <= i <= s.len(),
    ensures
        find_byte(s, sep, i) == -1 ==> forall|j: int| i <= j < s.len() ==> s[j] != sep,
        find_byte(s, sep, i) != -1 ==> i <= find_byte(s, sep, i) < s.len() && s[find_byte(
            s,
            sep,
            i,
        )] == sep && forall|j: int| i <= j < find_byte(s, sep, i) ==> s[j] != sep,
    decreases s.len() - i,
{
    if i < s.len() && s[i] != sep {
        lemma_find_byte(s, sep, i + 1);
    }
}

/// The fields of `s` between occurrences of `sep`; always at least one field.
pub open spec fn spec_split(s: Seq<u8>, sep: u8) -> Seq<Seq<u8>>
    decreases s.len(),
{
    let k = find_byte(s, sep, 0);
    if k < 0 {
        seq![s]
    } else if k < s.len() {
        seq![s.take(k)] + spec_split(s.skip(k + 1), sep)
    } else {
        // find_byte never returns an index at or beyond s.len()
        seq![s]
    }
}

proof fn lemma_split_no_sep(s: Seq<u8>, sep: u8)
    requires
        forall|j: int| 0 <= j < s.len() ==> s[j] != sep,
    ensures
        spec_split(s, sep) == seq![s],
{
    lemma_find_byte(s, sep, 0);
}

proof fn lemma_split_at_first(s: Seq<u8>, sep: u8, k: int)
    requires
        0 <= k < s.len(),
        s[k] == sep,
        forall|j: int| 0 <= j < k ==> s[j] != sep,
    ensures
        spec_split(s, sep) == seq![s.take(k)] + spec_split(s.skip(k + 1), sep),
    decreases k,
{
    lemma_find_byte(s, sep, 0);
    assert(find_byte(s, sep, 0) == k) by {
        let f = find_byte(s, sep, 0);
        if f == -1 {
        } else if f < k {
        } else if f > k {
        }
    }
}

/// Splits `s` on every occurrence of `sep`; an input with `n` separators
/// yields `n + 1` fields, in order, separators removed.
pub fn split_bytes(s: &[u8], sep: u8) -> (r: Vec<Vec<u8>>)
    ensures
        r@.map_values(|t: Vec<u8>| t@) == spec_split(s@, sep),
        r@.len() >= 1,
{
    let n = s.len();
    let mut r: Vec<Vec<u8>> = Vec::new();
    let mut start: usize = 0;
    let mut i: usize = 0;
    proof {
        assert(s@.skip(0) =~= s@);
        assert(r@.map_values(|t: Vec<u8>| t@) =~= Seq::<Seq<u8>>::empty());
        assert(Seq::<Seq<u8>>::empty() + spec_split(s@, sep) =~= spec_split(s@, sep));
    }
    while i < n
        invariant
            0 <= start <= i <= n == s@.len(),
            forall|j: int| start <= j < i ==> s@[j] != sep,
            spec_split(s@, sep) == r@.map_values(|t: Vec<u8>| t@) + spec_split(
                s@.skip(start as int),
                sep,
            ),
        decreases n - i,
    {
        if s[i] == sep {
            let field = subrange_vec(s, start, i);
            proof {
                let rest = s@.skip(start as int);
                let k = i - start as int;
                assert(rest[k] == sep);
                assert(forall|j: int| 0 <= j < k ==> rest[j] != sep);
                lemma_split_at_first(rest, sep, k);
                assert(rest.take(k) =~= s@.subrange(start as int, i as int));
                assert(rest.skip(k + 1) =~= s@.skip(i + 1 as int));
                assert((r@ + seq![field]).map_values(|t: Vec<u8>| t@) =~= r@.map_values(
                    |t: Vec<u8>| t@,
                ) + seq![field@]);
            }
            r.push(field);
            start = i + 1;
        }
        i += 1;
    }
    let field = subrange_vec(s, start, n);
    proof {
        let rest = s@.skip(start as int);
        assert(forall|j: int| 0 <= j < rest.len() ==> rest[j] != sep);
        lemma_split_no_sep(rest, sep);
        assert(rest =~= s@.subrange(start as int, n as int));
        assert((r@ + seq![field]).map_values(|t: Vec<u8>| t@) =~= r@.map_values(|t: Vec<u8>| t@)
            + seq![field@]);
    }
    r.push(field);
    r
}

// ---------------------------------------------------------------------------
// Decimal digits
// ---------------------------------------------------------------------------

pub open spec fn is_digit(b: u8) -> bool {
    48 <= b && b <= 57
}

pub open spec fn all_digits(s: Seq<u8>) -> bool {
    forall|i: int| 0 <= i < s.len() ==> is_digit(#[trigger] s[i])
}

/// Numeric value of one digit byte; zero on anything else.
pub open spec fn dval(b: u8) -> nat {
    if is_digit(b) {
        (b - 48) as nat
    } else {
        0
    }
}

/// The value of a digit string read in base 10.
pub open spec fn digits_val(s: Seq<u8>) -> nat
    decreases s.len(),
{
    if s.len() == 0 {
        0
    } else {
        digits_val(s.drop_last()) * 10 + dval(s.last())
    }
}

pub proof fn lemma_digits_take_le(s: Seq<u8>, i: int)
    requires
        0 <= i <= s.len(),
    ensures
        digits_val(s.take(i)) <= digits_val(s),
    decreases s.len() - i,
{
    if i < s.len() {
        assert(s.take(i + 1).drop_last() =~= s.take(i));
        assert(digits_val(s.take(i)) <= digits_val(s.take(i + 1)));
        lemma_digits_take_le(s, i + 1);
    } else {
        assert(s.take(i) =~= s);
    }
}

/// First position in `s[from..]` holding `b1` or `b2`, if any.
pub fn find_either_byte(s: &[u8], from: usize, b1: u8, b2: u8) -> (r: Option<usize>)
    requires
        from <= s@.len(),
    ensures
        r is Some ==> from <= r->0 < s@.len() && (s@[r->0 as int] == b1 || s@[r->0 as int] == b2)
            && forall|j: int| from <= j < r->0 ==> s@[j] != b1 && s@[j] != b2,
        r is None ==> forall|j: int| from <= j < s@.len() ==> s@[j] != b1 && s@[j] != b2,
{
    let n = s.len();
    let mut i: usize = from;
    while i < n
        invariant
            from <= i <= n == s@.len(),
            forall|j: int| from <= j < i ==> s@[j] != b1 && s@[j] != b2,
        decreases n - i,
    {
        if s[i] == b1 || s[i] == b2 {
            return Some(i);
        }
        i += 1;
    }
    None
}

/// True when `s[lo..hi]` is non-empty and all decimal digits.
pub fn check_digits(s: &[u8], lo: usize, hi: usize) -> (r: bool)
    requires
        lo <= hi <= s@.len(),
    ensures
        r == (hi > lo && all_digits(s@.subrange(lo as int, hi as int))),
{
    let ghost t = s@.subrange(lo as int, hi as int);
    if lo == hi {
        return false;
    }
    let mut i: usize = lo;
    while i < hi
        invariant
            lo <= i <= hi <= s@.len(),
            t == s@.subrange(lo as int, hi as int),
            forall|j: int| 0 <= j < i - lo ==> is_digit(#[trigger] t[j]),
        decreases hi - i,
    {
        let b = s[i];
        if !(48 <= b && b <= 57) {
            assert(!is_digit(t[i - lo as int]));
            return false;
        }
        i += 1;
    }
    true
}

/// Reads `s[lo..hi]` as an unsigned decimal number. Returns the value unless
/// the range is empty, holds a non-digit, or the value exceeds `limit`.
pub fn digits_in_range_to_u128(s: &[u8], lo: usize, hi: usize, limit: u128) -> (r: Option<u128>)
    requires
        lo <= hi <= s@.len(),
    ensures
        ({
            let t = s@.subrange(lo as int, hi as int);
            &&& r is Some <==> (hi > lo && all_digits(t) && digits_val(t) <= limit)
            &&& r is Some ==> r->0 == digits_val(t)
        }),
{
    let ghost t = s@.subrange(lo as int, hi as int);
    if lo == hi {
        return None;
    }
    let mut acc: u128 = 0;
    let mut i: usize = lo;
    while i < hi
        invariant
            lo <= i <= hi <= s@.len(),
            t == s@.subrange(lo as int, hi as int),
            all_digits(t.take(i - lo)),
            acc == digits_val(t.take(i - lo)),
            acc <= limit,
        decreases hi - i,
    {
        let b = s[i];
        proof {
            assert(t.take(i - lo + 1).drop_last() =~= t.take(i - lo));
            assert(t.take(i - lo + 1).last() == b);
        }
        if !(48 <= b && b <= 57) {
            proof {
                assert(!is_digit(t[i - lo as int]));
            }
            return None;
        }
        let d: u128 = (b - 48) as u128;
        let step = match acc.checked_mul(10) {
            Some(m) => m.checked_add(d),
            None => None,
        };
        match step {
            Some(v) => {
                if v > limit {
                    proof {
                        lemma_digits_take_le(t, i - lo + 1);
                    }
                    return None;
                }
                acc = v;
            },
            None => {
                proof {
                    lemma_digits_take_le(t, i - lo + 1);
                }
                return None;
            },
        }
        i += 1;
    }
    proof {
        assert(t.take(hi - lo as int) =~= t);
    }
    Some(acc)
}

// ---------------------------------------------------------------------------
// Signed and unsigned integer tokens
// ---------------------------------------------------------------------------

/// Plus sign.
pub const PLUS: u8 = 43;

/// Minus sign.
pub const MINUS: u8 = 45;

pub open spec fn strip_sign(s: Seq<u8>) -> Seq<u8> {
    if s.len() > 0 && (s[0] == PLUS || s[0] == MINUS) {
        s.drop_first()
    } else {
        s
    }
}

/// An optionally signed, non-empty, all-digit token.
pub open spec fn valid_int_token(s: Seq<u8>) -> bool {
    strip_sign(s).len() > 0 && all_digits(strip_sign(s))
}

/// An unsigned token also admits a leading plus, as Rust's integer parsing
/// does, but no minus.
pub open spec fn valid_uint_token(s: Seq<u8>) -> bool {
    valid_int_token(s) && !(s.len() > 0 && s[0] == MINUS)
}

pub open spec fn uint_token_val(s: Seq<u8>) -> nat {
    digits_val(strip_sign(s))
}

pub open spec fn int_token_val(s: Seq<u8>) -> int {
    if s.len() > 0 && s[0] == MINUS {
        -(digits_val(strip_sign(s)) as int)
    } else {
        digits_val(strip_sign(s)) as int
    }
}

/// Parses an unsigned decimal token no greater than `limit`.
pub fn parse_uint(s: &[u8], limit: u128) -> (r: Option<u128>)
    ensures
        r is Some <==> (valid_uint_token(s@) && uint_token_val(s@) <= limit),
        r is Some ==> r->0 == uint_token_val(s@),
{
    let n = s.len();
    if n == 0 {
        return None;
    }
    let start: usize = if s[0] == PLUS {
        1
    } else if s[0] == MINUS {
        return None;
    } else {
        0
    };
    proof {
        assert(s@.subrange(start as int, n as int) =~= strip_sign(s@));
    }
    digits_in_range_to_u128(s, start, n, limit)
}

pub fn parse_u32(s: &[u8]) -> (r: Option<u32>)
    ensures
        r is Some <==> (valid_uint_token(s@) && uint_token_val(s@) <= u32::MAX),
        r is Some ==> r->0 == uint_token_val(s@),
{
    match parse_uint(s, u32::MAX as u128) {
        Some(v) => Some(v as u32),
        None => None,
    }
}

pub fn parse_u8(s: &[u8]) -> (r: Option<u8>)
    ensures
        r is Some <==> (valid_uint_token(s@) && uint_token_val(s@) <= u8::MAX),
        r is Some ==> r->0 == uint_token_val(s@),
{
    match parse_uint(s, u8::MAX as u128) {
        Some(v) => Some(v as u8),
        None => None,
    }
}

/// Parses an optionally signed decimal token into an `i32`.
pub fn parse_i32(s: &[u8]) -> (r: Option<i32>)
    ensures
        r is Some <==> (valid_int_token(s@) && i32::MIN <= int_token_val(s@) <= i32::MAX),
        r is Some ==> r->0 == int_token_val(s@),
{
    let n = s.len();
    if n == 0 {
        return None;
    }
    let neg = s[0] == MINUS;
    let start: usize = if s[0] == PLUS || s[0] == MINUS {
        1
    } else {
        0
    };
    proof {
        assert(s@.subrange(start as int, n as int) =~= strip_sign(s@));
    }
    let mag = match digits_in_range_to_u128(s, start, n, 0x8000_0000u128) {
        Some(m) => m,
        None => {
            return None;
        },
    };
    if neg {
        if mag == 0x8000_0000u128 {
            Some(i32::MIN)
        } else {
            Some(-(mag as i32))
        }
    } else {
        if mag == 0x8000_0000u128 {
            None
        } else {
            Some(mag as i32)
        }
    }
}

// ---------------------------------------------------------------------------
// ASCII case folding and keyword matching
// ---------------------------------------------------------------------------

pub open spec fn lower(b: u8) -> u8 {
    if 65 <= b && b <= 90 {
        (b + 32) as u8
    } else {
        b
    }
}

pub open spec fn lower_seq(s: Seq<u8>) -> Seq<u8> {
    s.map_values(|b: u8| lower(b))
}

/// Folds `s` to ASCII lower case.
pub fn to_lower(s: &[u8]) -> (r: Vec<u8>)
    ensures
        r@ == lower_seq(s@),
{
    let n = s.len();
    let mut r: Vec<u8> = Vec::new();
    let mut i: usize = 0;
    while i < n
        invariant
            0 <= i <= n == s@.len(),
            r@.len() == i,
            forall|j: int| 0 <= j < i ==> r@[j] == lower(s@[j]),
        decreases n - i,
    {
        let b = s[i];
        if 65 <= b && b <= 90 {
            r.push(b + 32);
        } else {
            r.push(b);
        }
        i += 1;
    }
    proof {
        assert(r@ =~= lower_seq(s@));
    }
    r
}

pub fn bytes_eq(a: &[u8], b: &[u8]) -> (r: bool)
    ensures
        r == (a@ == b@),
{
    if a.len() != b.len() {
        assert(a@.len() != b@.len());
        return false;
    }
    let n = a.len();
    let mut i: usize = 0;
    while i < n
        invariant
            n == a@.len() && n == b@.len(),
            0 <= i <= n,
            forall|j: int| 0 <= j < i ==> a@[j] == b@[j],
        decreases n - i,
    {
        if a[i] != b[i] {
            return false;
        }
        i += 1;
    }
    proof {
        assert(a@ =~= b@);
    }
    true
}


/// Renders a number in decimal, for error messages.
pub fn usize_to_decimal(n: usize) -> (r: Vec<u8>)
    ensures
        r@.len() >= 1,
        all_digits(r@),
{
    let mut tmp: Vec<u8> = Vec::new();
    let mut v: usize = n;
    tmp.push((v % 10) as u8 + 48);
    v = v / 10;
    while v > 0
        invariant
            forall|i: int| 0 <= i < tmp@.len() ==> is_digit(#[trigger] tmp@[i]),
            tmp@.len() >= 1,
        decreases v,
    {
        tmp.push((v % 10) as u8 + 48);
        v = v / 10;
    }
    let mut r: Vec<u8> = Vec::new();
    let mut i: usize = tmp.len();
    while i > 0
        invariant
            0 <= i <= tmp@.len(),
            forall|k: int| 0 <= k < tmp@.len() ==> is_digit(#[trigger] tmp@[k]),
            r@.len() == tmp@.len() - i,
            forall|k: int| 0 <= k < r@.len() ==> is_digit(#[trigger] r@[k]),
        decreases i,
    {
        i -= 1;
        r.push(tmp[i]);
    }
    r
}

// ---------------------------------------------------------------------------
// Bytes to text
// ---------------------------------------------------------------------------

/// The character sequence that lossy UTF-8 decoding yields for a byte
/// sequence; pinned down exactly on valid UTF-8 by `bytes_to_string`.
pub uninterp spec fn chars_of_lossy(s: Seq<u8>) -> Seq<char>;

/// Relies on `String::from_utf8_lossy`: the result depends on the bytes
/// alone, and valid UTF-8 input is decoded unchanged.
#[verifier::external_body]
pub fn bytes_to_string(b: &[u8]) -> (r: String)
    ensures
        r@ == chars_of_lossy(b@),
        valid_utf8(b@) ==> r@ == decode_utf8(b@),
{
    String::from_utf8_lossy(b).into_owned()
}

} // verus!
