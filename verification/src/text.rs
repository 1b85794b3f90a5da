//! Character-level text utilities with exact specifications: whitespace
//! trimming, ASCII case mapping, decimal and hexadecimal encodings.
use vstd::prelude::*;

verus! {

/// The view of an optional string slice.
pub open spec fn ostr_view(o: Option<&str>) -> Option<Seq<char>> {
    match o {
        Some(s) => Some(s@),
        None => None,
    }
}

/// The view of an optional string.
pub open spec fn ostring_view(o: Option<String>) -> Option<Seq<char>> {
    match o {
        Some(s) => Some(s@),
        None => None,
    }
}

/// The views of a list of strings.
pub open spec fn strings_view(v: Seq<String>) -> Seq<Seq<char>> {
    v.map_values(|s: String| s@)
}


/// Unicode `White_Space` property, the set that `char::is_whitespace` tests.
pub open spec fn is_ws(c: char) -> bool {
    ||| ('\u{9}' <= c && c <= '\u{d}')
    ||| c == ' '
    ||| c == '\u{85}'
    ||| c == '\u{a0}'
    ||| c == '\u{1680}'
    ||| ('\u{2000}' <= c && c <= '\u{200a}')
    ||| c == '\u{2028}'
    ||| c == '\u{2029}'
    ||| c == '\u{202f}'
    ||| c == '\u{205f}'
    ||| c == '\u{3000}'
}

/// Tests the Unicode `White_Space` property of one character.
pub fn is_whitespace(c: char) -> (r: bool)
    ensures
        r == is_ws(c),
{
    ('\u{9}' <= c && c <= '\u{d}') || c == ' ' || c == '\u{85}' || c == '\u{a0}' || c == '\u{1680}'
        || ('\u{2000}' <= c && c <= '\u{200a}') || c == '\u{2028}' || c == '\u{2029}' || c
        == '\u{202f}' || c == '\u{205f}' || c == '\u{3000}'
}

/// The characters left after dropping leading whitespace.
pub open spec fn trim_start_spec(s: Seq<char>) -> Seq<char>
    decreases s.len(),
{
    if s.len() > 0 && is_ws(s[0]) {
        trim_start_spec(s.drop_first())
    } else {
        s
    }
}

/// The characters left after dropping trailing whitespace.
pub open spec fn trim_end_spec(s: Seq<char>) -> Seq<char>
    decreases s.len(),
{
    if s.len() > 0 && is_ws(s.last()) {
        trim_end_spec(s.drop_last())
    } else {
        s
    }
}

/// `str::trim`: both ends stripped of whitespace.
pub open spec fn trim_spec(s: Seq<char>) -> Seq<char> {
    trim_end_spec(trim_start_spec(s))
}

pub open spec fn ascii_lower(c: char) -> char {
    if 'A' <= c && c <= 'Z' {
        ((c as u32) + 32) as char
    } else {
        c
    }
}

pub open spec fn ascii_upper(c: char) -> char {
    if 'a' <= c && c <= 'z' {
        ((c as u32) - 32) as char
    } else {
        c
    }
}

/// `to_ascii_lowercase` on a whole character sequence.
pub open spec fn lower_spec(s: Seq<char>) -> Seq<char> {
    Seq::new(s.len(), |i: int| ascii_lower(s[i]))
}

pub fn to_ascii_lower_char(c: char) -> (r: char)
    ensures
        r == ascii_lower(c),
{
    if 'A' <= c && c <= 'Z' {
        proof {
            assert(c as u32 + 32 <= 0x7a);
        }
        ((c as u8) + 32) as char
    } else {
        c
    }
}

/// Appends one character to a `String` (`String::push`).
#[verifier::external_body]
pub(crate) fn push_char(s: &mut String, c: char)
    ensures
        final(s)@ == old(s)@.push(c),
{
    s.push(c)
}

/// The characters of a string slice, in order.
pub fn chars_of(s: &str) -> (v: Vec<char>)
    ensures
        v@ == s@,
{
    let mut v: Vec<char> = Vec::new();
    broadcast use vstd::string::group_string_axioms;
    for c in it: s.chars()
        invariant
            it.seq() == s@,
            v@ == s@.take(it.index() as int),
    {
        v.push(c);
        assert(v@ == s@.take(it.index() as int + 1));
    }
    assert(v@ == s@);
    v
}


/// Builds a `String` holding exactly the given characters.
pub fn string_from_chars(v: &[char]) -> (s: String)
    ensures
        s@ == v@,
{
    let mut s = String::new();
    let mut i: usize = 0;
    while i < v.len()
        invariant
            i <= v.len(),
            s@ == v@.take(i as int),
        decreases v.len() - i,
    {
        push_char(&mut s, v[i]);
        assert(v@.take(i as int + 1) == v@.take(i as int).push(v@[i as int]));
        i = i + 1;
    }
    assert(v@.take(v@.len() as int) == v@);
    s
}

proof fn lemma_trim_start_shape(s: Seq<char>)
    ensures
        trim_start_spec(s).len() > 0 ==> !is_ws(trim_start_spec(s)[0]),
    decreases s.len(),
{
    if s.len() > 0 && is_ws(s[0]) {
        lemma_trim_start_shape(s.drop_first());
    }
}

proof fn lemma_trim_end_shape(s: Seq<char>)
    ensures
        trim_end_spec(s).len() <= s.len(),
        trim_end_spec(s) == s.take(trim_end_spec(s).len() as int),
        trim_end_spec(s).len() > 0 ==> !is_ws(trim_end_spec(s).last()),
    decreases s.len(),
{
    if s.len() > 0 && is_ws(s.last()) {
        lemma_trim_end_shape(s.drop_last());
        let n = trim_end_spec(s.drop_last()).len() as int;
        assert(s.drop_last().take(n) == s.take(n));
    } else {
        assert(s.take(s.len() as int) == s);
    }
}

/// Trimming twice is trimming once.
pub proof fn lemma_trim_idempotent(s: Seq<char>)
    ensures
        trim_spec(trim_spec(s)) == trim_spec(s),
{
    let a = trim_start_spec(s);
    let b = trim_end_spec(a);
    lemma_trim_start_shape(s);
    lemma_trim_end_shape(a);
    if b.len() > 0 {
        assert(b[0] == a[0]);
    }
    assert(trim_start_spec(b) == b);
    assert(trim_end_spec(b) == b);
}

pub proof fn lemma_trim_start_skip(s: Seq<char>, i: int)
    requires
        0 <= i <= s.len(),
        forall|k: int| 0 <= k < i ==> is_ws(#[trigger] s[k]),
    ensures
        trim_start_spec(s) == trim_start_spec(s.skip(i)),
    decreases i,
{
    if i > 0 {
        assert(s.skip(i) == s.drop_first().skip(i - 1));
        lemma_trim_start_skip(s.drop_first(), i - 1);
    } else {
        assert(s.skip(0) == s);
    }
}

pub proof fn lemma_trim_end_take(s: Seq<char>, j: int)
    requires
        0 <= j <= s.len(),
        forall|k: int| j <= k < s.len() ==> is_ws(#[trigger] s[k]),
    ensures
        trim_end_spec(s) == trim_end_spec(s.take(j)),
    decreases s.len() - j,
{
    if j < s.len() {
        assert(s.drop_last().take(j) == s.take(j));
        lemma_trim_end_take(s.drop_last(), j);
    } else {
        assert(s.take(j) == s);
    }
}

/// Start and end of the trimmed part: `v[start..end]` is `trim_spec(v)`.
pub fn trim_bounds(v: &[char]) -> (r: (usize, usize))
    ensures
        r.0 <= r.1 <= v@.len(),
        v@.subrange(r.0 as int, r.1 as int) == trim_spec(v@),
{
    let mut i: usize = 0;
    while i < v.len() && is_whitespace(v[i])
        invariant
            i <= v.len(),
            forall|k: int| 0 <= k < i ==> is_ws(#[trigger] v@[k]),
        decreases v.len() - i,
    {
        i = i + 1;
    }
    proof {
        lemma_trim_start_skip(v@, i as int);
        assert(trim_start_spec(v@.skip(i as int)) == v@.skip(i as int));
    }
    let ghost t = v@.skip(i as int);
    let mut j: usize = v.len();
    while j > i && is_whitespace(v[j - 1])
        invariant
            i <= j <= v.len(),
            t == v@.skip(i as int),
            forall|k: int| j <= k < v.len() ==> is_ws(#[trigger] v@[k]),
        decreases j,
    {
        j = j - 1;
    }
    proof {
        assert forall|k: int| (j - i) <= k < t.len() implies is_ws(#[trigger] t[k]) by {
            assert(t[k] == v@[k + i]);
        }
        lemma_trim_end_take(t, j - i);
        assert(t.take(j - i) == v@.subrange(i as int, j as int));
        let u = t.take(j - i);
        if u.len() > 0 {
            assert(u.last() == v@[j - 1]);
        }
    }
    (i, j)
}

/// `str::trim` on a character sequence.
pub fn trim(v: &[char]) -> (r: Vec<char>)
    ensures
        r@ == trim_spec(v@),
{
    let (a, b) = trim_bounds(v);
    slice_range(v, a, b)
}

/// Copies `v[from..to]`.
pub fn slice_range(v: &[char], from: usize, to: usize) -> (r: Vec<char>)
    requires
        from <= to <= v@.len(),
    ensures
        r@ == v@.subrange(from as int, to as int),
{
    let mut r: Vec<char> = Vec::new();
    let mut k: usize = from;
    while k < to
        invariant
            from <= k <= to <= v@.len(),
            r@ == v@.subrange(from as int, k as int),
        decreases to - k,
    {
        r.push(v[k]);
        assert(v@.subrange(from as int, k as int + 1) == v@.subrange(from as int, k as int).push(
            v@[k as int],
        ));
        k = k + 1;
    }
    r
}

/// `to_ascii_lowercase` on a character sequence.
pub fn to_ascii_lower(v: &[char]) -> (r: Vec<char>)
    ensures
        r@ == lower_spec(v@),
{
    let mut r: Vec<char> = Vec::new();
    let mut k: usize = 0;
    while k < v.len()
        invariant
            k <= v.len(),
            r@ == lower_spec(v@.take(k as int)),
        decreases v.len() - k,
    {
        r.push(to_ascii_lower_char(v[k]));
        assert(lower_spec(v@.take(k as int + 1)) == lower_spec(v@.take(k as int)).push(
            ascii_lower(v@[k as int]),
        ));
        k = k + 1;
    }
    assert(v@.take(v@.len() as int) == v@);
    r
}


// ---------------------------------------------------------------------------
// UTF-8 length
// ---------------------------------------------------------------------------

/// Number of bytes of the UTF-8 encoding of one character.
pub open spec fn char_utf8_len(c: char) -> nat {
    if (c as u32) < 0x80 {
        1
    } else if (c as u32) < 0x800 {
        2
    } else if (c as u32) < 0x10000 {
        3
    } else {
        4
    }
}

/// Number of bytes of the UTF-8 encoding of a character sequence
/// (what `str::len` returns).
pub open spec fn utf8_len(s: Seq<char>) -> nat
    decreases s.len(),
{
    if s.len() == 0 {
        0
    } else {
        utf8_len(s.drop_last()) + char_utf8_len(s.last())
    }
}

pub proof fn lemma_utf8_len_bounds(s: Seq<char>)
    ensures
        s.len() <= utf8_len(s) <= 4 * s.len(),
    decreases s.len(),
{
    if s.len() > 0 {
        lemma_utf8_len_bounds(s.drop_last());
    }
}

/// The UTF-8 byte length of a character sequence, saturated at `cap + 1`:
/// the result is exact when it is at most `cap`.
pub fn utf8_len_capped(v: &[char], cap: usize) -> (r: usize)
    requires
        cap < usize::MAX,
    ensures
        r <= cap ==> r == utf8_len(v@),
        r > cap <==> utf8_len(v@) > cap,
{
    let mut total: usize = 0;
    let mut k: usize = 0;
    while k < v.len()
        invariant
            k <= v.len(),
            cap < usize::MAX,
            total == utf8_len(v@.take(k as int)),
            total <= cap,
        decreases v.len() - k,
    {
        let c = v[k];
        let w: usize = if (c as u32) < 0x80 {
            1
        } else if (c as u32) < 0x800 {
            2
        } else if (c as u32) < 0x10000 {
            3
        } else {
            4
        };
        assert(v@.take(k as int + 1).drop_last() == v@.take(k as int));
        if w > cap - total {
            proof {
                lemma_utf8_len_prefix(v@, k as int + 1);
            }
            return cap + 1;
        }
        total = total + w;
        k = k + 1;
    }
    assert(v@.take(v@.len() as int) == v@);
    total
}

pub proof fn lemma_utf8_len_prefix(s: Seq<char>, k: int)
    requires
        0 <= k <= s.len(),
    ensures
        utf8_len(s.take(k)) <= utf8_len(s),
    decreases s.len() - k,
{
    if k < s.len() {
        lemma_utf8_len_prefix(s, k + 1);
        assert(s.take(k + 1).drop_last() == s.take(k));
    } else {
        assert(s.take(k) == s);
    }
}

// ---------------------------------------------------------------------------
// Decimal numbers
// ---------------------------------------------------------------------------

pub open spec fn is_digit(c: char) -> bool {
    '0' <= c && c <= '9'
}

pub open spec fn digit_value(c: char) -> nat {
    ((c as u32) - 48) as nat
}

pub open spec fn digit_char(d: nat) -> char {
    (48 + d) as char
}

pub open spec fn all_digits(s: Seq<char>) -> bool {
    forall|i: int| 0 <= i < s.len() ==> is_digit(#[trigger] s[i])
}

/// The number that a string of decimal digits denotes.
pub open spec fn digits_value(s: Seq<char>) -> nat
    decreases s.len(),
{
    if s.len() == 0 {
        0
    } else {
        digits_value(s.drop_last()) * 10 + digit_value(s.last())
    }
}

/// Decimal digits of a natural number, without leading zeros.
pub open spec fn nat_digits(n: nat) -> Seq<char>
    decreases n,
{
    if n < 10 {
        seq![digit_char(n)]
    } else {
        nat_digits(n / 10).push(digit_char(n % 10))
    }
}

/// Decimal text of an integer, as `format!("{}", n)` writes it.
pub open spec fn int_decimal(n: int) -> Seq<char> {
    if n < 0 {
        seq!['-'] + nat_digits((-n) as nat)
    } else {
        nat_digits(n as nat)
    }
}

/// Syntax of `FromStr` for integers: an optional sign (`-` only when
/// `signed`), then one or more ASCII digits. The value, ignoring range.
pub open spec fn parse_int_spec(s: Seq<char>, signed: bool) -> Option<int> {
    if s.len() > 0 && s[0] == '-' {
        let b = s.drop_first();
        if signed && b.len() > 0 && all_digits(b) {
            Some(-digits_value(b))
        } else {
            None
        }
    } else {
        let b = if s.len() > 0 && s[0] == '+' {
            s.drop_first()
        } else {
            s
        };
        if b.len() > 0 && all_digits(b) {
            Some(digits_value(b) as int)
        } else {
            None
        }
    }
}

/// `str::parse` for an integer type with the given range.
pub open spec fn parse_in_range(s: Seq<char>, signed: bool, lo: int, hi: int) -> Option<int> {
    match parse_int_spec(s, signed) {
        Some(n) => if lo <= n <= hi {
            Some(n)
        } else {
            None
        },
        None => None,
    }
}

pub proof fn lemma_digits_value_prefix(s: Seq<char>, k: int)
    requires
        0 <= k <= s.len(),
    ensures
        digits_value(s.take(k)) <= digits_value(s),
    decreases s.len() - k,
{
    if k < s.len() {
        lemma_digits_value_prefix(s, k + 1);
        assert(s.take(k + 1).drop_last() == s.take(k));
    } else {
        assert(s.take(k) == s);
    }
}

pub proof fn lemma_nat_digits_shape(n: nat)
    ensures
        nat_digits(n).len() >= 1,
        all_digits(nat_digits(n)),
        digits_value(nat_digits(n)) == n,
        nat_digits(n)[0] != '-' && nat_digits(n)[0] != '+',
    decreases n,
{
    if n >= 10 {
        lemma_nat_digits_shape(n / 10);
        let p = nat_digits(n / 10);
        assert(nat_digits(n).drop_last() == p);
        assert(nat_digits(n)[0] == p[0]);
        assert(nat_digits(n).last() == digit_char((n % 10) as nat));
        assert(digit_value(digit_char((n % 10) as nat)) == n % 10);
        assert((n / 10) * 10 + n % 10 == n);
        assert(digits_value(nat_digits(n)) == digits_value(p) * 10 + digit_value(
            nat_digits(n).last(),
        ));
        assert(digits_value(p) == n / 10);
        assert(digits_value(nat_digits(n)) == n);
    } else {
        assert(nat_digits(n).drop_last() =~= Seq::<char>::empty());
        assert(digit_value(digit_char(n)) == n);
        assert(digits_value(nat_digits(n).drop_last()) == 0);
        assert(nat_digits(n).last() == digit_char(n));
        assert(digits_value(nat_digits(n)) == n);
    }
}

/// Decimal text round-trips through parsing.
pub proof fn lemma_int_decimal_parses(n: int)
    ensures
        parse_int_spec(int_decimal(n), true) == Some(n),
        n >= 0 ==> parse_int_spec(int_decimal(n), false) == Some(n),
{
    if n < 0 {
        lemma_nat_digits_shape((-n) as nat);
        let d = int_decimal(n);
        assert(d.drop_first() == nat_digits((-n) as nat));
    } else {
        lemma_nat_digits_shape(n as nat);
    }
}

/// Decimal text is made of digits and, for a negative number, a leading `-`.
pub proof fn lemma_int_decimal_chars(n: int)
    ensures
        int_decimal(n).len() >= 1,
        forall|i: int|
            0 <= i < int_decimal(n).len() ==> is_digit(#[trigger] int_decimal(n)[i]) || (i == 0
                && int_decimal(n)[i] == '-'),
{
    if n < 0 {
        lemma_nat_digits_shape((-n) as nat);
        let d = int_decimal(n);
        assert forall|i: int| 0 < i < d.len() implies is_digit(#[trigger] d[i]) by {
            assert(d[i] == nat_digits((-n) as nat)[i - 1]);
        }
    } else {
        lemma_nat_digits_shape(n as nat);
    }
}

/// Appends the decimal digits of `n`.
pub fn push_nat_digits(out: &mut Vec<char>, n: u64)
    ensures
        final(out)@ == old(out)@ + nat_digits(n as nat),
    decreases n,
{
    if n < 10 {
        out.push(((n as u8) + 48) as char);
        assert(nat_digits(n as nat) == seq![digit_char(n as nat)]);
    } else {
        push_nat_digits(out, n / 10);
        out.push((((n % 10) as u8) + 48) as char);
        assert(nat_digits(n as nat) == nat_digits((n / 10) as nat).push(
            digit_char((n % 10) as nat),
        ));
    }
}

/// Decimal text of a signed 64-bit integer.
pub fn i64_decimal(n: i64) -> (r: Vec<char>)
    ensures
        r@ == int_decimal(n as int),
{
    let mut out: Vec<char> = Vec::new();
    if n < 0 {
        out.push('-');
        let m: u64 = if n == i64::MIN {
            9223372036854775808u64
        } else {
            (-n) as u64
        };
        push_nat_digits(&mut out, m);
    } else {
        push_nat_digits(&mut out, n as u64);
    }
    out
}

/// Decimal text of an unsigned 64-bit integer.
pub fn u64_decimal(n: u64) -> (r: Vec<char>)
    ensures
        r@ == int_decimal(n as int),
{
    let mut out: Vec<char> = Vec::new();
    push_nat_digits(&mut out, n);
    out
}

/// Parses `v[from..]` as one or more decimal digits; `None` when a
/// character is not a digit, the part is empty, or the value exceeds `u64::MAX`.
pub fn parse_digits(v: &[char], from: usize) -> (r: Option<u64>)
    requires
        from <= v@.len(),
    ensures
        ({
            let b = v@.skip(from as int);
            match r {
                Some(x) => b.len() > 0 && all_digits(b) && x == digits_value(b),
                None => !(b.len() > 0 && all_digits(b) && digits_value(b) <= u64::MAX),
            }
        }),
{
    let ghost b = v@.skip(from as int);
    if from == v.len() {
        return None;
    }
    let mut acc: u64 = 0;
    let mut k: usize = from;
    while k < v.len()
        invariant
            from <= k <= v@.len(),
            b == v@.skip(from as int),
            all_digits(b.take(k - from)),
            acc == digits_value(b.take(k - from)),
        decreases v.len() - k,
    {
        let c = v[k];
        if !('0' <= c && c <= '9') {
            assert(b[k - from] == c);
            return None;
        }
        let d: u64 = ((c as u32) - 48) as u64;
        assert(b.take(k - from + 1).drop_last() == b.take(k - from));
        assert(b.take(k - from + 1).last() == c);
        if acc > (u64::MAX - d) / 10 {
            proof {
                assert(acc * 10 + d > u64::MAX) by (nonlinear_arith)
                    requires
                        acc > (u64::MAX - d) / 10,
                        d <= 9,
                ;
                if all_digits(b) {
                    lemma_digits_value_prefix(b, k - from + 1);
                }
            }
            return None;
        }
        acc = acc * 10 + d;
        k = k + 1;
        assert(all_digits(b.take(k - from)));
    }
    assert(b.take(k - from) == b);
    Some(acc)
}

/// `str::parse::<u64>()`.
pub fn parse_u64(v: &[char]) -> (r: Option<u64>)
    ensures
        r == (match parse_in_range(v@, false, 0, u64::MAX as int) {
            Some(n) => Some(n as u64),
            None => None,
        }),
{
    if v.len() > 0 && v[0] == '-' {
        return None;
    }
    let start: usize = if v.len() > 0 && v[0] == '+' {
        1
    } else {
        0
    };
    assert(start == 1 ==> v@.skip(1) == v@.drop_first());
    assert(start == 0 ==> v@.skip(0) == v@);
    parse_digits(v, start)
}

/// `str::parse::<u32>()`.
pub fn parse_u32(v: &[char]) -> (r: Option<u32>)
    ensures
        r == (match parse_in_range(v@, false, 0, u32::MAX as int) {
            Some(n) => Some(n as u32),
            None => None,
        }),
{
    match parse_u64(v) {
        Some(x) => if x <= u32::MAX as u64 {
            Some(x as u32)
        } else {
            None
        },
        None => {
            assert(parse_in_range(v@, false, 0, u32::MAX as int) is None);
            None
        },
    }
}

/// Parses an optionally signed decimal integer within `[lo, hi]`.
fn parse_signed(v: &[char], lo: i64, hi: i64) -> (r: Option<i64>)
    requires
        lo <= 0 <= hi,
    ensures
        r == (match parse_in_range(v@, true, lo as int, hi as int) {
            Some(n) => Some(n as i64),
            None => None,
        }),
{
    if v.len() > 0 && v[0] == '-' {
        assert(v@.skip(1) == v@.drop_first());
        match parse_digits(v, 1) {
            Some(m) => {
                if m <= 9223372036854775808u64 {
                    let x: i64 = if m == 9223372036854775808u64 {
                        i64::MIN
                    } else {
                        -(m as i64)
                    };
                    if x >= lo {
                        Some(x)
                    } else {
                        None
                    }
                } else {
                    None
                }
            },
            None => None,
        }
    } else {
        let start: usize = if v.len() > 0 && v[0] == '+' {
            1
        } else {
            0
        };
        assert(start == 1 ==> v@.skip(1) == v@.drop_first());
        assert(start == 0 ==> v@.skip(0) == v@);
        match parse_digits(v, start) {
            Some(m) => if m <= hi as u64 {
                Some(m as i64)
            } else {
                None
            },
            None => None,
        }
    }
}

/// `str::parse::<i64>()`.
pub fn parse_i64(v: &[char]) -> (r: Option<i64>)
    ensures
        r == (match parse_in_range(v@, true, i64::MIN as int, i64::MAX as int) {
            Some(n) => Some(n as i64),
            None => None,
        }),
{
    parse_signed(v, i64::MIN, i64::MAX)
}

/// `str::parse::<i16>()`.
pub fn parse_i16(v: &[char]) -> (r: Option<i16>)
    ensures
        r == (match parse_in_range(v@, true, i16::MIN as int, i16::MAX as int) {
            Some(n) => Some(n as i16),
            None => None,
        }),
{
    match parse_signed(v, i16::MIN as i64, i16::MAX as i64) {
        Some(x) => Some(x as i16),
        None => None,
    }
}

// ---------------------------------------------------------------------------
// Hexadecimal
// ---------------------------------------------------------------------------

pub open spec fn hex_digit(d: nat) -> char {
    if d < 10 {
        (48 + d) as char
    } else {
        (87 + d) as char
    }
}

/// Lowercase two-digit hexadecimal of every byte, as `format!("{:02x}", b)`
/// concatenated.
pub open spec fn hex_lower_spec(b: Seq<u8>) -> Seq<char>
    decreases b.len(),
{
    if b.len() == 0 {
        seq![]
    } else {
        hex_lower_spec(b.drop_last()) + seq![
            hex_digit((b.last() / 16) as nat),
            hex_digit((b.last() % 16) as nat),
        ]
    }
}

pub open spec fn is_lower_hex(c: char) -> bool {
    ('0' <= c && c <= '9') || ('a' <= c && c <= 'f')
}

/// Lowercase hexadecimal text is made of `0`-`9` and `a`-`f`, two per byte.
pub proof fn lemma_hex_lower_chars(b: Seq<u8>)
    ensures
        hex_lower_spec(b).len() == 2 * b.len(),
        forall|i: int| 0 <= i < hex_lower_spec(b).len() ==> is_lower_hex(#[trigger] hex_lower_spec(b)[i]),
    decreases b.len(),
{
    if b.len() > 0 {
        lemma_hex_lower_chars(b.drop_last());
        let p = hex_lower_spec(b.drop_last());
        let hi = (b.last() / 16) as nat;
        let lo = (b.last() % 16) as nat;
        let h = hex_lower_spec(b);
        assert(h == p + seq![hex_digit(hi), hex_digit(lo)]);
        assert forall|i: int| 0 <= i < h.len() implies is_lower_hex(#[trigger] h[i]) by {
            if i < p.len() {
                assert(h[i] == p[i]);
            } else if i == p.len() {
                assert(h[i] == hex_digit(hi));
            } else {
                assert(h[i] == hex_digit(lo));
            }
        }
    }
}

fn hex_digit_exec(d: u8) -> (c: char)
    requires
        d < 16,
    ensures
        c == hex_digit(d as nat),
{
    if d < 10 {
        (d + 48) as char
    } else {
        (d + 87) as char
    }
}

/// Lowercase hexadecimal text of a byte sequence.
pub fn hex_lower(b: &[u8]) -> (r: Vec<char>)
    ensures
        r@ == hex_lower_spec(b@),
{
    let mut r: Vec<char> = Vec::new();
    let mut k: usize = 0;
    while k < b.len()
        invariant
            k <= b.len(),
            r@ == hex_lower_spec(b@.take(k as int)),
        decreases b.len() - k,
    {
        let x = b[k];
        r.push(hex_digit_exec(x / 16));
        r.push(hex_digit_exec(x % 16));
        assert(b@.take(k as int + 1).drop_last() == b@.take(k as int));
        k = k + 1;
    }
    assert(b@.take(b@.len() as int) == b@);
    r
}


// ---------------------------------------------------------------------------
// Searching and splitting
// ---------------------------------------------------------------------------

/// Index of the first occurrence of `c` (`str::find` on a character).
pub open spec fn find_char(s: Seq<char>, c: char) -> Option<int>
    decreases s.len(),
{
    if s.len() == 0 {
        None
    } else if s[0] == c {
        Some(0)
    } else {
        match find_char(s.drop_first(), c) {
            Some(i) => Some(i + 1),
            None => None,
        }
    }
}

/// Index of the last occurrence of `c` (`str::rfind` on a character).
pub open spec fn rfind_char(s: Seq<char>, c: char) -> Option<int>
    decreases s.len(),
{
    if s.len() == 0 {
        None
    } else if s.last() == c {
        Some(s.len() - 1)
    } else {
        rfind_char(s.drop_last(), c)
    }
}

pub proof fn lemma_find_char(s: Seq<char>, c: char)
    ensures
        match find_char(s, c) {
            Some(i) => 0 <= i < s.len() && s[i] == c && forall|k: int|
                0 <= k < i ==> s[k] != c,
            None => forall|k: int| 0 <= k < s.len() ==> s[k] != c,
        },
    decreases s.len(),
{
    if s.len() > 0 && s[0] != c {
        lemma_find_char(s.drop_first(), c);
        match find_char(s.drop_first(), c) {
            Some(i) => {
                assert forall|k: int| 0 <= k < i + 1 implies s[k] != c by {
                    if k > 0 {
                        assert(s[k] == s.drop_first()[k - 1]);
                    }
                }
            },
            None => {
                assert forall|k: int| 0 <= k < s.len() implies s[k] != c by {
                    if k > 0 {
                        assert(s[k] == s.drop_first()[k - 1]);
                    }
                }
            },
        }
    }
}

/// A first occurrence is determined by the characters before it.
pub proof fn lemma_find_char_unique(s: Seq<char>, c: char, i: int)
    requires
        0 <= i <= s.len(),
        forall|k: int| 0 <= k < i ==> s[k] != c,
        i < s.len() ==> s[i] == c,
    ensures
        find_char(s, c) == (if i < s.len() {
            Some(i)
        } else {
            None::<int>
        }),
{
    lemma_find_char(s, c);
}

pub proof fn lemma_rfind_char(s: Seq<char>, c: char)
    ensures
        match rfind_char(s, c) {
            Some(i) => 0 <= i < s.len() && s[i] == c && forall|k: int|
                i < k < s.len() ==> s[k] != c,
            None => forall|k: int| 0 <= k < s.len() ==> s[k] != c,
        },
    decreases s.len(),
{
    if s.len() > 0 && s.last() != c {
        let d = s.drop_last();
        lemma_rfind_char(d, c);
        assert forall|k: int| 0 <= k < s.len() - 1 implies s[k] == #[trigger] d[k] by {}
        assert(s[s.len() - 1] != c);
        match rfind_char(d, c) {
            Some(i) => {
                assert forall|k: int| i < k < s.len() implies s[k] != c by {
                    if k < s.len() - 1 {
                        assert(s[k] == d[k]);
                    }
                }
            },
            None => {
                assert forall|k: int| 0 <= k < s.len() implies s[k] != c by {
                    if k < s.len() - 1 {
                        assert(s[k] == d[k]);
                    }
                }
            },
        }
    }
}

pub proof fn lemma_rfind_char_unique(s: Seq<char>, c: char, i: int)
    requires
        -1 <= i < s.len(),
        forall|k: int| i < k < s.len() ==> s[k] != c,
        i >= 0 ==> s[i] == c,
    ensures
        rfind_char(s, c) == (if i >= 0 {
            Some(i)
        } else {
            None::<int>
        }),
{
    lemma_rfind_char(s, c);
}

/// Index of the first occurrence of `c` in `v`.
pub fn find_char_exec(v: &[char], c: char) -> (r: Option<usize>)
    ensures
        match r {
            Some(i) => i < v.len() && find_char(v@, c) == Some(i as int),
            None => find_char(v@, c) is None,
        },
{
    let mut i: usize = 0;
    while i < v.len()
        invariant
            i <= v.len(),
            forall|k: int| 0 <= k < i ==> v@[k] != c,
        decreases v.len() - i,
    {
        if v[i] == c {
            proof {
                lemma_find_char_unique(v@, c, i as int);
            }
            return Some(i);
        }
        i = i + 1;
    }
    proof {
        lemma_find_char_unique(v@, c, i as int);
    }
    None
}

/// Index of the last occurrence of `c` in `v`.
pub fn rfind_char_exec(v: &[char], c: char) -> (r: Option<usize>)
    ensures
        match r {
            Some(i) => i < v.len() && rfind_char(v@, c) == Some(i as int),
            None => rfind_char(v@, c) is None,
        },
{
    let mut i: usize = v.len();
    while i > 0
        invariant
            i <= v.len(),
            forall|k: int| i <= k < v.len() ==> v@[k] != c,
        decreases i,
    {
        if v[i - 1] == c {
            proof {
                lemma_rfind_char_unique(v@, c, i - 1);
            }
            return Some(i - 1);
        }
        i = i - 1;
    }
    proof {
        lemma_rfind_char_unique(v@, c, -1);
    }
    None
}

/// The part before the first `c`, or all of `s` (`s.split(c).next()`).
pub open spec fn before_char(s: Seq<char>, c: char) -> Seq<char> {
    match find_char(s, c) {
        Some(i) => s.take(i),
        None => s,
    }
}

/// `str::split_once` on a character.
pub open spec fn split_once_spec(s: Seq<char>, c: char) -> Option<(Seq<char>, Seq<char>)> {
    match find_char(s, c) {
        Some(i) => Some((s.take(i), s.skip(i + 1))),
        None => None,
    }
}

/// `str::rsplit_once` on a character.
pub open spec fn rsplit_once_spec(s: Seq<char>, c: char) -> Option<(Seq<char>, Seq<char>)> {
    match rfind_char(s, c) {
        Some(i) => Some((s.take(i), s.skip(i + 1))),
        None => None,
    }
}

/// `str::split` on a character: the pieces between occurrences of `c`.
pub open spec fn split_spec(s: Seq<char>, c: char) -> Seq<Seq<char>>
    decreases s.len(),
{
    match find_char(s, c) {
        Some(i) => {
            proof {
                lemma_find_char(s, c);
            }
            if 0 <= i < s.len() {
                seq![s.take(i)] + split_spec(s.skip(i + 1), c)
            } else {
                seq![s]
            }
        },
        None => seq![s],
    }
}

pub fn before_char_exec(v: &[char], c: char) -> (r: Vec<char>)
    ensures
        r@ == before_char(v@, c),
{
    proof {
        lemma_find_char(v@, c);
    }
    match find_char_exec(v, c) {
        Some(i) => slice_range(v, 0, i),
        None => slice_range(v, 0, v.len()),
    }
}

pub fn split_once_exec(v: &[char], c: char) -> (r: Option<(Vec<char>, Vec<char>)>)
    ensures
        match r {
            Some(p) => split_once_spec(v@, c) == Some((p.0@, p.1@)),
            None => split_once_spec(v@, c) is None,
        },
{
    proof {
        lemma_find_char(v@, c);
    }
    match find_char_exec(v, c) {
        Some(i) => Some((slice_range(v, 0, i), slice_range(v, i + 1, v.len()))),
        None => None,
    }
}

pub fn rsplit_once_exec(v: &[char], c: char) -> (r: Option<(Vec<char>, Vec<char>)>)
    ensures
        match r {
            Some(p) => rsplit_once_spec(v@, c) == Some((p.0@, p.1@)),
            None => rsplit_once_spec(v@, c) is None,
        },
{
    proof {
        lemma_rfind_char(v@, c);
    }
    match rfind_char_exec(v, c) {
        Some(i) => Some((slice_range(v, 0, i), slice_range(v, i + 1, v.len()))),
        None => None,
    }
}

/// The pieces of `v` between occurrences of `c`.
pub fn split_exec(v: &[char], c: char) -> (r: Vec<Vec<char>>)
    ensures
        r@.len() == split_spec(v@, c).len(),
        forall|i: int| 0 <= i < r@.len() ==> (#[trigger] r@[i])@ == split_spec(v@, c)[i],
{
    let mut out: Vec<Vec<char>> = Vec::new();
    let mut start: usize = 0;
    let ghost acc: Seq<Seq<char>> = Seq::empty();
    assert(v@.skip(0) == v@);
    assert(acc + split_spec(v@, c) == split_spec(v@, c));
    loop
        invariant
            start <= v@.len(),
            out@.len() == acc.len(),
            forall|i: int| 0 <= i < out@.len() ==> (#[trigger] out@[i])@ == acc[i],
            acc + split_spec(v@.skip(start as int), c) == split_spec(v@, c),
        decreases v@.len() - start,
    {
        let rest = slice_range(v, start, v.len());
        assert(rest@ == v@.skip(start as int));
        proof {
            lemma_find_char(rest@, c);
        }
        match find_char_exec(&rest, c) {
            Some(i) => {
                let piece = slice_range(&rest, 0, i);
                proof {
                    assert(rest@.skip(i + 1) == v@.skip(start + i + 1));
                    assert(split_spec(rest@, c) == seq![rest@.take(i as int)] + split_spec(
                        rest@.skip(i + 1),
                        c,
                    ));
                    assert(acc.push(piece@) + split_spec(v@.skip(start + i + 1), c) == acc
                        + split_spec(rest@, c));
                    acc = acc.push(piece@);
                }
                out.push(piece);
                start = start + i + 1;
            },
            None => {
                proof {
                    assert(split_spec(rest@, c) == seq![rest@]);
                    acc = acc.push(rest@);
                }
                out.push(rest);
                assert(acc == split_spec(v@, c));
                return out;
            },
        }
    }
}

/// `a.eq_ignore_ascii_case(b)`.
pub open spec fn eq_ignore_case_spec(a: Seq<char>, b: Seq<char>) -> bool {
    lower_spec(a) == lower_spec(b)
}

pub fn eq_ignore_ascii_case(a: &[char], b: &[char]) -> (r: bool)
    ensures
        r == eq_ignore_case_spec(a@, b@),
{
    if a.len() != b.len() {
        assert(lower_spec(a@).len() != lower_spec(b@).len());
        return false;
    }
    let mut i: usize = 0;
    while i < a.len()
        invariant
            i <= a.len() == b.len(),
            forall|k: int| 0 <= k < i ==> ascii_lower(a@[k]) == ascii_lower(b@[k]),
        decreases a.len() - i,
    {
        if to_ascii_lower_char(a[i]) != to_ascii_lower_char(b[i]) {
            assert(lower_spec(a@)[i as int] != lower_spec(b@)[i as int]);
            return false;
        }
        i = i + 1;
    }
    assert(lower_spec(a@) =~= lower_spec(b@));
    true
}

pub fn seq_eq(a: &[char], b: &[char]) -> (r: bool)
    ensures
        r == (a@ == b@),
{
    if a.len() != b.len() {
        return false;
    }
    let mut i: usize = 0;
    while i < a.len()
        invariant
            i <= a.len() == b.len(),
            forall|k: int| 0 <= k < i ==> a@[k] == b@[k],
        decreases a.len() - i,
    {
        if a[i] != b[i] {
            return false;
        }
        i = i + 1;
    }
    assert(a@ =~= b@);
    true
}

/// `hay` holds `needle` as a contiguous part.
pub open spec fn contains_sub_spec(hay: Seq<char>, needle: Seq<char>) -> bool {
    exists|i: int|
        0 <= i && i + needle.len() <= hay.len() && #[trigger] hay.subrange(i, i + needle.len())
            == needle
}

fn matches_at(hay: &[char], needle: &[char], i: usize) -> (r: bool)
    requires
        i + needle.len() <= hay.len(),
    ensures
        r == (hay@.subrange(i as int, i + needle@.len()) == needle@),
{
    let mut k: usize = 0;
    let n = needle.len();
    while k < n
        invariant
            k <= n,
            n == needle.len(),
            i + n <= hay.len(),
            forall|j: int| 0 <= j < k ==> hay@[i + j] == needle@[j],
        decreases n - k,
    {
        if hay[i + k] != needle[k] {
            assert(hay@.subrange(i as int, i + needle@.len())[k as int] != needle@[k as int]);
            return false;
        }
        k = k + 1;
    }
    assert(hay@.subrange(i as int, i + needle@.len()) =~= needle@);
    true
}

/// `str::contains` with a string pattern.
pub fn contains_sub(hay: &[char], needle: &[char]) -> (r: bool)
    ensures
        r == contains_sub_spec(hay@, needle@),
{
    if needle.len() > hay.len() {
        return false;
    }
    if needle.len() == 0 {
        assert(hay@.subrange(0int, 0int + needle@.len()) =~= needle@);
        return true;
    }
    let mut i: usize = 0;
    while i <= hay.len() - needle.len()
        invariant
            1 <= needle.len() <= hay.len(),
            i <= hay.len() - needle.len() + 1,
            forall|j: int|
                0 <= j < i ==> #[trigger] hay@.subrange(j, j + needle@.len()) != needle@,
        decreases hay.len() + 1 - i,
    {
        if matches_at(hay, needle, i) {
            return true;
        }
        i = i + 1;
    }
    false
}

/// `s.starts_with(p)`.
pub open spec fn starts_with_spec(s: Seq<char>, p: Seq<char>) -> bool {
    p.len() <= s.len() && s.take(p.len() as int) == p
}

/// `s.ends_with(p)`.
pub open spec fn ends_with_spec(s: Seq<char>, p: Seq<char>) -> bool {
    p.len() <= s.len() && s.skip(s.len() - p.len()) == p
}

pub fn starts_with(s: &[char], p: &[char]) -> (r: bool)
    ensures
        r == starts_with_spec(s@, p@),
{
    if p.len() > s.len() {
        return false;
    }
    let r = matches_at(s, p, 0);
    assert(s@.subrange(0, p@.len() as int) == s@.take(p@.len() as int));
    r
}

pub fn ends_with(s: &[char], p: &[char]) -> (r: bool)
    ensures
        r == ends_with_spec(s@, p@),
{
    if p.len() > s.len() {
        return false;
    }
    let r = matches_at(s, p, s.len() - p.len());
    assert(s@.subrange(s@.len() - p@.len(), s@.len() as int) == s@.skip(
        s@.len() - p@.len(),
    ));
    r
}


// ---------------------------------------------------------------------------
// Lists of pieces
// ---------------------------------------------------------------------------

/// The character sequences held by a list of character vectors.
pub open spec fn views(v: Seq<Vec<char>>) -> Seq<Seq<char>> {
    Seq::new(v.len(), |i: int| v[i]@)
}

/// The trimmed pieces that are not empty, in order
/// (`.map(str::trim).filter(|v| !v.is_empty())`).
pub open spec fn nonempty_trimmed(parts: Seq<Seq<char>>) -> Seq<Seq<char>>
    decreases parts.len(),
{
    if parts.len() == 0 {
        Seq::empty()
    } else {
        let rest = nonempty_trimmed(parts.drop_last());
        let t = trim_spec(parts.last());
        if t.len() > 0 {
            rest.push(t)
        } else {
            rest
        }
    }
}

/// `s.split(c).map(str::trim).filter(|v| !v.is_empty())`.
pub open spec fn split_trimmed(s: Seq<char>, c: char) -> Seq<Seq<char>> {
    nonempty_trimmed(split_spec(s, c))
}

pub fn split_trimmed_exec(v: &[char], c: char) -> (r: Vec<Vec<char>>)
    ensures
        views(r@) == split_trimmed(v@, c),
{
    let parts = split_exec(v, c);
    let ghost ps = split_spec(v@, c);
    let mut out: Vec<Vec<char>> = Vec::new();
    let mut i: usize = 0;
    while i < parts.len()
        invariant
            i <= parts@.len(),
            parts@.len() == ps.len(),
            forall|j: int| 0 <= j < parts@.len() ==> (#[trigger] parts@[j])@ == ps[j],
            views(out@) == nonempty_trimmed(ps.take(i as int)),
        decreases parts.len() - i,
    {
        let t = trim(&parts[i]);
        assert(ps.take(i as int + 1).drop_last() == ps.take(i as int));
        assert(ps.take(i as int + 1).last() == ps[i as int]);
        if t.len() > 0 {
            out.push(t);
            assert(views(out@) =~= nonempty_trimmed(ps.take(i as int)).push(t@));
        }
        i = i + 1;
    }
    assert(ps.take(ps.len() as int) == ps);
    out
}

/// Whether a list holds a given character sequence.
pub fn list_contains(list: &Vec<Vec<char>>, x: &[char]) -> (r: bool)
    ensures
        r == views(list@).contains(x@),
{
    let mut i: usize = 0;
    while i < list.len()
        invariant
            i <= list@.len(),
            forall|j: int| 0 <= j < i ==> list@[j]@ != x@,
        decreases list.len() - i,
    {
        if seq_eq(&list[i], x) {
            assert(views(list@)[i as int] == x@);
            return true;
        }
        i = i + 1;
    }
    assert forall|j: int| 0 <= j < views(list@).len() implies views(list@)[j] != x@ by {}
    false
}

/// A literal's characters, as a vector.
pub fn lit(s: &str) -> (v: Vec<char>)
    ensures
        v@ == s@,
{
    chars_of(s)
}

/// `str::replace`: every occurrence of `from`, found left to right without
/// overlap, replaced by `to`.
pub open spec fn replace_spec(s: Seq<char>, from: Seq<char>, to: Seq<char>) -> Seq<char>
    decreases s.len(),
{
    if s.len() == 0 {
        Seq::empty()
    } else if from.len() > 0 && starts_with_spec(s, from) {
        to + replace_spec(s.skip(from.len() as int), from, to)
    } else {
        seq![s[0]] + replace_spec(s.drop_first(), from, to)
    }
}

pub fn replace_all(s: &[char], from: &[char], to: &[char]) -> (r: Vec<char>)
    requires
        from@.len() > 0,
    ensures
        r@ == replace_spec(s@, from@, to@),
{
    let mut out: Vec<char> = Vec::new();
    let mut i: usize = 0;
    assert(s@.skip(0) == s@);
    while i < s.len()
        invariant
            i <= s@.len(),
            from@.len() > 0,
            out@ + replace_spec(s@.skip(i as int), from@, to@) == replace_spec(s@, from@, to@),
        decreases s.len() - i,
    {
        let ghost rest = s@.skip(i as int);
        let hit = from.len() <= s.len() - i && matches_at(s, from, i);
        assert(hit == starts_with_spec(rest, from@)) by {
            if i + from.len() <= s.len() {
                assert(rest.take(from@.len() as int) == s@.subrange(i as int, i + from@.len()));
            }
        }
        let ghost prev = out@;
        if hit {
            let mut k: usize = 0;
            while k < to.len()
                invariant
                    k <= to@.len(),
                    out@ == prev + to@.take(k as int),
                decreases to.len() - k,
            {
                out.push(to[k]);
                assert(to@.take(k as int + 1) == to@.take(k as int).push(to@[k as int]));
                assert(prev + to@.take(k as int + 1) == (prev + to@.take(k as int)).push(to@[k as int]));
                k = k + 1;
            }
            assert(to@.take(k as int) == to@);
            assert(rest.skip(from@.len() as int) == s@.skip(i + from@.len()));
            assert(out@ + replace_spec(s@.skip(i + from@.len()), from@, to@) =~= prev + (to@
                + replace_spec(rest.skip(from@.len() as int), from@, to@)));
            i = i + from.len();
        } else {
            out.push(s[i]);
            assert(rest[0] == s@[i as int]);
            assert(rest.drop_first() == s@.skip(i + 1));
            assert(out@ + replace_spec(s@.skip(i + 1), from@, to@) =~= prev + (seq![s@[i as int]]
                + replace_spec(rest.drop_first(), from@, to@)));
            i = i + 1;
        }
    }
    assert(s@.skip(i as int).len() == 0);
    assert(out@ + Seq::<char>::empty() == out@);
    out
}

/// Whether `s` spells the text `l`.
pub fn is_lit(s: &[char], l: &str) -> (r: bool)
    ensures
        r == (s@ == l@),
{
    seq_eq(s, &lit(l))
}

/// Whether `c` occurs in `s`.
pub fn contains_char(s: &[char], c: char) -> (r: bool)
    ensures
        r == s@.contains(c),
{
    let mut i: usize = 0;
    while i < s.len()
        invariant
            i <= s@.len(),
            forall|k: int| 0 <= k < i ==> s@[k] != c,
        decreases s.len() - i,
    {
        if s[i] == c {
            return true;
        }
        i = i + 1;
    }
    false
}

/// Concatenation of two character slices.
pub fn concat(a: &[char], b: &[char]) -> (r: Vec<char>)
    ensures
        r@ == a@ + b@,
{
    let mut r = slice_range(a, 0, a.len());
    let mut i: usize = 0;
    assert(a@.subrange(0, a@.len() as int) == a@);
    while i < b.len()
        invariant
            i <= b@.len(),
            r@ == a@ + b@.take(i as int),
        decreases b.len() - i,
    {
        r.push(b[i]);
        assert(b@.take(i as int + 1) == b@.take(i as int).push(b@[i as int]));
        assert(a@ + b@.take(i as int + 1) == (a@ + b@.take(i as int)).push(b@[i as int]));
        i = i + 1;
    }
    assert(b@.take(b@.len() as int) == b@);
    r
}

} // verus!
