//! Text helpers: the characters of a string slice, UTF-16 encoding with a
//! terminating NUL, whitespace trimming and substring search over characters.

use vstd::prelude::*;

verus! {

broadcast use vstd::string::group_string_axioms;

/// The characters of `s`, in order.
pub fn chars_of(s: &str) -> (res: Vec<char>)
    ensures
        res@ == s@,
{
    let mut out: Vec<char> = Vec::new();
    for c in it: s.chars()
        invariant
            out@ == it.seq().take(it.index() as int),
    {
        out.push(c);
    }
    out
}

/// The UTF-16 code units of one character: one unit below U+10000, else a
/// high and a low surrogate.
pub open spec fn utf16_units(c: char) -> Seq<u16> {
    let v = c as u32;
    if v < 0x1_0000 {
        seq![v as u16]
    } else {
        let u = v - 0x1_0000;
        seq![(0xD800 + u / 0x400) as u16, (0xDC00 + u % 0x400) as u16]
    }
}

/// The UTF-16 encoding of a character sequence.
pub open spec fn utf16_encode(s: Seq<char>) -> Seq<u16>
    decreases s.len(),
{
    if s.len() == 0 {
        Seq::empty()
    } else {
        utf16_encode(s.drop_last()) + utf16_units(s.last())
    }
}

/// The UTF-16 encoding of `s` followed by a terminating NUL unit.
pub open spec fn wide_units(s: Seq<char>) -> Seq<u16> {
    utf16_encode(s).push(0u16)
}

/// Appends the UTF-16 units of `c` to `out`.
fn push_utf16(out: &mut Vec<u16>, c: char)
    ensures
        final(out)@ == old(out)@ + utf16_units(c),
{
    proof {
        vstd::utf8::char_is_scalar(c);
    }
    let v = c as u32;
    if v < 0x1_0000 {
        out.push(v as u16);
    } else {
        let u = v - 0x1_0000;
        out.push((0xD800 + u / 0x400) as u16);
        out.push((0xDC00 + u % 0x400) as u16);
    }
    assert(final(out)@ =~= old(out)@ + utf16_units(c));
}

/// The null-terminated UTF-16 form of `s`, as the wide-string Win32 calls take it.
pub fn wide(s: &str) -> (res: Vec<u16>)
    ensures
        res@ == wide_units(s@),
{
    let chars = chars_of(s);
    let mut out: Vec<u16> = Vec::new();
    let mut i: usize = 0;
    while i < chars.len()
        invariant
            i <= chars.len(),
            out@ == utf16_encode(chars@.take(i as int)),
        decreases chars.len() - i,
    {
        assert(chars@.take(i + 1).drop_last() =~= chars@.take(i as int));
        push_utf16(&mut out, chars[i]);
        i = i + 1;
    }
    assert(chars@.take(chars.len() as int) =~= chars@);
    out.push(0u16);
    out
}

/// Unicode `White_Space`, the property that `char::is_whitespace` and
/// `str::trim_start` go by.
pub open spec fn is_white_space(c: char) -> bool {
    let v = c as u32;
    ||| 0x09 <= v <= 0x0D
    ||| v == 0x20
    ||| v == 0x85
    ||| v == 0xA0
    ||| v == 0x1680
    ||| 0x2000 <= v <= 0x200A
    ||| v == 0x2028
    ||| v == 0x2029
    ||| v == 0x202F
    ||| v == 0x205F
    ||| v == 0x3000
}

pub fn is_white_space_char(c: char) -> (b: bool)
    ensures
        b == is_white_space(c),
{
    let v = c as u32;
    (0x09 <= v && v <= 0x0D) || v == 0x20 || v == 0x85 || v == 0xA0 || v == 0x1680 || (0x2000
        <= v && v <= 0x200A) || v == 0x2028 || v == 0x2029 || v == 0x202F || v == 0x205F || v
        == 0x3000
}

/// The first position at or after `k` that does not hold white space (the
/// length of `s` when only white space follows).
pub open spec fn skip_ws_from(s: Seq<char>, k: int) -> int
    decreases s.len() - k,
{
    if 0 <= k < s.len() && is_white_space(s[k]) {
        skip_ws_from(s, k + 1)
    } else {
        k
    }
}

/// `pat` stands in `s` at position `i`.
pub open spec fn occurs_at(s: Seq<char>, pat: Seq<char>, i: int) -> bool {
    0 <= i && i + pat.len() <= s.len() && s.subrange(i, i + pat.len()) == pat
}

/// The first position at or after `k` where `pat` stands in `s`.
pub open spec fn find_from(s: Seq<char>, pat: Seq<char>, k: int) -> Option<int>
    decreases s.len() + 1 - k,
{
    if k < 0 || k + pat.len() > s.len() {
        None
    } else if occurs_at(s, pat, k) {
        Some(k)
    } else {
        find_from(s, pat, k + 1)
    }
}

/// `find_from` finds the first occurrence at or after `k`, and finds none
/// only where there is none.
pub proof fn lemma_find_from_is_first(s: Seq<char>, pat: Seq<char>, k: int)
    requires
        0 <= k,
    ensures
        find_from(s, pat, k) matches Some(i) ==> k <= i && occurs_at(s, pat, i) && forall|j: int|
            k <= j < i ==> !occurs_at(s, pat, j),
        find_from(s, pat, k) is None ==> forall|j: int| k <= j ==> !occurs_at(s, pat, j),
    decreases s.len() + 1 - k,
{
    if k + pat.len() <= s.len() && !occurs_at(s, pat, k) {
        lemma_find_from_is_first(s, pat, k + 1);
    }
}

/// An occurrence with none before it, from `k` on, is what `find_from`
/// finds.
pub proof fn lemma_find_from_finds_first(s: Seq<char>, pat: Seq<char>, k: int, i: int)
    requires
        0 <= k <= i,
        occurs_at(s, pat, i),
        forall|j: int| k <= j < i ==> !occurs_at(s, pat, j),
    ensures
        find_from(s, pat, k) == Some(i),
{
    lemma_find_from_is_first(s, pat, k);
}

/// Lexicographic order of character sequences by code point, which is the
/// order of `str` comparison (byte-wise on UTF-8 preserves code-point order).
pub open spec fn lex_greater(a: Seq<char>, b: Seq<char>) -> bool
    decreases a.len(),
{
    if a.len() == 0 {
        false
    } else if b.len() == 0 {
        true
    } else if a[0] != b[0] {
        (a[0] as u32) > (b[0] as u32)
    } else {
        lex_greater(a.drop_first(), b.drop_first())
    }
}

/// `lex_greater` is the dictionary order of code points: `a` comes after `b`
/// exactly when, after a common beginning of length `k`, either `b` ends and
/// `a` goes on, or both go on and `a`'s next character is the greater one.
pub proof fn lemma_lex_greater_is_dictionary_order(a: Seq<char>, b: Seq<char>)
    ensures
        lex_greater(a, b) <==> exists|k: int|
            0 <= k <= a.len() && k <= b.len() && #[trigger] a.take(k) == b.take(k) && ((k
                == b.len() && k < a.len()) || (k < a.len() && k < b.len() && (a[k] as u32) > (
            b[k] as u32))),
    decreases a.len(),
{
    if a.len() == 0 {
        if exists|k: int|
            0 <= k <= a.len() && k <= b.len() && #[trigger] a.take(k) == b.take(k) && ((k
                == b.len() && k < a.len()) || (k < a.len() && k < b.len() && (a[k] as u32) > (
            b[k] as u32))) {
        }
    } else if b.len() == 0 {
        assert(a.take(0) =~= b.take(0));
    } else if a[0] != b[0] {
        if (a[0] as u32) > (b[0] as u32) {
            assert(a.take(0) =~= b.take(0));
        } else {
            assert forall|k: int|
                0 <= k <= a.len() && k <= b.len() && #[trigger] a.take(k) == b.take(k) implies !((
            k == b.len() && k < a.len()) || (k < a.len() && k < b.len() && (a[k] as u32) > (
            b[k] as u32))) by {
                if k > 0 {
                    assert(a.take(k)[0] == b.take(k)[0]);
                }
            }
        }
    } else {
        let ta = a.drop_first();
        let tb = b.drop_first();
        lemma_lex_greater_is_dictionary_order(ta, tb);
        if lex_greater(ta, tb) {
            let k = choose|k: int|
                0 <= k <= ta.len() && k <= tb.len() && #[trigger] ta.take(k) == tb.take(k) && ((k
                    == tb.len() && k < ta.len()) || (k < ta.len() && k < tb.len() && (ta[k] as u32)
                    > (tb[k] as u32)));
            assert(a.take(k + 1) =~= b.take(k + 1)) by {
                assert forall|i: int| 0 <= i < k + 1 implies #[trigger] a.take(k + 1)[i] == b.take(k + 1)[i] by {
                    if i > 0 {
                        assert(ta.take(k)[i - 1] == tb.take(k)[i - 1]);
                    }
                }
            }
            assert(a[k + 1] == ta[k]);
        } else {
            assert forall|k: int|
                0 <= k <= a.len() && k <= b.len() && #[trigger] a.take(k) == b.take(k) implies !((
            k == b.len() && k < a.len()) || (k < a.len() && k < b.len() && (a[k] as u32) > (
            b[k] as u32))) by {
                if k > 0 {
                    assert(ta.take(k - 1) =~= tb.take(k - 1)) by {
                        assert forall|i: int| 0 <= i < k - 1 implies #[trigger] ta.take(k - 1)[i]
                            == tb.take(k - 1)[i] by {
                            assert(a.take(k)[i + 1] == b.take(k)[i + 1]);
                        }
                    }
                    if (k == b.len() && k < a.len()) || (k < a.len() && k < b.len() && (a[k] as u32)
                        > (b[k] as u32)) {
                        assert(ta[k - 1] == a[k]);
                        assert(k - 1 < tb.len() ==> tb[k - 1] == b[k]);
                    }
                }
            }
        }
    }
}

/// `skip_ws_from` stops at the first character that is not white space:
/// everything it skips is white space, and it stops at the end or at a
/// character that is not.
pub proof fn lemma_skip_ws_from_stops_at_text(s: Seq<char>, k: int)
    requires
        0 <= k <= s.len(),
    ensures
        k <= skip_ws_from(s, k) <= s.len(),
        forall|j: int| k <= j < skip_ws_from(s, k) ==> is_white_space(#[trigger] s[j]),
        skip_ws_from(s, k) == s.len() || !is_white_space(s[skip_ws_from(s, k)]),
    decreases s.len() - k,
{
    if k < s.len() && is_white_space(s[k]) {
        lemma_skip_ws_from_stops_at_text(s, k + 1);
    }
}

/// When two sequences already differ within their first `n` characters,
/// those characters decide their order.
pub proof fn lemma_lex_decided_by_prefix(a: Seq<char>, b: Seq<char>, n: nat)
    requires
        a.len() >= n,
        b.len() >= n,
        a.take(n as int) != b.take(n as int),
    ensures
        lex_greater(a, b) == lex_greater(a.take(n as int), b.take(n as int)),
    decreases n,
{
    if n == 0 {
        assert(a.take(0) =~= b.take(0));
    } else if a[0] == b[0] {
        let m = (n - 1) as nat;
        assert(a.take(n as int).drop_first() =~= a.drop_first().take(m as int));
        assert(b.take(n as int).drop_first() =~= b.drop_first().take(m as int));
        if a.drop_first().take(m as int) == b.drop_first().take(m as int) {
            assert(a.take(n as int) =~= b.take(n as int)) by {
                assert forall|i: int| 0 <= i < n implies a.take(n as int)[i] == b.take(
                    n as int,
                )[i] by {
                    if i > 0 {
                        assert(a.take(n as int)[i] == a.drop_first().take(m as int)[i - 1]);
                        assert(b.take(n as int)[i] == b.drop_first().take(m as int)[i - 1]);
                    }
                }
            }
        }
        lemma_lex_decided_by_prefix(a.drop_first(), b.drop_first(), m);
        assert(a.take(n as int)[0] == a[0]);
        assert(b.take(n as int)[0] == b[0]);
    } else {
        assert(a.take(n as int)[0] == a[0]);
        assert(b.take(n as int)[0] == b[0]);
    }
}

/// The first position at or after `from` that does not hold white space.
pub fn skip_white_space(s: &Vec<char>, from: usize) -> (k: usize)
    requires
        from <= s.len(),
    ensures
        k as int == skip_ws_from(s@, from as int),
        from <= k <= s.len(),
{
    let mut k = from;
    while k < s.len() && is_white_space_char(s[k])
        invariant
            from <= k <= s.len(),
            skip_ws_from(s@, from as int) == skip_ws_from(s@, k as int),
        decreases s.len() - k,
    {
        k = k + 1;
    }
    k
}

/// Whether `pat` stands in `s` at position `at`.
fn matches_at(s: &Vec<char>, pat: &Vec<char>, at: usize) -> (b: bool)
    requires
        at + pat.len() <= s.len(),
    ensures
        b == occurs_at(s@, pat@, at as int),
{
    let mut j: usize = 0;
    while j < pat.len()
        invariant
            j <= pat.len(),
            at + pat.len() <= s.len(),
            forall|t: int| 0 <= t < j ==> s@[at + t] == pat@[t],
        decreases pat.len() - j,
    {
        if s[at + j] != pat[j] {
            assert(s@.subrange(at as int, at + pat.len())[j as int] != pat@[j as int]);
            return false;
        }
        j = j + 1;
    }
    assert(s@.subrange(at as int, at + pat.len()) =~= pat@);
    true
}

/// The first position at or after `from` where `pat` stands in `s`.
pub fn find_chars(s: &Vec<char>, pat: &Vec<char>, from: usize) -> (r: Option<usize>)
    requires
        from <= s.len(),
    ensures
        match r {
            Some(i) => find_from(s@, pat@, from as int) == Some(i as int),
            None => find_from(s@, pat@, from as int) is None,
        },
{
    let mut k = from;
    while pat.len() <= s.len() - k
        invariant
            from <= k <= s.len(),
            find_from(s@, pat@, from as int) == find_from(s@, pat@, k as int),
        decreases s.len() - k,
    {
        if matches_at(s, pat, k) {
            return Some(k);
        }
        if k == s.len() {
            assert(find_from(s@, pat@, k + 1) is None);
            return None;
        }
        k = k + 1;
    }
    None
}

/// Whether `a[a_from..]` comes after `b` in lexicographic code-point order.
pub fn lex_greater_from(a: &Vec<char>, a_from: usize, b: &Vec<char>) -> (r: bool)
    requires
        a_from <= a.len(),
    ensures
        r == lex_greater(a@.skip(a_from as int), b@),
{
    let mut i: usize = 0;
    assert(b@.skip(0) =~= b@);
    assert(a@.skip(a_from + 0) =~= a@.skip(a_from as int));
    while i < b.len() && a_from + i < a.len() && a[a_from + i] == b[i]
        invariant
            a_from + i <= a.len(),
            i <= b.len(),
            lex_greater(a@.skip(a_from as int), b@) == lex_greater(
                a@.skip(a_from + i),
                b@.skip(i as int),
            ),
        decreases b.len() - i,
    {
        assert(a@.skip(a_from + i).drop_first() =~= a@.skip(a_from + i + 1));
        assert(b@.skip(i as int).drop_first() =~= b@.skip(i + 1));
        i = i + 1;
    }
    if a_from + i == a.len() {
        false
    } else if i == b.len() {
        true
    } else {
        (a[a_from + i] as u32) > (b[i] as u32)
    }
}

/// `c` is one of the digits 0 to 9.
pub open spec fn is_digit(c: char) -> bool {
    '0' <= c && c <= '9'
}

/// The value of the digit `c`.
pub open spec fn digit(c: char) -> int {
    c as u32 - '0' as u32
}

/// Every character of `s` is a digit.
pub open spec fn all_digits(s: Seq<char>) -> bool {
    forall|i: int| 0 <= i < s.len() ==> is_digit(#[trigger] s[i])
}

/// Ten to the power `n`.
pub open spec fn pow10(n: nat) -> int
    decreases n,
{
    if n == 0 {
        1
    } else {
        10 * pow10((n - 1) as nat)
    }
}

/// The number that the decimal digits `s` write (leading zeros allowed).
pub open spec fn digits_value(s: Seq<char>) -> int
    decreases s.len(),
{
    if s.len() == 0 {
        0
    } else {
        digit(s[0]) * pow10((s.len() - 1) as nat) + digits_value(s.drop_first())
    }
}

/// `digits_value` is decimal notation: no digits write 0, and appending a
/// digit multiplies by ten and adds that digit.
pub proof fn lemma_digits_value_is_decimal(s: Seq<char>, c: char)
    ensures
        digits_value(Seq::<char>::empty()) == 0,
        digits_value(s.push(c)) == 10 * digits_value(s) + digit(c),
    decreases s.len(),
{
    if s.len() == 0 {
        assert(s.push(c).drop_first() =~= Seq::<char>::empty());
    } else {
        let t = s.drop_first();
        lemma_digits_value_is_decimal(t, c);
        assert(s.push(c).drop_first() =~= t.push(c));
        assert(s.push(c)[0] == s[0]);
        let d = digit(s[0]);
        let p = pow10(t.len());
        assert(pow10(t.push(c).len()) == 10 * p);
        assert(d * (10 * p) + (10 * digits_value(t) + digit(c)) == 10 * (d * p + digits_value(t))
            + digit(c)) by (nonlinear_arith);
    }
}

/// `s` with zeros in front, to length `n`.
pub open spec fn pad_zeros(s: Seq<char>, n: nat) -> Seq<char> {
    Seq::new((n - s.len()) as nat, |i: int| '0') + s
}

proof fn lemma_pow10_positive(n: nat)
    ensures
        pow10(n) >= 1,
    decreases n,
{
    if n > 0 {
        lemma_pow10_positive((n - 1) as nat);
    }
}

proof fn lemma_digits_value_bounds(s: Seq<char>)
    requires
        all_digits(s),
    ensures
        0 <= digits_value(s) < pow10(s.len()),
    decreases s.len(),
{
    if s.len() > 0 {
        let t = s.drop_first();
        assert(all_digits(t)) by {
            assert forall|i: int| 0 <= i < t.len() implies is_digit(#[trigger] t[i]) by {
                assert(t[i] == s[i + 1]);
            }
        }
        lemma_digits_value_bounds(t);
        lemma_pow10_positive(t.len());
        let d = digit(s[0]);
        let p = pow10(t.len());
        assert(is_digit(s[0]));
        assert(0 <= d * p <= 9 * p) by (nonlinear_arith)
            requires
                0 <= d <= 9,
                p >= 1,
        ;
    }
}

proof fn lemma_pad_zeros_value(s: Seq<char>, n: nat)
    requires
        s.len() <= n,
    ensures
        digits_value(pad_zeros(s, n)) == digits_value(s),
        pad_zeros(s, n).len() == n,
    decreases n - s.len(),
{
    if n > s.len() {
        let q = pad_zeros(s, n);
        lemma_pad_zeros_value(s, (n - 1) as nat);
        assert(q.drop_first() =~= pad_zeros(s, (n - 1) as nat));
        assert(q[0] == '0');
    } else {
        assert(pad_zeros(s, n) =~= s);
    }
}

/// For digit strings of one length, string order is numeric order.
proof fn lemma_lex_is_numeric(a: Seq<char>, b: Seq<char>)
    requires
        a.len() == b.len(),
        all_digits(a),
        all_digits(b),
    ensures
        lex_greater(a, b) == (digits_value(a) > digits_value(b)),
    decreases a.len(),
{
    if a.len() > 0 {
        let ta = a.drop_first();
        let tb = b.drop_first();
        assert(all_digits(ta)) by {
            assert forall|i: int| 0 <= i < ta.len() implies is_digit(#[trigger] ta[i]) by {
                assert(ta[i] == a[i + 1]);
            }
        }
        assert(all_digits(tb)) by {
            assert forall|i: int| 0 <= i < tb.len() implies is_digit(#[trigger] tb[i]) by {
                assert(tb[i] == b[i + 1]);
            }
        }
        lemma_lex_is_numeric(ta, tb);
        lemma_digits_value_bounds(ta);
        lemma_digits_value_bounds(tb);
        assert(is_digit(a[0]) && is_digit(b[0]));
        let da = digit(a[0]);
        let db = digit(b[0]);
        let p = pow10(ta.len());
        let ra = digits_value(ta);
        let rb = digits_value(tb);
        lemma_pow10_positive(ta.len());
        if da > db {
            assert(da * p >= db * p + p) by (nonlinear_arith)
                requires
                    da >= db + 1,
                    p >= 1,
            ;
        } else if da < db {
            assert(db * p >= da * p + p) by (nonlinear_arith)
                requires
                    db >= da + 1,
                    p >= 1,
            ;
        } else {
            assert(a[0] == b[0]);
        }
    }
}

/// Copies the characters of `v` from position `from` on.
pub fn tail_from(v: &Vec<char>, from: usize) -> (r: Vec<char>)
    requires
        from <= v.len(),
    ensures
        r@ == v@.skip(from as int),
{
    let mut r: Vec<char> = Vec::new();
    let mut i = from;
    while i < v.len()
        invariant
            from <= i <= v.len(),
            r@ == v@.subrange(from as int, i as int),
        decreases v.len() - i,
    {
        r.push(v[i]);
        assert(v@.subrange(from as int, i + 1) =~= v@.subrange(from as int, i as int).push(
            v@[i as int],
        ));
        i = i + 1;
    }
    assert(v@.subrange(from as int, v.len() as int) =~= v@.skip(from as int));
    r
}

/// `s` with zeros in front, to length `n`.
fn padded(s: &Vec<char>, n: usize) -> (r: Vec<char>)
    requires
        s.len() <= n,
    ensures
        r@ == pad_zeros(s@, n as nat),
{
    let mut r: Vec<char> = Vec::new();
    let k = n - s.len();
    let mut i: usize = 0;
    while i < k
        invariant
            i <= k,
            k == n - s.len(),
            r@ == Seq::new(i as nat, |j: int| '0'),
        decreases k - i,
    {
        r.push('0');
        assert(r@ =~= Seq::new((i + 1) as nat, |j: int| '0'));
        i = i + 1;
    }
    let mut j: usize = 0;
    while j < s.len()
        invariant
            j <= s.len(),
            k == n - s.len(),
            r@ == Seq::new(k as nat, |t: int| '0') + s@.take(j as int),
        decreases s.len() - j,
    {
        r.push(s[j]);
        assert(s@.take(j + 1) =~= s@.take(j as int).push(s@[j as int]));
        assert(r@ =~= Seq::new(k as nat, |t: int| '0') + s@.take(j + 1));
        j = j + 1;
    }
    assert(s@.take(s.len() as int) =~= s@);
    r
}

/// Whether the number written by the digits `a` is greater than the one
/// written by `b`, whatever their lengths and leading zeros.
pub fn digits_greater(a: &Vec<char>, b: &Vec<char>) -> (r: bool)
    requires
        all_digits(a@),
        all_digits(b@),
    ensures
        r == (digits_value(a@) > digits_value(b@)),
{
    let n = if a.len() >= b.len() {
        a.len()
    } else {
        b.len()
    };
    let pa = padded(a, n);
    let pb = padded(b, n);
    proof {
        lemma_pad_zeros_value(a@, n as nat);
        lemma_pad_zeros_value(b@, n as nat);
        assert(all_digits(pa@)) by {
            assert forall|i: int| 0 <= i < pa@.len() implies is_digit(#[trigger] pa@[i]) by {
                if i >= n - a.len() {
                    assert(pa@[i] == a@[i - (n - a.len())]);
                }
            }
        }
        assert(all_digits(pb@)) by {
            assert forall|i: int| 0 <= i < pb@.len() implies is_digit(#[trigger] pb@[i]) by {
                if i >= n - b.len() {
                    assert(pb@[i] == b@[i - (n - b.len())]);
                }
            }
        }
        lemma_lex_is_numeric(pa@, pb@);
        assert(pa@.skip(0) =~= pa@);
    }
    lex_greater_from(&pa, 0, &pb)
}

} // verus!
