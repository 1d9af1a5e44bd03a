//! Decimal numbers as text, in a normal form.
//!
//! A field may hold a number in many spellings: `.5`, `+0,50`, `5e-1`. What is read
//! is one text for all of them, `0.5`: no plus sign, no exponent, no zero that could
//! be left out, a digit on both sides of a point. The digits are those that the
//! double nearest to the number is shown by, and no more. Which double that is,
//! serde_json says; of two numerals as near to it, the one further from zero is taken.
use vstd::prelude::*;
use vstd::slice::slice_subrange;
use vstd::string::*;
use crate::json::{is_short, json_value, parse_json, shape_of, shown_again, Json, JsonView};
use crate::text::{
    digit, from_chars, has_char, is_digit, is_space, lower_all, nat_of, opt, push_chars,
    replace_char, replaced_char, same_ignore_case, str_eq, to_chars, trim, trim_end, trim_start,
    trimmed,
};

verus! {

// ── The grammar ──────────────────────────────────────────────────────────

/// How many digits stand in a text from a position on.
pub open spec fn digits_from(s: Seq<char>, i: int) -> int
    decreases s.len() - i,
{
    if 0 <= i < s.len() && is_digit(s[i]) {
        1 + digits_from(s, i + 1)
    } else {
        0
    }
}

/// Where the digits of an exponent begin that begins at a position.
pub open spec fn exponent_digits(s: Seq<char>, i: int) -> int {
    if i + 1 < s.len() && (s[i + 1] == '+' || s[i + 1] == '-') {
        i + 2
    } else {
        i + 1
    }
}

/// Whether a text has an exponent, or nothing, from a position on.
pub open spec fn exponent_from(s: Seq<char>, i: int) -> bool {
    let at = exponent_digits(s, i);
    i == s.len() || (i < s.len() && (s[i] == 'e' || s[i] == 'E') && digits_from(s, at) > 0 && at
        + digits_from(s, at) == s.len())
}

/// The number that the exponent at a position denotes; 0 where there is none.
pub open spec fn exponent_value(s: Seq<char>, i: int) -> int {
    if i >= s.len() {
        0
    } else {
        let n = nat_of(s.skip(exponent_digits(s, i))) as int;
        if i + 1 < s.len() && s[i + 1] == '-' {
            -n
        } else {
            n
        }
    }
}

/// How many digits stand before the point.
pub open spec fn whole_digits(s: Seq<char>) -> int {
    digits_from(s, 0)
}

/// How many digits stand behind the point.
pub open spec fn part_digits(s: Seq<char>) -> int {
    let whole = whole_digits(s);
    if whole < s.len() && s[whole] == '.' {
        digits_from(s, whole + 1)
    } else {
        0
    }
}

/// Where the digits and the point end.
pub open spec fn digits_end(s: Seq<char>) -> int {
    let whole = whole_digits(s);
    if whole < s.len() && s[whole] == '.' {
        whole + 1 + part_digits(s)
    } else {
        whole
    }
}

/// Whether a text is a decimal number without a sign: digits with at most one
/// point among or around them, and an exponent.
pub open spec fn unsigned_decimal(s: Seq<char>) -> bool {
    whole_digits(s) + part_digits(s) > 0 && exponent_from(s, digits_end(s))
}

/// The digits of a number without a sign.
pub open spec fn digits_of(s: Seq<char>) -> Seq<char> {
    s.take(whole_digits(s)) + s.subrange(digits_end(s) - part_digits(s), digits_end(s))
}

/// The power of ten that the digits of a number without a sign are to be multiplied
/// by.
pub open spec fn scale_of(s: Seq<char>) -> int {
    exponent_value(s, digits_end(s)) - part_digits(s)
}

// ── The normal form ──────────────────────────────────────────────────────

/// So many zeros.
pub open spec fn zeros(n: int) -> Seq<char> {
    Seq::new(n as nat, |i: int| '0')
}

pub open spec fn leading_zeros(d: Seq<char>) -> int
    decreases d.len(),
{
    if d.len() > 0 && d[0] == '0' {
        1 + leading_zeros(d.skip(1))
    } else {
        0
    }
}

pub open spec fn trailing_zeros(d: Seq<char>) -> int
    decreases d.len(),
{
    if d.len() > 0 && d.last() == '0' {
        1 + trailing_zeros(d.drop_last())
    } else {
        0
    }
}

/// Digits with a point behind the first so many of them, `0` standing for none.
pub open spec fn pointed(d: Seq<char>, scale: int) -> (Seq<char>, Seq<char>) {
    let p = d.len() + scale;
    if scale >= 0 {
        (d + zeros(scale), Seq::empty())
    } else if p > 0 {
        (d.take(p), d.skip(p))
    } else {
        ("0"@, zeros(-p) + d)
    }
}

/// A numeral of the digits before and behind the point.
pub open spec fn joined(whole: Seq<char>, part: Seq<char>) -> Seq<char> {
    if part.len() == 0 {
        whole
    } else {
        whole + "."@ + part
    }
}

/// The number of digits without zeros around them, times a power of ten. From 10^309
/// on it is infinite and below 10^-324 it is zero, since no double is there.
pub open spec fn plain_numeral(d: Seq<char>, scale: int) -> Seq<char> {
    let p = d.len() + scale;
    if d.len() == 0 || p <= -324 {
        "0"@
    } else if p > 309 {
        "inf"@
    } else {
        joined(pointed(d, scale).0, pointed(d, scale).1)
    }
}

/// The normal form of digits times a power of ten.
pub open spec fn normal_numeral(digits: Seq<char>, scale: int) -> Seq<char> {
    let t = digits.skip(leading_zeros(digits));
    plain_numeral(t.take(t.len() - trailing_zeros(t)), scale + trailing_zeros(t))
}

/// A text without its sign.
pub open spec fn unsigned(s: Seq<char>) -> Seq<char> {
    if s.len() > 0 && (s[0] == '+' || s[0] == '-') {
        s.skip(1)
    } else {
        s
    }
}

/// The minus sign of a text that has one.
pub open spec fn minus(s: Seq<char>) -> Seq<char> {
    if s.len() > 0 && s[0] == '-' {
        "-"@
    } else {
        Seq::empty()
    }
}

pub open spec fn says_infinite(s: Seq<char>) -> bool {
    lower_all(s) == lower_all("inf"@) || lower_all(s) == lower_all("infinity"@)
}

pub open spec fn says_nan(s: Seq<char>) -> bool {
    lower_all(s) == lower_all("nan"@)
}

/// The normal form of a floating-point numeral; none of what is no such numeral.
pub open spec fn normalized(t: Seq<char>) -> Option<Seq<char>> {
    let body = unsigned(t);
    if unsigned_decimal(body) {
        Some(minus(t) + normal_numeral(digits_of(body), scale_of(body)))
    } else if says_infinite(body) {
        Some(minus(t) + "inf"@)
    } else if says_nan(body) {
        Some("NaN"@)
    } else {
        None
    }
}

/// Whether a text in normal form is one of those that are no number.
pub open spec fn not_finite(s: Seq<char>) -> bool {
    s == "inf"@ || s == "-inf"@ || s == "NaN"@
}

/// The normal form of a field's text, digit for digit: trimmed, with a comma taken
/// for the decimal point.
pub open spec fn spelled(s: Seq<char>) -> Option<Seq<char>> {
    normalized(replace_char(trim(s), ',', '.'))
}

/// A number in its normal form with the digits of the double that it was read as;
/// infinite where it was not read, being beyond every double.
pub open spec fn rounded_numeral(n: Seq<char>, read: Option<JsonView>) -> Seq<char> {
    match read {
        Some(JsonView::Number(_, x)) => match normalized(x) {
            Some(y) => y,
            None => n,
        },
        _ => minus(n) + "inf"@,
    }
}

/// A number divided by five so many times; none where a rest is left.
pub open spec fn fifths(n: int, k: int) -> Option<int>
    decreases k,
{
    if k <= 0 {
        Some(n)
    } else if n % 5 != 0 {
        None
    } else {
        fifths(n / 5, k - 1)
    }
}

/// Whether the number halfway from a numeral to the next one of as many digits is a
/// double: the digits with a 5 behind them, over a power of ten, come to a whole number
/// of at most 53 bits over a power of two.
pub open spec fn half_is_double(y: Seq<char>) -> bool {
    let body = unsigned(y);
    let n = nat_of(digits_of(body).push('5'));
    &&& part_digits(body) > 0
    &&& is_digit(y.last()) && y.last() != '9'
    &&& n < far()
    &&& fifths(n as int, part_digits(body) + 1) matches Some(m) && m < 0x20_0000_0000_0000
}

/// A numeral with its last digit one higher.
pub open spec fn next_up(y: Seq<char>) -> Seq<char> {
    y.drop_last().push(((y.last() as u8 + 1) as u8) as char)
}

/// The numeral that a double is shown by, given one of the nearest and what the next
/// one was read as. Where the double is halfway between the two, it is the one further
/// from zero.
pub open spec fn settled(y: Seq<char>, up: Option<JsonView>) -> Seq<char> {
    match up {
        Some(JsonView::Number(_, x)) => if half_is_double(y) && normalized(x) == Some(y) {
            next_up(y)
        } else {
            y
        },
        _ => y,
    }
}

/// The decimal number that a field's text stands for, in its normal form, with the
/// digits of the double nearest to it.
pub open spec fn decimal_read(s: Seq<char>) -> Option<Seq<char>> {
    match spelled(s) {
        Some(n) => Some(
            if not_finite(n) {
                n
            } else {
                let y = rounded_numeral(n, json_value(decimal_text(n)));
                settled(y, json_value(decimal_text(next_up(y))))
            },
        ),
        None => None,
    }
}

// ── Reading ──────────────────────────────────────────────────────────────

fn count_digits(c: &[char], from: usize) -> (r: usize)
    requires
        from <= c@.len(),
    ensures
        r == digits_from(c@, from as int),
        from + r <= c@.len(),
{
    let mut i: usize = from;
    while i < c.len() && digit(c[i])
        invariant
            from <= i <= c@.len(),
            digits_from(c@, from as int) == i - from + digits_from(c@, i as int),
        decreases c.len() - i,
    {
        i += 1;
    }
    i - from
}

fn ends_in_exponent(c: &[char], i: usize) -> (r: bool)
    requires
        i <= c@.len(),
    ensures
        r == exponent_from(c@, i as int),
{
    if i == c.len() {
        return true;
    }
    if c[i] != 'e' && c[i] != 'E' {
        return false;
    }
    let mut at: usize = i + 1;
    if at < c.len() && (c[at] == '+' || c[at] == '-') {
        at += 1;
    }
    let n: usize = count_digits(c, at);
    n > 0 && at + n == c.len()
}

proof fn lemma_digits_are(s: Seq<char>, i: int)
    requires
        0 <= i <= s.len(),
    ensures
        0 <= digits_from(s, i) <= s.len() - i,
        forall|k: int| i <= k < i + digits_from(s, i) ==> is_digit(#[trigger] s[k]),
        i + digits_from(s, i) < s.len() ==> !is_digit(s[i + digits_from(s, i)]),
    decreases s.len() - i,
{
    if i < s.len() && is_digit(s[i]) {
        lemma_digits_are(s, i + 1);
    }
}

/// A number beyond which every exponent is as good as infinite.
pub open spec fn far() -> int {
    0x1_0000_0000_0000_0000_0000_0000
}

/// The number of a run of digits, or some number that is as far away.
fn far_number(c: &[char], from: usize) -> (r: i128)
    requires
        from <= c@.len(),
        forall|k: int| from <= k < c@.len() ==> is_digit(#[trigger] c@[k]),
    ensures
        0 <= r <= 10 * far() + 9,
        r < far() ==> r == nat_of(c@.skip(from as int)),
        r >= far() ==> nat_of(c@.skip(from as int)) >= far(),
{
    let ghost all = c@.skip(from as int);
    let mut i: usize = from;
    let mut acc: i128 = 0;
    assert(all.take(0) =~= Seq::<char>::empty());
    while i < c.len()
        invariant
            from <= i <= c@.len(),
            all == c@.skip(from as int),
            forall|k: int| from <= k < c@.len() ==> is_digit(#[trigger] c@[k]),
            0 <= acc <= 10 * far() + 9,
            acc < far() ==> acc == nat_of(all.take(i - from)),
            acc >= far() ==> nat_of(all.take(i - from)) >= far(),
        decreases c.len() - i,
    {
        proof {
            assert(all.take(i - from + 1).drop_last() =~= all.take(i - from));
            assert(all.take(i - from + 1).last() == c@[i as int]);
            assert(is_digit(c@[i as int]));
        }
        if acc < 0x1_0000_0000_0000_0000_0000_0000 {
            acc = acc * 10 + ((c[i] as u8 - '0' as u8) as i128);
        }
        i += 1;
    }
    assert(all.take(c@.len() - from) =~= all);
    acc
}

/// The exponent at a position, or some number that is as far away on the same side.
fn far_exponent(c: &[char], i: usize) -> (r: i128)
    requires
        i <= c@.len(),
        exponent_from(c@, i as int),
    ensures
        -10 * far() - 9 <= r <= 10 * far() + 9,
        -far() < r < far() ==> r == exponent_value(c@, i as int),
        r >= far() ==> exponent_value(c@, i as int) >= far(),
        r <= -far() ==> exponent_value(c@, i as int) <= -far(),
{
    if i == c.len() {
        return 0;
    }
    let mut at: usize = i + 1;
    if at < c.len() && (c[at] == '+' || c[at] == '-') {
        at += 1;
    }
    proof {
        lemma_digits_are(c@, at as int);
    }
    let n: i128 = far_number(c, at);
    if c[i + 1] == '-' {
        -n
    } else {
        n
    }
}

proof fn lemma_leading(d: Seq<char>, n: int)
    requires
        0 <= n <= d.len(),
        forall|k: int| 0 <= k < n ==> #[trigger] d[k] == '0',
        n < d.len() ==> d[n] != '0',
    ensures
        leading_zeros(d) == n,
    decreases d.len(),
{
    if n > 0 {
        let t = d.skip(1);
        assert(d[0] == '0');
        assert forall|k: int| 0 <= k < n - 1 implies #[trigger] t[k] == '0' by {
            assert(t[k] == d[k + 1]);
        }
        lemma_leading(t, n - 1);
    }
}

proof fn lemma_trailing(d: Seq<char>, n: int)
    requires
        0 <= n <= d.len(),
        forall|k: int| d.len() - n <= k < d.len() ==> #[trigger] d[k] == '0',
        n < d.len() ==> d[d.len() - n - 1] != '0',
    ensures
        trailing_zeros(d) == n,
    decreases d.len(),
{
    if n > 0 {
        let t = d.drop_last();
        assert(d[d.len() - 1] == '0');
        assert forall|k: int| t.len() - (n - 1) <= k < t.len() implies #[trigger] t[k] == '0' by {
            assert(t[k] == d[k]);
        }
        lemma_trailing(t, n - 1);
    }
}

fn push_zeros(out: &mut String, n: i128)
    ensures
        final(out)@ == old(out)@ + zeros(if n < 0 {
            0
        } else {
            n as int
        }),
{
    let ghost start = out@;
    let mut i: i128 = 0;
    assert(out@ =~= start + zeros(0));
    while i < n
        invariant
            0 <= i,
            i <= n || i == 0,
            out@ == start + zeros(i as int),
        decreases n - i,
    {
        out.push('0');
        assert(out@ =~= start + zeros(i + 1));
        i += 1;
    }
}

/// Appends the number of digits without zeros around them.
fn push_plain(out: &mut String, d: &[char], scale: i128)
    requires
        -20 * far() <= scale <= 20 * far(),
    ensures
        final(out)@ == old(out)@ + plain_numeral(d@, scale as int),
{
    let ghost start = out@;
    let p: i128 = d.len() as i128 + scale;
    if d.len() == 0 || p <= -324 {
        out.append("0");
    } else if p > 309 {
        out.append("inf");
    } else if scale >= 0 {
        push_chars(out, d);
        push_zeros(out, scale);
        assert(out@ =~= start + plain_numeral(d@, scale as int));
    } else if p > 0 {
        let whole = slice_subrange(d, 0, p as usize);
        let part = slice_subrange(d, p as usize, d.len());
        push_chars(out, whole);
        out.append(".");
        push_chars(out, part);
        assert(whole@ =~= d@.take(p as int));
        assert(part@ =~= d@.skip(p as int));
        assert(out@ =~= start + plain_numeral(d@, scale as int));
    } else {
        out.append("0");
        out.append(".");
        push_zeros(out, -p);
        push_chars(out, d);
        assert(out@ =~= start + plain_numeral(d@, scale as int));
    }
}

/// Appends the normal form of digits times a power of ten.
fn push_normal(out: &mut String, d: &[char], scale: i128)
    requires
        -19 * far() <= scale <= 19 * far(),
    ensures
        final(out)@ == old(out)@ + normal_numeral(d@, scale as int),
{
    let mut lo: usize = 0;
    while lo < d.len() && d[lo] == '0'
        invariant
            lo <= d@.len(),
            forall|k: int| 0 <= k < lo ==> #[trigger] d@[k] == '0',
        decreases d.len() - lo,
    {
        lo += 1;
    }
    let mut hi: usize = d.len();
    while hi > lo && d[hi - 1] == '0'
        invariant
            lo <= hi <= d@.len(),
            forall|k: int| hi <= k < d@.len() ==> #[trigger] d@[k] == '0',
        decreases hi,
    {
        hi -= 1;
    }
    proof {
        lemma_leading(d@, lo as int);
        let t = d@.skip(lo as int);
        assert forall|k: int| hi - lo <= k < t.len() implies #[trigger] t[k] == '0' by {
            assert(t[k] == d@[k + lo]);
        }
        lemma_trailing(t, d@.len() - hi);
        assert(t.take(hi - lo) =~= d@.subrange(lo as int, hi as int));
    }
    push_plain(out, slice_subrange(d, lo, hi), scale + (d.len() - hi) as i128);
}

/// A number far away has the normal form of every other that is as far away.
proof fn lemma_far(d: Seq<char>, a: int, b: int)
    requires
        d.len() <= usize::MAX,
        a == b || (a >= far() / 2 && b >= far() / 2) || (a <= -far() / 2 && b <= -far() / 2),
    ensures
        normal_numeral(d, a) == normal_numeral(d, b),
{
    lemma_zeros_are(d);
    let t = d.skip(leading_zeros(d));
    lemma_zeros_are(t);
}

/// The digits of a number without a sign, the point left out.
fn collect_digits(c: &[char], whole: usize, part: usize, end: usize) -> (r: Vec<char>)
    requires
        whole == whole_digits(c@),
        part == part_digits(c@),
        end == digits_end(c@),
        part <= end <= c@.len(),
        whole <= c@.len(),
    ensures
        r@ == digits_of(c@),
{
    let mut digits: Vec<char> = Vec::new();
    let mut i: usize = 0;
    while i < whole
        invariant
            i <= whole <= c@.len(),
            digits@ == c@.take(i as int),
        decreases whole - i,
    {
        digits.push(c[i]);
        i += 1;
        assert(digits@ =~= c@.take(i as int));
    }
    let ghost first = c@.take(whole as int);
    i = end - part;
    assert(digits@ =~= first + c@.subrange(end - part, i as int));
    while i < end
        invariant
            end - part <= i <= end <= c@.len(),
            part <= end,
            digits@ == first + c@.subrange(end - part, i as int),
        decreases end - i,
    {
        digits.push(c[i]);
        i += 1;
        assert(digits@ =~= first + c@.subrange(end - part, i as int));
    }
    digits
}

/// Appends the normal form of a number without a sign, or says that it is none.
fn push_unsigned(out: &mut String, c: &[char]) -> (r: bool)
    ensures
        r == unsigned_decimal(c@),
        final(out)@ == if r {
            old(out)@ + normal_numeral(digits_of(c@), scale_of(c@))
        } else {
            old(out)@
        },
{
    let whole: usize = count_digits(c, 0);
    let mut part: usize = 0;
    let mut end: usize = whole;
    if whole < c.len() && c[whole] == '.' {
        part = count_digits(c, whole + 1);
        end = whole + 1 + part;
    }
    if (whole == 0 && part == 0) || !ends_in_exponent(c, end) {
        return false;
    }
    let digits = collect_digits(c, whole, part, end);
    let scale: i128 = far_exponent(c, end) - part as i128;
    proof {
        lemma_far(digits@, scale as int, scale_of(c@));
    }
    push_normal(out, digits.as_slice(), scale);
    true
}

/// The normal form of a floating-point numeral.
fn normal_form(d: &[char]) -> (r: Option<String>)
    ensures
        opt(r) == normalized(d@),
{
    let mut body: &[char] = d;
    let mut out: String = String::new();
    if d.len() > 0 && (d[0] == '+' || d[0] == '-') {
        body = slice_subrange(d, 1, d.len());
        assert(body@ =~= d@.skip(1));
        if d[0] == '-' {
            out.append("-");
        }
    }
    assert(out@ =~= minus(d@));
    let inf = to_chars("inf");
    let infinity = to_chars("infinity");
    let nan = to_chars("nan");
    if push_unsigned(&mut out, body) {
        Some(out)
    } else if same_ignore_case(body, inf.as_slice()) || same_ignore_case(body, infinity.as_slice()) {
        out.append("inf");
        Some(out)
    } else if same_ignore_case(body, nan.as_slice()) {
        Some("NaN".to_owned())
    } else {
        None
    }
}

/// A number in its normal form with the digits of the double that it was read as.
pub fn rounded_decimal(n: &str, read: &Option<Json>) -> (r: String)
    ensures
        r@ == rounded_numeral(n@, shape_of(*read)),
{
    match read {
        Some(Json::Number(_, x)) => {
            let c = to_chars(x.as_str());
            match normal_form(c.as_slice()) {
                Some(y) => y,
                None => n.to_owned(),
            }
        },
        _ => {
            let c = to_chars(n);
            let mut out: String = String::new();
            if c.len() > 0 && c[0] == '-' {
                out.append("-");
            }
            out.append("inf");
            assert(out@ =~= minus(n@) + "inf"@);
            out
        },
    }
}

/// A number divided by five so many times.
fn divided(n: i128, k: usize) -> (r: Option<i128>)
    requires
        0 <= n,
    ensures
        match r {
            Some(m) => fifths(n as int, k as int) == Some(m as int),
            None => fifths(n as int, k as int) is None,
        },
{
    let mut m: i128 = n;
    let mut left: usize = k;
    while left > 0
        invariant
            0 <= m,
            fifths(n as int, k as int) == fifths(m as int, left as int),
        decreases left,
    {
        if m % 5 != 0 {
            return None;
        }
        m = m / 5;
        left -= 1;
    }
    Some(m)
}

/// Whether the number halfway to the next numeral is a double.
fn is_half_double(y: &str) -> (r: bool)
    ensures
        r == half_is_double(y@),
{
    let c = to_chars(y);
    let mut body: &[char] = c.as_slice();
    if c.len() > 0 && (c[0] == '+' || c[0] == '-') {
        body = slice_subrange(c.as_slice(), 1, c.len());
        assert(body@ =~= y@.skip(1));
    }
    let whole: usize = count_digits(body, 0);
    if whole == body.len() || body[whole] != '.' {
        return false;
    }
    let part: usize = count_digits(body, whole + 1);
    if part == 0 {
        return false;
    }
    let last: char = c[c.len() - 1];
    if !digit(last) || last == '9' {
        return false;
    }
    let mut digits = collect_digits(body, whole, part, whole + 1 + part);
    digits.push('5');
    proof {
        lemma_digits_all_digit(body@);
    }
    let n: i128 = far_number(digits.as_slice(), 0);
    assert(digits@.skip(0) =~= digits@);
    if n >= 0x1_0000_0000_0000_0000_0000_0000 {
        return false;
    }
    match divided(n, part + 1) {
        Some(m) => m < 0x20_0000_0000_0000,
        None => false,
    }
}

/// A numeral with its last digit one higher.
fn raised(y: &str) -> (r: String)
    requires
        half_is_double(y@),
    ensures
        r@ == next_up(y@),
{
    let mut c = to_chars(y);
    proof {
        lemma_digits_are(unsigned(y@), 0);
    }
    let last: char = c[c.len() - 1];
    c.pop();
    c.push((last as u8 + 1) as char);
    assert(c@ =~= next_up(y@));
    from_chars(c.as_slice())
}

/// The numeral that a double is shown by, given one of the nearest and what the next
/// one was read as.
pub fn settled_decimal(y: &str, up: &Option<Json>) -> (r: String)
    ensures
        r@ == settled(y@, shape_of(*up)),
{
    if let Some(Json::Number(_, x)) = up {
        if is_half_double(y) {
            let c = to_chars(x.as_str());
            if let Some(z) = normal_form(c.as_slice()) {
                if str_eq(z.as_str(), y) {
                    return raised(y);
                }
            }
        }
    }
    y.to_owned()
}

/// The numeral of a decimal number in a JSON document.
pub fn numeral_text(s: &str) -> (r: String)
    ensures
        r@ == decimal_text(s@),
{
    let c = to_chars(s);
    let mut t: String = s.to_owned();
    if !(has_char(c.as_slice(), '.') || has_char(c.as_slice(), 'e')
        || has_char(c.as_slice(), 'E')) {
        t.append(".0");
    }
    t
}

/// Whether a text in normal form is no number.
pub fn is_not_finite(s: &str) -> (r: bool)
    ensures
        r == not_finite(s@),
{
    str_eq(s, "inf") || str_eq(s, "-inf") || str_eq(s, "NaN")
}

/// Reads a decimal number. What was read is read again as it is, and a number whose
/// normal form has at most fifteen characters keeps its digits.
pub fn parse_decimal(s: &str) -> (r: Option<String>)
    ensures
        opt(r) == decimal_read(s@),
        r matches Some(n) ==> decimal_read(n@) == Some(n@),
        keeps_short(s@, opt(r)),
{
    let c = to_chars(s);
    let t = from_chars(trimmed(c.as_slice()));
    let text = replaced_char(t.as_str(), ',', '.');
    let d = to_chars(text.as_str());
    let n = match normal_form(d.as_slice()) {
        Some(n) => n,
        None => return None,
    };
    proof {
        lemma_normal_again(d@);
    }
    if is_not_finite(n.as_str()) {
        return Some(n);
    }
    let numeral = numeral_text(n.as_str());
    proof {
        lemma_json_numeral(d@);
    }
    let read = match parse_json(numeral.as_str()) {
        Ok(j) => Some(j),
        Err(_) => None,
    };
    let y = rounded_decimal(n.as_str(), &read);
    proof {
        if n@.len() <= 15 {
            assert(is_short(n@));
        }
        lemma_rounded_again(n@, shape_of(read));
    }
    if !is_half_double(y.as_str()) {
        return Some(y);
    }
    proof {
        if not_finite(y@) {
            lemma_not_finite_has_no_half(y@);
        }
    }
    let up = raised(y.as_str());
    proof {
        lemma_raised(y@);
    }
    let numeral_up = numeral_text(up.as_str());
    let read_up = match parse_json(numeral_up.as_str()) {
        Ok(j) => Some(j),
        Err(_) => None,
    };
    let r = settled_decimal(y.as_str(), &read_up);
    proof {
        if n@.len() <= 15 {
            assert(is_short(up@));
        }
    }
    Some(r)
}

/// Whether a number whose normal form has at most fifteen characters was read as that.
pub open spec fn keeps_short(s: Seq<char>, read: Option<Seq<char>>) -> bool {
    spelled(s) matches Some(n) ==> n.len() <= 15 ==> read == Some(n)
}

// ── The normal form reads back ───────────────────────────────────────────

pub open spec fn all_digit(s: Seq<char>) -> bool {
    forall|i: int| 0 <= i < s.len() ==> is_digit(#[trigger] s[i])
}

/// Digits before and behind the point of a number in its normal form.
spec fn normal_parts(whole: Seq<char>, part: Seq<char>) -> bool {
    &&& 0 < whole.len() <= 309
    &&& all_digit(whole)
    &&& all_digit(part)
    &&& whole.len() == 1 || whole[0] != '0'
    &&& part.len() > 0 ==> part.last() != '0'
    &&& part.len() > 0 && whole[0] == '0' ==> leading_zeros(part) < 324
}

proof fn lemma_zeros_are(d: Seq<char>)
    ensures
        0 <= leading_zeros(d) <= d.len(),
        forall|k: int| 0 <= k < leading_zeros(d) ==> #[trigger] d[k] == '0',
        leading_zeros(d) < d.len() ==> d[leading_zeros(d)] != '0',
        0 <= trailing_zeros(d) <= d.len(),
        forall|k: int| d.len() - trailing_zeros(d) <= k < d.len() ==> #[trigger] d[k] == '0',
        trailing_zeros(d) < d.len() ==> d[d.len() - trailing_zeros(d) - 1] != '0',
    decreases d.len(),
{
    if d.len() > 0 {
        let t = d.skip(1);
        let init = d.drop_last();
        lemma_zeros_are(t);
        lemma_zeros_are(init);
        assert forall|k: int| 0 <= k < leading_zeros(d) implies #[trigger] d[k] == '0' by {
            if k > 0 {
                assert(d[k] == t[k - 1]);
            }
        }
        assert forall|k: int| d.len() - trailing_zeros(d) <= k < d.len() implies #[trigger] d[k]
            == '0' by {
            if k < d.len() - 1 {
                assert(d[k] == init[k]);
            }
        }
    }
}

/// A number that was read is infinite, or in two parts without a needless zero.
proof fn lemma_normal_shape(digits: Seq<char>, scale: int) -> (r: (Seq<char>, Seq<char>))
    requires
        all_digit(digits),
    ensures
        normal_numeral(digits, scale) == "inf"@ || (normal_parts(r.0, r.1) && normal_numeral(
            digits,
            scale,
        ) == joined(r.0, r.1)),
{
    reveal_strlit("0");
    lemma_zeros_are(digits);
    let t = digits.skip(leading_zeros(digits));
    lemma_zeros_are(t);
    let b = trailing_zeros(t);
    let d = t.take(t.len() - b);
    let sc = scale + b;
    let p = d.len() + sc;
    assert forall|i: int| 0 <= i < d.len() implies is_digit(#[trigger] d[i]) by {
        assert(d[i] == digits[leading_zeros(digits) + i]);
    }
    if d.len() == 0 || p <= -324 {
        let none = Seq::<char>::empty();
        assert("0"@.len() == 1 && "0"@[0] == '0');
        ("0"@, none)
    } else if p > 309 {
        ("0"@, "0"@)
    } else {
        assert(d[0] == digits[leading_zeros(digits)]);
        assert(d[0] != '0');
        assert(d.last() != '0');
        let (w, f) = pointed(d, sc);
        if sc >= 0 {
            assert(w[0] == d[0]);
        } else if p > 0 {
            assert(w[0] == d[0]);
            assert(f.last() == d.last());
        } else {
            assert("0"@.len() == 1 && "0"@[0] == '0');
            assert(f.last() == d.last());
            assert(f[-p] == d[0]);
            lemma_leading(f, -p);
        }
        assert(all_digit(w)) by {
            assert forall|i: int| 0 <= i < w.len() implies is_digit(#[trigger] w[i]) by {
                if i < d.len() && p > 0 {
                    assert(w[i] == d[i]);
                }
            }
        }
        assert(all_digit(f)) by {
            assert forall|i: int| 0 <= i < f.len() implies is_digit(#[trigger] f[i]) by {
                if sc < 0 && p > 0 {
                    assert(f[i] == d[p + i]);
                } else if sc < 0 && i >= -p {
                    assert(f[i] == d[i + p]);
                }
            }
        }
        (w, f)
    }
}

proof fn lemma_run(s: Seq<char>, i: int, n: int)
    requires
        0 <= i,
        0 <= n,
        i + n <= s.len(),
        forall|k: int| i <= k < i + n ==> is_digit(#[trigger] s[k]),
        i + n < s.len() ==> !is_digit(s[i + n]),
    ensures
        digits_from(s, i) == n,
    decreases n,
{
    if n > 0 {
        assert(is_digit(s[i]));
        lemma_run(s, i + 1, n - 1);
    }
}

/// Two runs of digits with a point between them are read as they are.
proof fn lemma_joined_reads(w: Seq<char>, f: Seq<char>)
    requires
        w.len() > 0,
        all_digit(w),
        all_digit(f),
    ensures
        ({
            let s = joined(w, f);
            &&& unsigned_decimal(s)
            &&& whole_digits(s) == w.len()
            &&& part_digits(s) == f.len()
            &&& digits_of(s) == w + f
            &&& scale_of(s) == -f.len()
            &&& f.len() > 0 ==> s[w.len() as int] == '.'
            &&& f.len() == 0 ==> s == w
            &&& s[0] == w[0]
            &&& is_digit(s.last())
            &&& forall|i: int|
                0 <= i < s.len() ==> is_digit(#[trigger] s[i]) || (s[i] == '.' && f.len() > 0)
        }),
{
    reveal_strlit(".");
    let s = joined(w, f);
    let n = w.len() as int;
    if f.len() == 0 {
        lemma_run(s, 0, n);
        assert(digits_of(s) =~= w + f);
        assert(is_digit(w[n - 1]));
    } else {
        assert(s[n] == '.');
        assert forall|k: int| 0 <= k < n implies is_digit(#[trigger] s[k]) by {
            assert(s[k] == w[k]);
        }
        lemma_run(s, 0, n);
        assert forall|k: int| n + 1 <= k < n + 1 + f.len() implies is_digit(#[trigger] s[k]) by {
            assert(s[k] == f[k - n - 1]);
        }
        lemma_run(s, n + 1, f.len() as int);
        assert(digits_of(s) =~= w + f);
        assert(s.last() == f[f.len() - 1]);
    }
}

/// The normal form of a number in its normal form is that form.
proof fn lemma_normal_stays(w: Seq<char>, f: Seq<char>)
    requires
        normal_parts(w, f),
    ensures
        normal_numeral(w + f, -(f.len() as int)) == joined(w, f),
{
    reveal_strlit("0");
    let d0 = w + f;
    let n = w.len() as int;
    if f.len() == 0 {
        assert(d0 =~= w);
        if w[0] == '0' {
            lemma_leading(w, 1);
            lemma_zeros_are(w.skip(1));
            assert(w =~= "0"@);
        } else {
            lemma_leading(w, 0);
            assert(w.skip(0) =~= w);
            lemma_zeros_are(w);
            let b = trailing_zeros(w);
            assert(b < w.len());
            let d = w.take(n - b);
            assert(d + zeros(b) =~= w);
        }
    } else {
        assert(d0.last() == f.last());
        if w[0] == '0' {
            lemma_zeros_are(f);
            let z = leading_zeros(f);
            assert(z < f.len()) by {
                if z == f.len() {
                    assert(f[f.len() - 1] == '0');
                }
            }
            assert forall|k: int| 0 <= k < 1 + z implies #[trigger] d0[k] == '0' by {
                if k > 0 {
                    assert(d0[k] == f[k - 1]);
                }
            }
            assert(d0[1 + z] == f[z]);
            lemma_leading(d0, 1 + z);
            let d = d0.skip(1 + z);
            assert(d =~= f.skip(z));
            assert(d.last() == f.last());
            lemma_trailing(d, 0);
            assert(d.take(d.len() as int) =~= d);
            assert(zeros(z) + d =~= f);
            assert(w =~= "0"@);
        } else {
            lemma_leading(d0, 0);
            assert(d0.skip(0) =~= d0);
            lemma_trailing(d0, 0);
            assert(d0.take(d0.len() as int) =~= d0);
            assert(d0.take(n) =~= w);
            assert(d0.skip(n) =~= f);
        }
    }
}

/// A text without white space at its ends and without a comma is read as it stands.
proof fn lemma_taken_as_is(s: Seq<char>)
    requires
        s.len() > 0,
        !is_space(s[0]),
        !is_space(s.last()),
        forall|i: int| 0 <= i < s.len() ==> #[trigger] s[i] != ',',
    ensures
        spelled(s) == normalized(s),
{
    assert(trim_start(s) == s);
    assert(trim_end(s) == s);
    assert(replace_char(s, ',', '.') =~= s);
}

proof fn lemma_digits_all_digit(body: Seq<char>)
    ensures
        all_digit(digits_of(body)),
{
    lemma_digits_are(body, 0);
    let n = whole_digits(body);
    if n < body.len() && body[n] == '.' {
        lemma_digits_are(body, n + 1);
    }
    let d = digits_of(body);
    assert forall|i: int| 0 <= i < d.len() implies is_digit(#[trigger] d[i]) by {
        if i < n {
            assert(d[i] == body[i]);
        } else {
            assert(d[i] == body[digits_end(body) - part_digits(body) + i - n]);
        }
    }
}

/// The two parts of a finite number that was read.
proof fn lemma_read_parts(t: Seq<char>) -> (r: (Seq<char>, Seq<char>))
    requires
        normalized(t) is Some,
        !not_finite(normalized(t)->0),
    ensures
        normal_parts(r.0, r.1),
        normalized(t)->0 == minus(t) + joined(r.0, r.1),
{
    reveal_strlit("-inf");
    reveal_strlit("-");
    reveal_strlit("inf");
    let body = unsigned(t);
    assert("-"@ + "inf"@ =~= "-inf"@);
    assert(Seq::<char>::empty() + "inf"@ =~= "inf"@);
    lemma_digits_all_digit(body);
    lemma_normal_shape(digits_of(body), scale_of(body))
}

proof fn lemma_signed_reads(sign: Seq<char>, x: Seq<char>)
    requires
        sign == "-"@ || sign.len() == 0,
        x.len() > 0,
        x[0] != '+' && x[0] != '-',
    ensures
        unsigned(sign + x) == x,
        minus(sign + x) == sign,
{
    reveal_strlit("-");
    if sign.len() == 0 {
        assert(sign + x =~= x);
        assert(sign =~= Seq::<char>::empty());
    } else {
        assert((sign + x).skip(1) =~= x);
    }
}

/// A number in its normal form, with its sign, is read as it stands.
proof fn lemma_parts_stay(sign: Seq<char>, w: Seq<char>, f: Seq<char>)
    requires
        sign == "-"@ || sign.len() == 0,
        normal_parts(w, f),
    ensures
        spelled(sign + joined(w, f)) == Some(sign + joined(w, f)),
        normalized(sign + joined(w, f)) == Some(sign + joined(w, f)),
        unsigned(sign + joined(w, f)) == joined(w, f),
        is_digit((sign + joined(w, f)).last()),
{
    reveal_strlit("-");
    let x = joined(w, f);
    let n = sign + x;
    lemma_joined_reads(w, f);
    lemma_normal_stays(w, f);
    lemma_signed_reads(sign, x);
    assert(n.last() == x.last());
    assert forall|i: int| 0 <= i < n.len() implies #[trigger] n[i] != ',' by {
        if i >= sign.len() {
            assert(n[i] == x[i - sign.len()]);
        }
    }
    if sign.len() == 0 {
        assert(n[0] == x[0]);
    }
    lemma_taken_as_is(n);
}

proof fn lemma_normal_again(t: Seq<char>)
    requires
        normalized(t) is Some,
    ensures
        spelled(normalized(t)->0) == normalized(t),
        normalized(normalized(t)->0) == normalized(t),
{
    reveal_strlit("-inf");
    reveal_strlit("-");
    reveal_strlit("inf");
    reveal_strlit("infinity");
    reveal_strlit("nan");
    reveal_strlit("NaN");
    let n = normalized(t)->0;
    if n == "NaN"@ {
        assert(n.len() == 3 && n[0] == 'N' && n[1] == 'a' && n[2] == 'N');
        lemma_taken_as_is(n);
        assert(lower_all(n) =~= lower_all("nan"@));
        assert(lower_all(n)[0] == 'n');
        assert(lower_all("inf"@)[0] == 'i');
        assert(lower_all("infinity"@)[0] == 'i');
        assert(digits_from(n, 0) == 0);
    } else if not_finite(n) {
        let sign = if n == "inf"@ {
            Seq::<char>::empty()
        } else {
            "-"@
        };
        assert(n =~= sign + "inf"@);
        lemma_signed_reads(sign, "inf"@);
        assert(n.last() == 'f');
        assert forall|i: int| 0 <= i < n.len() implies #[trigger] n[i] != ',' by {}
        lemma_taken_as_is(n);
        assert(digits_from("inf"@, 0) == 0);
    } else {
        let (w, f) = lemma_read_parts(t);
        lemma_parts_stay(minus(t), w, f);
    }
}

/// The normal form of a normal form is itself.
pub proof fn law_spelling_is_normal(s: Seq<char>)
    requires
        spelled(s) is Some,
    ensures
        spelled(spelled(s)->0) == spelled(s),
{
    lemma_normal_again(replace_char(trim(s), ',', '.'));
}

/// What was rounded to a double is that double.
proof fn lemma_rounded_again(n: Seq<char>, read: Option<JsonView>)
    requires
        spelled(n) == Some(n),
        normalized(n) == Some(n),
        !not_finite(n),
        read == json_value(decimal_text(n)),
        read matches Some(v) ==> shown_again(v),
    ensures
        ({
            let y = rounded_numeral(n, read);
            &&& spelled(y) == Some(y)
            &&& normalized(y) == Some(y)
            &&& !not_finite(y) ==> rounded_numeral(y, json_value(decimal_text(y))) == y
        }),
{
    reveal_strlit("-inf");
    reveal_strlit("-");
    reveal_strlit("inf");
    match read {
        Some(JsonView::Number(_, x)) => {
            lemma_normal_again(x);
        },
        _ => {
            assert("-"@ + "inf"@ =~= "-inf"@);
            assert(Seq::<char>::empty() + "inf"@ =~= "inf"@);
            lemma_infinite_reads();
        },
    }
}

/// What is no number is not halfway anywhere.
proof fn lemma_not_finite_has_no_half(y: Seq<char>)
    requires
        not_finite(y),
    ensures
        !half_is_double(y),
{
    reveal_strlit("-inf");
    reveal_strlit("inf");
    reveal_strlit("NaN");
    assert(y.last() == 'f' || y.last() == 'N');
}

/// The numeral above one in normal form is in normal form too.
proof fn lemma_raised(y: Seq<char>)
    requires
        normalized(y) == Some(y),
        part_digits(unsigned(y)) > 0,
        y.last() != '9',
        !not_finite(y),
    ensures
        spelled(next_up(y)) == Some(next_up(y)),
        normalized(next_up(y)) == Some(next_up(y)),
        !not_finite(next_up(y)),
        next_up(y) != y,
        next_up(y).len() == y.len(),
{
    let (w, f) = lemma_read_parts(y);
    let sign = minus(y);
    let c = ((y.last() as u8 + 1) as u8) as char;
    let g = f.drop_last().push(c);
    assert(f.len() > 0 && y.last() == f.last() && is_digit(f.last())) by {
        lemma_parts_stay(sign, w, f);
        lemma_joined_reads(w, f);
    }
    assert(is_digit(c) && c != '0' && c != y.last());
    assert(next_up(y) =~= sign + joined(w, g));
    assert(normal_parts(w, g)) by {
        lemma_raised_parts(w, f, c);
    }
    lemma_parts_stay(sign, w, g);
    assert(next_up(y).last() == c);
    lemma_number_is_finite(next_up(y));
}

proof fn lemma_raised_parts(w: Seq<char>, f: Seq<char>, c: char)
    requires
        normal_parts(w, f),
        f.len() > 0,
        is_digit(c),
        c != '0',
    ensures
        normal_parts(w, f.drop_last().push(c)),
{
    let g = f.drop_last().push(c);
    assert forall|i: int| 0 <= i < g.len() implies is_digit(#[trigger] g[i]) by {
        if i < f.len() - 1 {
            assert(g[i] == f[i]);
        }
    }
    lemma_zeros_are(f);
    lemma_zeros_are(g);
    let z = leading_zeros(f);
    assert(z < f.len()) by {
        if z == f.len() {
            assert(f[f.len() - 1] == '0');
        }
    }
    assert(g[z] != '0');
}

proof fn lemma_number_is_finite(y: Seq<char>)
    requires
        y.len() > 0,
        is_digit(y.last()),
    ensures
        !not_finite(y),
{
    reveal_strlit("-inf");
    reveal_strlit("inf");
    reveal_strlit("NaN");
}

/// An empty text is no number.
pub proof fn lemma_nothing_reads()
    ensures
        decimal_read(Seq::empty()) is None,
{
    reveal_strlit("inf");
    reveal_strlit("infinity");
    reveal_strlit("nan");
    let e = Seq::<char>::empty();
    assert(trim_start(e) == e);
    assert(trim_end(e) == e);
    assert(replace_char(e, ',', '.') =~= e);
    assert(lower_all(e).len() == 0);
    assert(lower_all("inf"@).len() == 3 && lower_all("infinity"@).len() == 8 && lower_all(
        "nan"@,
    ).len() == 3);
}

proof fn lemma_infinite_reads()
    ensures
        spelled("inf"@) == Some("inf"@),
        spelled("-inf"@) == Some("-inf"@),
        normalized("inf"@) == Some("inf"@),
        normalized("-inf"@) == Some("-inf"@),
{
    reveal_strlit("-inf");
    reveal_strlit("-");
    reveal_strlit("inf");
    assert(digits_from("inf"@, 0) == 0);
    lemma_signed_reads(Seq::empty(), "inf"@);
    assert(Seq::<char>::empty() + "inf"@ =~= "inf"@);
    lemma_signed_reads("-"@, "inf"@);
    assert("-"@ + "inf"@ =~= "-inf"@);
    assert(normalized("inf"@) == Some("inf"@));
    assert(normalized("-inf"@) == Some("-inf"@));
    lemma_normal_again("inf"@);
    lemma_normal_again("-inf"@);
}

// ── In a JSON document ───────────────────────────────────────────────────

/// Whether a text is a numeral of JSON: a minus sign or none, digits that begin with
/// a zero only where it is the only one, a point with digits behind it, an exponent.
pub open spec fn is_json_numeral(s: Seq<char>) -> bool {
    let body = if s.len() > 0 && s[0] == '-' {
        s.skip(1)
    } else {
        s
    };
    let whole = whole_digits(body);
    &&& whole > 0
    &&& whole == 1 || body[0] != '0'
    &&& whole < body.len() && body[whole] == '.' ==> part_digits(body) > 0
    &&& exponent_from(body, digits_end(body))
}

/// The numeral of a decimal number in a JSON document: a whole one has a decimal all
/// the same.
pub open spec fn decimal_text(s: Seq<char>) -> Seq<char> {
    if s.contains('.') || s.contains('e') || s.contains('E') {
        s
    } else {
        s + ".0"@
    }
}

/// The numeral of a finite number in a document has a point and is one of JSON.
proof fn lemma_json_numeral(t: Seq<char>)
    requires
        normalized(t) is Some,
        !not_finite(normalized(t)->0),
    ensures
        is_json_numeral(decimal_text(normalized(t)->0)),
        decimal_text(normalized(t)->0).contains('.'),
{
    reveal_strlit("-");
    reveal_strlit("0");
    reveal_strlit(".");
    reveal_strlit(".0");
    let n = normalized(t)->0;
    let (w, f) = lemma_read_parts(t);
    let x = joined(w, f);
    let sign = minus(t);
    lemma_joined_reads(w, f);
    lemma_signed_reads(sign, x);
    assert forall|i: int| 0 <= i < n.len() implies #[trigger] n[i] != 'e' && n[i] != 'E' && (n[i]
        == '.' ==> f.len() > 0) by {
        if i >= sign.len() {
            assert(n[i] == x[i - sign.len()]);
        }
    }
    let f2 = if f.len() > 0 {
        f
    } else {
        "0"@
    };
    lemma_joined_reads(w, f2);
    let at = sign.len() + w.len() as int;
    if f.len() > 0 {
        assert(n[at] == '.');
        assert(decimal_text(n) == sign + joined(w, f2));
    } else {
        assert(decimal_text(n) =~= sign + joined(w, f2));
        assert(decimal_text(n)[at] == '.');
    }
    lemma_signed_reads(sign, joined(w, f2));
}

/// A finite number that was read is a numeral of JSON.
pub proof fn law_decimal_is_json(s: Seq<char>)
    requires
        decimal_read(s) is Some,
        !not_finite(decimal_read(s)->0),
    ensures
        is_json_numeral(decimal_text(decimal_read(s)->0)),
{
    let t = replace_char(trim(s), ',', '.');
    let n = spelled(s)->0;
    lemma_normal_again(t);
    reveal_strlit("-inf");
    reveal_strlit("-");
    reveal_strlit("inf");
    if !not_finite(n) {
        let y = rounded_numeral(n, json_value(decimal_text(n)));
        match json_value(decimal_text(n)) {
            Some(JsonView::Number(_, x)) => {
                if normalized(x) is Some {
                    lemma_normal_again(x);
                }
            },
            _ => {
                assert("-"@ + "inf"@ =~= "-inf"@);
                assert(Seq::<char>::empty() + "inf"@ =~= "inf"@);
                lemma_infinite_reads();
            },
        }
        if not_finite(y) {
            lemma_not_finite_has_no_half(y);
        }
        if half_is_double(y) {
            lemma_raised(y);
            lemma_json_numeral(next_up(y));
        }
        if !not_finite(y) {
            lemma_json_numeral(y);
        }
    }
}

} // verus!
