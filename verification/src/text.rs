//! Character and text primitives shared by the parser, the modelers and the
//! renderer.

use vstd::prelude::*;
use vstd::std_specs::iter::IteratorSpec;

verus! {

/// The code points with the Unicode `White_Space` property.
pub open spec fn is_space(c: char) -> bool {
    let n = c as u32;
    ||| 0x09 <= n <= 0x0D
    ||| n == 0x20
    ||| n == 0x85
    ||| n == 0xA0
    ||| n == 0x1680
    ||| 0x2000 <= n <= 0x200A
    ||| n == 0x2028
    ||| n == 0x2029
    ||| n == 0x202F
    ||| n == 0x205F
    ||| n == 0x3000
}

/// Whether `c` is white space.
pub fn is_whitespace(c: char) -> (b: bool)
    ensures
        b == is_space(c),
{
    let n: u32 = c as u32;
    (0x09 <= n && n <= 0x0D) || n == 0x20 || n == 0x85 || n == 0xA0 || n == 0x1680 || (0x2000 <= n
        && n <= 0x200A) || n == 0x2028 || n == 0x2029 || n == 0x202F || n == 0x205F || n == 0x3000
}

/// Number of leading white-space characters of `s`.
pub open spec fn leading_spaces(s: Seq<char>) -> nat
    decreases s.len(),
{
    if s.len() > 0 && is_space(s[0]) {
        1 + leading_spaces(s.drop_first())
    } else {
        0
    }
}

/// Length of `s` once its trailing white space is dropped.
pub open spec fn content_end(s: Seq<char>) -> nat
    decreases s.len(),
{
    if s.len() > 0 && is_space(s.last()) {
        content_end(s.drop_last())
    } else {
        s.len()
    }
}

/// `s` without its leading white space.
pub open spec fn trim_start_spec(s: Seq<char>) -> Seq<char> {
    s.skip(leading_spaces(s) as int)
}

/// `s` without its trailing white space.
pub open spec fn trim_end_spec(s: Seq<char>) -> Seq<char> {
    s.take(content_end(s) as int)
}

/// `s` without its leading and trailing white space.
pub open spec fn trim_spec(s: Seq<char>) -> Seq<char> {
    trim_end_spec(trim_start_spec(s))
}

/// Whether `s` holds nothing but white space.
pub open spec fn blank(s: Seq<char>) -> bool {
    forall|i: int| 0 <= i < s.len() ==> is_space(#[trigger] s[i])
}

pub proof fn lemma_leading_spaces_bound(s: Seq<char>)
    ensures
        leading_spaces(s) <= s.len(),
        forall|i: int| 0 <= i < leading_spaces(s) ==> is_space(#[trigger] s[i]),
        leading_spaces(s) < s.len() ==> !is_space(s[leading_spaces(s) as int]),
    decreases s.len(),
{
    if s.len() > 0 && is_space(s[0]) {
        let t = s.drop_first();
        lemma_leading_spaces_bound(t);
        assert forall|i: int| 0 <= i < leading_spaces(s) implies is_space(#[trigger] s[i]) by {
            if i > 0 {
                assert(s[i] == t[i - 1]);
            }
        }
        if leading_spaces(s) < s.len() {
            assert(s[leading_spaces(s) as int] == t[leading_spaces(t) as int]);
        }
    }
}

pub proof fn lemma_content_end_bound(s: Seq<char>)
    ensures
        content_end(s) <= s.len(),
        forall|i: int| content_end(s) <= i < s.len() ==> is_space(#[trigger] s[i]),
        content_end(s) > 0 ==> !is_space(s[content_end(s) - 1]),
    decreases s.len(),
{
    if s.len() > 0 && is_space(s.last()) {
        let t = s.drop_last();
        lemma_content_end_bound(t);
        assert forall|i: int| content_end(s) <= i < s.len() implies is_space(#[trigger] s[i]) by {
            if i < s.len() - 1 {
                assert(s[i] == t[i]);
            }
        }
        if content_end(s) > 0 {
            assert(s[content_end(s) - 1] == t[content_end(t) - 1]);
        }
    }
}

/// Number of leading white-space characters of `s`.
fn count_leading_spaces(s: &str) -> (k: usize)
    ensures
        k == leading_spaces(s@),
        k <= s@.len(),
{
    broadcast use vstd::string::group_string_axioms;

    let mut it = s.chars();
    let mut k: usize = 0;
    let n = s.unicode_len();
    assert(s@.skip(0) =~= s@);
    loop
        invariant_except_break
            it.obeys_prophetic_iter_laws(),
            it.remaining() == s@.skip(k as int),
            leading_spaces(s@) == k + leading_spaces(s@.skip(k as int)),
        invariant
            n == s@.len(),
            k <= n,
        ensures
            k == leading_spaces(s@),
        decreases n - k,
    {
        match it.next() {
            Some(c) => {
                if !is_whitespace(c) {
                    break ;
                }
                assert(s@.skip(k as int).drop_first() =~= s@.skip(k + 1));
                k = k + 1;
            },
            None => {
                break ;
            },
        }
    }
    k
}

/// Length of `s`, in characters, once its trailing white space is dropped.
fn find_content_end(s: &str) -> (e: usize)
    ensures
        e == content_end(s@),
        e <= s@.len(),
{
    broadcast use vstd::string::group_string_axioms;

    let mut it = s.chars();
    let mut k: usize = 0;
    let mut e: usize = 0;
    let n = s.unicode_len();
    assert(s@.skip(0) =~= s@);
    loop
        invariant_except_break
            it.obeys_prophetic_iter_laws(),
            it.remaining() == s@.skip(k as int),
        invariant
            n == s@.len(),
            k <= n,
            e == content_end(s@.take(k as int)),
            e <= k,
        ensures
            k == n,
        decreases n - k,
    {
        match it.next() {
            Some(c) => {
                assert(s@.skip(k as int).drop_first() =~= s@.skip(k + 1));
                assert(s@.take(k + 1).drop_last() =~= s@.take(k as int));
                if !is_whitespace(c) {
                    e = k + 1;
                }
                k = k + 1;
            },
            None => {
                break ;
            },
        }
    }
    assert(s@.take(n as int) =~= s@);
    e
}

/// `s` without its leading white space.
pub fn trim_start(s: &str) -> (r: &str)
    ensures
        r@ == trim_start_spec(s@),
{
    let k = count_leading_spaces(s);
    let n = s.unicode_len();
    let r = s.substring_char(k, n);
    assert(s@.subrange(k as int, n as int) =~= s@.skip(k as int));
    r
}

/// `s` without its leading and trailing white space.
pub fn trim(s: &str) -> (r: &str)
    ensures
        r@ == trim_spec(s@),
{
    let t = trim_start(s);
    let e = find_content_end(t);
    let r = t.substring_char(0, e);
    assert(t@.subrange(0, e as int) =~= t@.take(e as int));
    r
}

/// Whether `s` holds nothing but white space, so that trimming leaves it empty.
pub fn is_blank(s: &str) -> (b: bool)
    ensures
        b == blank(s@),
        b == (trim_spec(s@).len() == 0),
{
    let k = count_leading_spaces(s);
    let n = s.unicode_len();
    proof {
        lemma_leading_spaces_bound(s@);
        lemma_blank_trim(s@);
    }
    k == n
}

/// A text is blank exactly when trimming it leaves nothing, and exactly when
/// its leading white space is all of it.
pub proof fn lemma_blank_trim(s: Seq<char>)
    ensures
        blank(s) <==> trim_spec(s).len() == 0,
        blank(s) <==> leading_spaces(s) == s.len(),
{
    lemma_leading_spaces_bound(s);
    let t = trim_start_spec(s);
    lemma_content_end_bound(t);
    if t.len() > 0 {
        assert(t[0] == s[leading_spaces(s) as int]);
        if content_end(t) == 0 {
            assert(is_space(t[0]));
        }
    }
}

/// The character that writes the digit `d`, for `d` from 0 to 9.
pub open spec fn digit_char(d: int) -> char {
    if d == 0 {
        '0'
    } else if d == 1 {
        '1'
    } else if d == 2 {
        '2'
    } else if d == 3 {
        '3'
    } else if d == 4 {
        '4'
    } else if d == 5 {
        '5'
    } else if d == 6 {
        '6'
    } else if d == 7 {
        '7'
    } else if d == 8 {
        '8'
    } else {
        '9'
    }
}

/// The decimal digits of `n`, most significant first, without leading zeros.
pub open spec fn digits_of(n: nat) -> Seq<char>
    decreases n,
{
    if n < 10 {
        seq![digit_char(n as int)]
    } else {
        digits_of(n / 10).push(digit_char((n % 10) as int))
    }
}

/// The decimal text of `n`: a minus sign for a negative number, then its
/// digits.
pub open spec fn decimal(n: int) -> Seq<char> {
    if n < 0 {
        seq!['-'] + digits_of((-n) as nat)
    } else {
        digits_of(n as nat)
    }
}

/// The one-character text of the digit `d`.
fn digit_str(d: u8) -> (r: &'static str)
    requires
        d < 10,
    ensures
        r@ == seq![digit_char(d as int)],
{
    let r = match d {
        0 => "0",
        1 => "1",
        2 => "2",
        3 => "3",
        4 => "4",
        5 => "5",
        6 => "6",
        7 => "7",
        8 => "8",
        _ => "9",
    };
    proof {
        reveal_strlit("0");
        reveal_strlit("1");
        reveal_strlit("2");
        reveal_strlit("3");
        reveal_strlit("4");
        reveal_strlit("5");
        reveal_strlit("6");
        reveal_strlit("7");
        reveal_strlit("8");
        reveal_strlit("9");
        assert(r@ =~= seq![digit_char(d as int)]);
    }
    r
}

/// The decimal text of `n`.
pub fn decimal_text(n: isize) -> (r: String)
    ensures
        r@ == decimal(n as int),
{
    let wide: i128 = n as i128;
    let magnitude: u128 = if wide < 0 {
        (-wide) as u128
    } else {
        wide as u128
    };
    let mut rest: u128 = magnitude;
    let mut acc = String::new();
    loop
        invariant_except_break
            digits_of(magnitude as nat) =~= digits_of(rest as nat) + acc@,
        ensures
            acc@ == digits_of(magnitude as nat),
        decreases rest,
    {
        if rest < 10 {
            acc = String::from_str(digit_str(rest as u8)).concat(acc.as_str());
            break ;
        }
        let ghost before = acc@;
        acc = String::from_str(digit_str((rest % 10) as u8)).concat(acc.as_str());
        assert(digits_of(rest as nat) + before =~= digits_of((rest / 10) as nat) + acc@);
        rest = rest / 10;
    }
    if wide < 0 {
        let r = String::from_str("-").concat(acc.as_str());
        proof {
            reveal_strlit("-");
            assert("-"@ =~= seq!['-']);
        }
        r
    } else {
        acc
    }
}

/// Whether `c` is one of the digits `0` to `9`.
pub open spec fn is_digit(c: char) -> bool {
    0x30 <= c as u32 <= 0x39
}

/// Whether `s` is made of digits alone.
pub open spec fn all_digits(s: Seq<char>) -> bool {
    forall|i: int| 0 <= i < s.len() ==> is_digit(#[trigger] s[i])
}

/// The number that the digits of `s` write in base ten.
pub open spec fn decimal_value(s: Seq<char>) -> nat
    decreases s.len(),
{
    if s.len() == 0 {
        0
    } else {
        (10 * decimal_value(s.drop_last()) + (s.last() as u32 - 0x30)) as nat
    }
}

/// A prefix of a digit string writes no larger a number than the whole.
pub proof fn lemma_decimal_value_prefix(s: Seq<char>, k: int)
    requires
        all_digits(s),
        0 <= k <= s.len(),
    ensures
        decimal_value(s.take(k)) <= decimal_value(s),
    decreases s.len() - k,
{
    if k == s.len() {
        assert(s.take(k) =~= s);
    } else {
        let t = s.drop_last();
        assert(all_digits(t)) by {
            assert forall|i: int| 0 <= i < t.len() implies is_digit(#[trigger] t[i]) by {
                assert(t[i] == s[i]);
            }
        }
        lemma_decimal_value_prefix(t, k);
        assert(t.take(k) =~= s.take(k));
        assert(is_digit(s[s.len() - 1]));
    }
}

/// Reads `s` as a number in base ten that is at most `limit`: `Some` exactly
/// when `s` is a non-empty string of digits of such a value.
fn parse_digits(s: &str, limit: u64) -> (r: Option<u64>)
    ensures
        r is Some <==> s@.len() > 0 && all_digits(s@) && decimal_value(s@) <= limit,
        r matches Some(v) ==> v == decimal_value(s@),
{
    broadcast use vstd::string::group_string_axioms;

    let n = s.unicode_len();
    if n == 0 {
        return None;
    }
    let mut it = s.chars();
    let mut k: usize = 0;
    let mut acc: u64 = 0;
    assert(s@.skip(0) =~= s@);
    loop
        invariant_except_break
            it.obeys_prophetic_iter_laws(),
            it.remaining() == s@.skip(k as int),
        invariant
            n == s@.len(),
            k <= n,
            all_digits(s@.take(k as int)),
            acc <= limit,
            acc == decimal_value(s@.take(k as int)),
        ensures
            k == n,
        decreases n - k,
    {
        match it.next() {
            Some(c) => {
                assert(c == s@[k as int]);
                assert(s@.skip(k as int).drop_first() =~= s@.skip(k + 1));
                assert(s@.take(k + 1).drop_last() =~= s@.take(k as int));
                let code: u32 = c as u32;
                if code < 0x30 || code > 0x39 {
                    assert(!all_digits(s@)) by {
                        assert(!is_digit(s@[k as int]));
                    }
                    return None;
                }
                assert(all_digits(s@.take(k + 1))) by {
                    assert forall|i: int| 0 <= i < k + 1 implies is_digit(
                        #[trigger] s@.take(k + 1)[i],
                    ) by {
                        if i < k {
                            assert(s@.take(k + 1)[i] == s@.take(k as int)[i]);
                        }
                    }
                }
                let next: u128 = (acc as u128) * 10 + ((code - 0x30) as u128);
                assert(next == decimal_value(s@.take(k + 1)));
                if next > limit as u128 {
                    proof {
                        if all_digits(s@) {
                            lemma_decimal_value_prefix(s@, k + 1);
                        }
                    }
                    return None;
                }
                acc = next as u64;
                k = k + 1;
            },
            None => {
                break ;
            },
        }
    }
    assert(s@.take(n as int) =~= s@);
    Some(acc)
}

/// Reads `s` as a number in base ten: `Some` exactly when `s` is a non-empty
/// string of digits whose value fits an `isize`.
pub fn parse_decimal(s: &str) -> (r: Option<isize>)
    ensures
        r is Some <==> s@.len() > 0 && all_digits(s@) && decimal_value(s@) <= isize::MAX,
        r matches Some(v) ==> v == decimal_value(s@),
{
    match parse_digits(s, isize::MAX as u64) {
        Some(v) => Some(v as isize),
        None => None,
    }
}

/// The integer that `s` writes in base ten, if it writes one: digits, or a
/// minus sign and digits.
pub open spec fn integer_value(s: Seq<char>) -> Option<int> {
    if s.len() > 0 && s[0] == '-' {
        if s.len() > 1 && all_digits(s.skip(1)) {
            Some(-(decimal_value(s.skip(1)) as int))
        } else {
            None
        }
    } else if s.len() > 0 && all_digits(s) {
        Some(decimal_value(s) as int)
    } else {
        None
    }
}

/// The integer that `s` writes in base ten, where it writes one that fits an
/// `isize`.
pub open spec fn isize_value(s: Seq<char>) -> Option<int> {
    match integer_value(s) {
        Some(v) => if isize::MIN <= v <= isize::MAX {
            Some(v)
        } else {
            None
        },
        None => None,
    }
}

/// Reads `s` as an integer in base ten, with or without a minus sign: `Some`
/// exactly when `s` writes an integer that fits an `isize`.
pub fn parse_integer(s: &str) -> (r: Option<isize>)
    ensures
        match r {
            Some(v) => isize_value(s@) == Some(v as int),
            None => isize_value(s@) is None,
        },
{
    let n = s.unicode_len();
    if n > 0 && s.get_char(0) == '-' {
        let rest = s.substring_char(1, n);
        assert(s@.subrange(1, n as int) =~= s@.skip(1));
        match parse_digits(rest, isize::MAX as u64 + 1) {
            Some(v) => {
                if v == isize::MAX as u64 + 1 {
                    Some(isize::MIN)
                } else {
                    Some(-(v as isize))
                }
            },
            None => None,
        }
    } else {
        assert(n > 0 ==> !all_digits(s@) || s@[0] != '-') by {
            if n > 0 && s@[0] == '-' {
                assert(!is_digit(s@[0]));
            }
        }
        parse_decimal(s)
    }
}

/// Whether `a` and `b` hold the same characters.
pub fn same_text(a: &str, b: &str) -> (r: bool)
    ensures
        r == (a@ == b@),
{
    let x = a.to_owned();
    let y = b.to_owned();
    x == y
}

/// Whether `a` comes before `b` in the order of texts: the texts are
/// compared character by character, by code point, and a text comes before
/// every longer text that starts with it.
pub open spec fn text_before(a: Seq<char>, b: Seq<char>) -> bool
    decreases a.len(),
{
    if b.len() == 0 {
        false
    } else if a.len() == 0 {
        true
    } else if a[0] != b[0] {
        a[0] < b[0]
    } else {
        text_before(a.drop_first(), b.drop_first())
    }
}

/// Of two different texts one comes before the other.
pub proof fn lemma_text_order_total(a: Seq<char>, b: Seq<char>)
    ensures
        text_before(a, b) || text_before(b, a) || a == b,
    decreases a.len(),
{
    if a.len() == 0 && b.len() == 0 {
        assert(a =~= b);
    } else if a.len() == 0 {
        assert(text_before(a, b));
    } else if b.len() == 0 {
        assert(text_before(b, a));
    } else if a[0] != b[0] {
        assert(text_before(a, b) || text_before(b, a));
    } else {
        let x = a.drop_first();
        let y = b.drop_first();
        lemma_text_order_total(x, y);
        if x == y {
            assert(x.len() == a.len() - 1);
            assert(y.len() == b.len() - 1);
            assert forall|i: int| 0 <= i < a.len() implies a[i] == b[i] by {
                if i > 0 {
                    assert(a[i] == x[i - 1]);
                    assert(b[i] == y[i - 1]);
                }
            }
            assert(a =~= b);
        } else if text_before(x, y) {
            assert(text_before(a, b));
        } else {
            assert(text_before(b, a));
        }
    }
}

/// No text comes before itself, and of two texts at most one comes before
/// the other.
pub proof fn lemma_text_order_strict(a: Seq<char>, b: Seq<char>)
    ensures
        !(text_before(a, b) && text_before(b, a)),
        !text_before(a, a),
    decreases a.len(),
{
    if a.len() > 0 {
        lemma_text_order_strict(a.drop_first(), a.drop_first());
        if b.len() > 0 && a[0] == b[0] {
            lemma_text_order_strict(a.drop_first(), b.drop_first());
        }
    }
}

/// What comes before a text comes before everything behind that text.
pub proof fn lemma_text_order_transitive(a: Seq<char>, b: Seq<char>, c: Seq<char>)
    requires
        text_before(a, b),
        text_before(b, c),
    ensures
        text_before(a, c),
    decreases a.len(),
{
    if a.len() > 0 && a[0] == b[0] && b[0] == c[0] {
        lemma_text_order_transitive(a.drop_first(), b.drop_first(), c.drop_first());
    }
}

/// Whether `a` comes before `b` in the order of texts.
pub fn comes_before(a: &str, b: &str) -> (r: bool)
    ensures
        r == text_before(a@, b@),
{
    broadcast use vstd::string::group_string_axioms;

    let n = a.unicode_len();
    let mut x = a.chars();
    let mut y = b.chars();
    let mut k: usize = 0;
    assert(a@.skip(0) =~= a@);
    assert(b@.skip(0) =~= b@);
    loop
        invariant
            n == a@.len(),
            k <= n,
            k <= b@.len(),
            x.obeys_prophetic_iter_laws(),
            y.obeys_prophetic_iter_laws(),
            x.remaining() == a@.skip(k as int),
            y.remaining() == b@.skip(k as int),
            text_before(a@, b@) == text_before(a@.skip(k as int), b@.skip(k as int)),
        decreases n - k,
    {
        let ghost rest_a = a@.skip(k as int);
        let ghost rest_b = b@.skip(k as int);
        match y.next() {
            None => {
                return false;
            },
            Some(in_b) => {
                match x.next() {
                    None => {
                        return true;
                    },
                    Some(in_a) => {
                        assert(rest_a.len() > 0 && rest_b.len() > 0);
                        assert(in_a == rest_a[0] && in_b == rest_b[0]);
                        if in_a != in_b {
                            return in_a < in_b;
                        }
                        assert(k < n);
                        assert(rest_a.drop_first() =~= a@.skip(k + 1));
                        assert(rest_b.drop_first() =~= b@.skip(k + 1));
                        k = k + 1;
                    },
                }
            },
        }
    }
}

} // verus!
