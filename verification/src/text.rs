//! Text helpers: characters of a string, decimal numerals, white space,
//! lines and columns.

use vstd::prelude::*;
use vstd::std_specs::iter::IteratorSpec;
use vstd::string::*;

verus! {

/// The characters of `s`, in order.
pub fn chars_of(s: &str) -> (r: Vec<char>)
    ensures
        r@ == s@,
{
    broadcast use vstd::string::group_string_axioms;

    let n = s.unicode_len();
    let mut rest = s.chars();
    let mut out: Vec<char> = Vec::new();
    assert(out@ + rest.remaining() =~= s@);
    while out.len() < n
        invariant
            n == s@.len(),
            out@ + rest.remaining() == s@,
            rest.obeys_prophetic_iter_laws(),
        decreases n - out.len(),
    {
        let ghost before = rest.remaining();
        assert(before.len() > 0);
        let next = rest.next();
        let c = next.unwrap();
        out.push(c);
        assert(out@ + rest.remaining() =~= s@);
    }
    assert(out@ =~= s@);
    out
}

/// The decimal digit for `d`, where `d` is at most 9.
pub open spec fn digit_char(d: int) -> char {
    if d == 0 {
        '0'
    } else if d == 1 {
        '1'
    } else if d == 2 {
        '2'
    } else if d == 3 {
        '3'
    } else if d == 4 {
        '4'
    } else if d == 5 {
        '5'
    } else if d == 6 {
        '6'
    } else if d == 7 {
        '7'
    } else if d == 8 {
        '8'
    } else {
        '9'
    }
}

/// Whether `c` is one of the ten decimal digits.
pub open spec fn is_digit(c: char) -> bool {
    '0' <= c <= '9'
}

/// The value of the decimal digit `c`.
pub open spec fn digit_value(c: char) -> int {
    c as int - '0' as int
}

/// The numeral of a natural number: no sign, no leading zero.
pub open spec fn decimal_digits(n: nat) -> Seq<char>
    decreases n,
{
    if n < 10 {
        seq![digit_char(n as int)]
    } else {
        decimal_digits(n / 10).push(digit_char((n % 10) as int))
    }
}

/// The numeral of an integer: `-` in front of a negative one.
pub open spec fn decimal(i: int) -> Seq<char> {
    if i < 0 {
        seq!['-'] + decimal_digits((-i) as nat)
    } else {
        decimal_digits(i as nat)
    }
}

/// The text of a boolean: `true` or `false`.
pub open spec fn bool_text(b: bool) -> Seq<char> {
    if b {
        "true"@
    } else {
        "false"@
    }
}

/// The one-character string of the digit `d`.
fn digit_str(d: u32) -> (r: &'static str)
    requires
        d < 10,
    ensures
        r@ == seq![digit_char(d as int)],
{
    proof {
        reveal_strlit("0");
        reveal_strlit("1");
        reveal_strlit("2");
        reveal_strlit("3");
        reveal_strlit("4");
        reveal_strlit("5");
        reveal_strlit("6");
        reveal_strlit("7");
        reveal_strlit("8");
        reveal_strlit("9");
    }
    let r = if d == 0 {
        "0"
    } else if d == 1 {
        "1"
    } else if d == 2 {
        "2"
    } else if d == 3 {
        "3"
    } else if d == 4 {
        "4"
    } else if d == 5 {
        "5"
    } else if d == 6 {
        "6"
    } else if d == 7 {
        "7"
    } else if d == 8 {
        "8"
    } else {
        "9"
    };
    assert(r@ =~= seq![digit_char(d as int)]);
    r
}

/// Appends the numeral of `n` to `out`.
fn push_digits(n: u32, out: &mut String)
    ensures
        final(out)@ == old(out)@ + decimal_digits(n as nat),
    decreases n,
{
    if n >= 10 {
        push_digits(n / 10, out);
    }
    out.append(digit_str(n % 10));
    assert(out@ =~= old(out)@ + decimal_digits(n as nat));
}

/// Appends the numeral of `i` to `out`.
pub fn push_int(i: i32, out: &mut String)
    ensures
        final(out)@ == old(out)@ + decimal(i as int),
{
    if i < 0 {
        proof {
            reveal_strlit("-");
        }
        out.append("-");
        let m: u32 = (-(i as i64)) as u32;
        push_digits(m, out);
        assert(out@ =~= old(out)@ + decimal(i as int));
    } else {
        push_digits(i as u32, out);
    }
}

/// Appends `true` or `false` to `out`.
pub fn push_bool(b: bool, out: &mut String)
    ensures
        final(out)@ == old(out)@ + bool_text(b),
{
    if b {
        out.append("true");
    } else {
        out.append("false");
    }
}

/// The number that a string of decimal digits stands for.
pub open spec fn digits_value(s: Seq<char>) -> int
    decreases s.len(),
{
    if s.len() == 0 {
        0
    } else {
        digits_value(s.drop_last()) * 10 + digit_value(s.last())
    }
}

/// Whether `s` holds decimal digits only.
pub open spec fn all_digits(s: Seq<char>) -> bool {
    forall|i: int| 0 <= i < s.len() ==> is_digit(#[trigger] s[i])
}

/// The integer that `s` is the numeral of: an optional `+` or `-`, then at
/// least one digit, and a value that a signed 32-bit integer holds.
pub open spec fn parse_int_spec(s: Seq<char>) -> Option<i32> {
    let signed = s.len() > 0 && (s[0] == '-' || s[0] == '+');
    let body = if signed {
        s.drop_first()
    } else {
        s
    };
    let magnitude = digits_value(body);
    let value = if s.len() > 0 && s[0] == '-' {
        -magnitude
    } else {
        magnitude
    };
    if body.len() > 0 && all_digits(body) && i32::MIN <= value <= i32::MAX {
        Some(value as i32)
    } else {
        None
    }
}

/// A string of digits is worth at least as much as each of its prefixes.
pub proof fn lemma_digits_value_grows(s: Seq<char>, k: int)
    requires
        all_digits(s),
        0 <= k <= s.len(),
    ensures
        0 <= digits_value(s.subrange(0, k)) <= digits_value(s),
    decreases s.len(),
{
    if s.len() == 0 {
        assert(s.subrange(0, k) =~= s);
    } else if k == s.len() {
        assert(s.subrange(0, k) =~= s);
        lemma_digits_value_grows(s.drop_last(), k - 1);
        assert(s.drop_last().subrange(0, k - 1) =~= s.drop_last());
    } else {
        lemma_digits_value_grows(s.drop_last(), k);
        assert(s.drop_last().subrange(0, k) =~= s.subrange(0, k));
        lemma_digits_value_grows(s.drop_last(), s.len() - 1);
        assert(s.drop_last().subrange(0, s.len() - 1) =~= s.drop_last());
    }
}

/// The numeral of a natural number holds digits only, at least one, and
/// stands for that number.
pub proof fn lemma_decimal_digits(n: nat)
    ensures
        decimal_digits(n).len() >= 1,
        all_digits(decimal_digits(n)),
        digits_value(decimal_digits(n)) == n,
    decreases n,
{
    reveal_with_fuel(digits_value, 2);
    if n < 10 {
        let s = seq![digit_char(n as int)];
        assert(s.drop_last() =~= Seq::<char>::empty());
    } else {
        lemma_decimal_digits(n / 10);
        let front = decimal_digits(n / 10);
        let s = front.push(digit_char((n % 10) as int));
        assert(s.drop_last() =~= front);
        assert forall|i: int| 0 <= i < s.len() implies is_digit(#[trigger] s[i]) by {
            if i < front.len() {
                assert(s[i] == front[i]);
            }
        }
    }
}

/// Reading the numeral of an integer gives the integer back.
pub proof fn lemma_numeral_round_trip(i: i32)
    ensures
        parse_int_spec(decimal(i as int)) == Some(i),
{
    if i < 0 {
        let n = (-(i as int)) as nat;
        lemma_decimal_digits(n);
        let s = seq!['-'] + decimal_digits(n);
        assert(s[0] == '-');
        assert(s.drop_first() =~= decimal_digits(n));
    } else {
        let n = i as nat;
        lemma_decimal_digits(n);
        let s = decimal_digits(n);
        assert(is_digit(s[0]));
    }
}

/// Reads the numeral in `chars[from..]`.
pub fn parse_int_chars(chars: &Vec<char>, from: usize) -> (r: Option<i32>)
    requires
        from <= chars.len(),
    ensures
        r == parse_int_spec(chars@.subrange(from as int, chars.len() as int)),
{
    let ghost s = chars@.subrange(from as int, chars.len() as int);
    let n = chars.len();
    if from == n {
        return None;
    }
    let negative = chars[from] == '-';
    let signed = negative || chars[from] == '+';
    let start: usize = if signed {
        from + 1
    } else {
        from
    };
    let ghost body = if signed {
        s.drop_first()
    } else {
        s
    };
    assert(body =~= chars@.subrange(start as int, n as int));
    if start == n {
        return None;
    }
    let mut acc: i64 = 0;
    let mut i: usize = start;
    while i < n
        invariant
            start <= i <= n,
            n == chars.len(),
            from <= start < n,
            s == chars@.subrange(from as int, n as int),
            signed == (s[0] == '-' || s[0] == '+'),
            negative == (s[0] == '-'),
            body == if signed {
                s.drop_first()
            } else {
                s
            },
            body == chars@.subrange(start as int, n as int),
            all_digits(body.subrange(0, i - start)),
            acc == digits_value(body.subrange(0, i - start)),
            0 <= acc <= 0x8000_0000,
        decreases n - i,
    {
        let c = chars[i];
        if !('0' <= c && c <= '9') {
            assert(body[i - start] == c);
            assert(!all_digits(body));
            return None;
        }
        let d: i64 = (c as u32 - '0' as u32) as i64;
        let ghost prefix = body.subrange(0, i - start + 1);
        assert(prefix.drop_last() =~= body.subrange(0, i - start));
        assert(prefix.last() == c);
        assert(all_digits(prefix)) by {
            assert forall|j: int| 0 <= j < prefix.len() implies is_digit(#[trigger] prefix[j]) by {
                if j < i - start {
                    assert(prefix[j] == body.subrange(0, i - start)[j]);
                }
            }
        }
        acc = acc * 10 + d;
        assert(acc == digits_value(prefix));
        if acc > 0x8000_0000 {
            proof {
                if all_digits(body) {
                    lemma_digits_value_grows(body, i - start + 1);
                }
            }
            return None;
        }
        i += 1;
    }
    assert(body.subrange(0, n - start) =~= body);
    let value: i64 = if negative {
        -acc
    } else {
        acc
    };
    if value > 0x7fff_ffff {
        None
    } else {
        Some(value as i32)
    }
}

/// Reads the numeral that `s` is.
pub fn parse_int(s: &str) -> (r: Option<i32>)
    ensures
        r == parse_int_spec(s@),
{
    let chars = chars_of(s);
    assert(chars@.subrange(0, chars.len() as int) =~= s@);
    parse_int_chars(&chars, 0)
}

/// The white space that trimming removes.
pub open spec fn is_space(c: char) -> bool {
    let n = c as u32;
    ||| 0x09 <= n <= 0x0d
    ||| n == 0x20
    ||| n == 0x85
    ||| n == 0xa0
    ||| n == 0x1680
    ||| 0x2000 <= n <= 0x200a
    ||| n == 0x2028
    ||| n == 0x2029
    ||| n == 0x202f
    ||| n == 0x205f
    ||| n == 0x3000
}

/// Tests whether `c` is white space.
pub fn char_is_space(c: char) -> (r: bool)
    ensures
        r == is_space(c),
{
    let n: u32 = c as u32;
    (0x09 <= n && n <= 0x0d) || n == 0x20 || n == 0x85 || n == 0xa0 || n == 0x1680 || (0x2000 <= n
        && n <= 0x200a) || n == 0x2028 || n == 0x2029 || n == 0x202f || n == 0x205f || n == 0x3000
}

/// The first index at or after `i` that holds no white space, or the length.
pub open spec fn skip_space(s: Seq<char>, i: int) -> int
    decreases s.len() - i,
{
    if 0 <= i < s.len() && is_space(s[i]) {
        skip_space(s, i + 1)
    } else {
        i
    }
}

/// The end of `s[lo..j]` once the white space at its end is left out.
pub open spec fn drop_space(s: Seq<char>, lo: int, j: int) -> int
    decreases j,
{
    if 0 <= lo < j <= s.len() && is_space(s[j - 1]) {
        drop_space(s, lo, j - 1)
    } else {
        j
    }
}

/// `s` without the white space at its end.
pub open spec fn trimmed_end(s: Seq<char>) -> Seq<char> {
    s.subrange(0, drop_space(s, 0, s.len() as int))
}

/// Skipping white space goes forward over white space only, and stops at
/// the end or at a character that is none.
pub proof fn lemma_skip_space(s: Seq<char>, i: int)
    requires
        0 <= i <= s.len(),
    ensures
        i <= skip_space(s, i) <= s.len(),
        forall|k: int| i <= k < skip_space(s, i) ==> is_space(#[trigger] s[k]),
        skip_space(s, i) < s.len() ==> !is_space(s[skip_space(s, i)]),
        skip_space(s, skip_space(s, i)) == skip_space(s, i),
    decreases s.len() - i,
{
    if i < s.len() && is_space(s[i]) {
        lemma_skip_space(s, i + 1);
    }
}

/// Dropping white space goes back over white space only, and stops at `lo`
/// or behind a character that is none.
pub proof fn lemma_drop_space(s: Seq<char>, lo: int, j: int)
    requires
        0 <= lo <= j <= s.len(),
    ensures
        lo <= drop_space(s, lo, j) <= j,
        forall|k: int| drop_space(s, lo, j) <= k < j ==> is_space(#[trigger] s[k]),
        lo < drop_space(s, lo, j) ==> !is_space(s[drop_space(s, lo, j) - 1]),
    decreases j,
{
    if lo < j && is_space(s[j - 1]) {
        lemma_drop_space(s, lo, j - 1);
    }
}

/// Trimming takes away white space only, at the end, and all of it: what
/// is left starts as the text does and does not end with white space.
pub proof fn lemma_trimmed_end(s: Seq<char>)
    ensures
        trimmed_end(s).is_prefix_of(s),
        forall|k: int| trimmed_end(s).len() <= k < s.len() ==> is_space(#[trigger] s[k]),
        trimmed_end(s).len() > 0 ==> !is_space(trimmed_end(s).last()),
{
    lemma_drop_space(s, 0, s.len() as int);
}

/// A copy of `s` without the white space at its end.
pub fn trim_end(s: &str) -> (r: String)
    ensures
        r@ == trimmed_end(s@),
{
    let chars = chars_of(s);
    let n = chars.len();
    let mut hi: usize = n;
    while 0 < hi && char_is_space(chars[hi - 1])
        invariant
            hi <= n,
            n == chars.len(),
            chars@ == s@,
            drop_space(s@, 0, n as int) == drop_space(s@, 0, hi as int),
        decreases hi,
    {
        hi -= 1;
    }
    String::from_str(s.substring_char(0, hi))
}

/// How many line breaks stand in front of `position`: the line of
/// `position`, counted from 0.
pub open spec fn line_of(s: Seq<char>, position: int) -> int
    decreases position,
{
    if position <= 0 {
        0
    } else if s[position - 1] == '\n' {
        line_of(s, position - 1) + 1
    } else {
        line_of(s, position - 1)
    }
}

/// How many characters stand between `position` and the last line break in
/// front of it: the column of `position`, counted from 0.
pub open spec fn column_of(s: Seq<char>, position: int) -> int
    decreases position,
{
    if position <= 0 || s[position - 1] == '\n' {
        0
    } else {
        column_of(s, position - 1) + 1
    }
}

/// The line and the column of `position` in `s`, both counted from 0.
pub fn line_and_column(s: &str, position: usize) -> (r: (usize, usize))
    requires
        position <= s@.len(),
    ensures
        r.0 == line_of(s@, position as int),
        r.1 == column_of(s@, position as int),
{
    let chars = chars_of(s);
    let mut line: usize = 0;
    let mut column: usize = 0;
    let mut i: usize = 0;
    while i < position
        invariant
            i <= position <= chars.len(),
            chars@ == s@,
            line == line_of(s@, i as int),
            column == column_of(s@, i as int),
            line <= i,
            column <= i,
        decreases position - i,
    {
        if chars[i] == '\n' {
            line += 1;
            column = 0;
        } else {
            column += 1;
        }
        i += 1;
    }
    (line, column)
}

} // verus!
