//! Character strings: comparison, construction and decimal numerals.

use vstd::prelude::*;

verus! {

/// Whether two strings hold the same characters.
pub fn same_text(a: &str, b: &str) -> (same: bool)
    ensures
        same == (a@ == b@),
{
    let x = a.as_bytes();
    let y = b.as_bytes();
    proof {
        vstd::utf8::encode_utf8_decode_utf8(a@);
        vstd::utf8::encode_utf8_decode_utf8(b@);
    }
    if x.len() != y.len() {
        return false;
    }
    let mut i: usize = 0;
    while i < x.len()
        invariant
            i <= x.len(),
            x.len() == y.len(),
            x@ == vstd::utf8::encode_utf8(a@),
            y@ == vstd::utf8::encode_utf8(b@),
            forall|k: int| 0 <= k < i ==> x@[k] == y@[k],
        decreases x.len() - i,
    {
        if x[i] != y[i] {
            return false;
        }
        i += 1;
    }
    assert(x@ =~= y@);
    true
}

/// The characters of a string, one by one.
pub fn chars_of(s: &str) -> (chars: Vec<char>)
    ensures
        chars@ == s@,
{
    let mut chars: Vec<char> = Vec::new();
    for c in it: s.chars()
        invariant
            chars@ == s@.take(it.index() as int),
            it.seq() == s@,
    {
        chars.push(c);
    }
    assert(chars@ == s@.take(s@.len() as int));
    chars
}

/// The characters `from..to` of `text`, as a string of their own. `ascii`
/// says that the whole text is known to be ASCII, in which case the piece
/// is found without walking through the text.
pub fn piece_of(text: &str, ascii: bool, from: usize, to: usize) -> (piece: String)
    requires
        ascii ==> text.is_ascii(),
        from <= to <= text@.len(),
    ensures
        piece@ == text@.subrange(from as int, to as int),
{
    if ascii {
        String::from_str(text.substring_ascii(from, to))
    } else {
        String::from_str(text.substring_char(from, to))
    }
}

pub open spec fn is_digit(c: char) -> bool {
    '0' <= c <= '9'
}

/// The number that a decimal digit stands for.
pub open spec fn digit_value(c: char) -> int {
    c as int - '0' as int
}

/// The decimal digit for a number below ten.
pub open spec fn digit_char(d: int) -> char {
    (d + '0' as int) as char
}

/// A non-empty run of decimal digits.
pub open spec fn is_numeral(s: Seq<char>) -> bool {
    &&& s.len() > 0
    &&& forall|i: int| 0 <= i < s.len() ==> is_digit(#[trigger] s[i])
}

/// The number that a run of decimal digits denotes.
pub open spec fn numeral_value(s: Seq<char>) -> int
    decreases s.len(),
{
    if s.len() == 0 {
        0
    } else {
        10 * numeral_value(s.drop_last()) + digit_value(s.last())
    }
}

/// The 32-bit number that a word denotes: the word must be a numeral, with
/// any number of leading zeros, whose value fits.
pub open spec fn parse_decimal(s: Seq<char>) -> Option<i32> {
    if is_numeral(s) && numeral_value(s) <= i32::MAX {
        Some(numeral_value(s) as i32)
    } else {
        None
    }
}

/// The decimal digits of a natural number, most significant first, without
/// leading zeros.
pub open spec fn digits_of(n: nat) -> Seq<char>
    decreases n,
{
    if n < 10 {
        seq![digit_char(n as int)]
    } else {
        digits_of(n / 10).push(digit_char((n % 10) as int))
    }
}

/// The decimal rendering of an integer.
pub open spec fn decimal_text(n: int) -> Seq<char> {
    if n < 0 {
        seq!['-'] + digits_of((-n) as nat)
    } else {
        digits_of(n as nat)
    }
}

pub proof fn lemma_numeral_value_bounds(s: Seq<char>)
    requires
        forall|i: int| 0 <= i < s.len() ==> is_digit(#[trigger] s[i]),
    ensures
        0 <= numeral_value(s),
        s.len() > 0 ==> numeral_value(s) >= 10 * numeral_value(s.drop_last()),
    decreases s.len(),
{
    if s.len() > 0 {
        lemma_numeral_value_bounds(s.drop_last());
    }
}

/// A numeral is worth at least as much as each of its prefixes.
pub proof fn lemma_numeral_value_monotone(s: Seq<char>, n: int)
    requires
        forall|i: int| 0 <= i < s.len() ==> is_digit(#[trigger] s[i]),
        0 <= n <= s.len(),
    ensures
        numeral_value(s.take(n)) <= numeral_value(s),
    decreases s.len() - n,
{
    if n == s.len() {
        assert(s.take(n) =~= s);
    } else {
        lemma_numeral_value_monotone(s, n + 1);
        lemma_numeral_value_bounds(s.take(n + 1));
        assert(s.take(n + 1).drop_last() =~= s.take(n));
        lemma_numeral_value_bounds(s.take(n));
    }
}

/// Reads `chars[from..to]` as a decimal number.
pub fn parse_decimal_in(chars: &Vec<char>, from: usize, to: usize) -> (number: Option<i32>)
    requires
        from <= to <= chars.len(),
    ensures
        number == parse_decimal(chars@.subrange(from as int, to as int)),
{
    let ghost word = chars@.subrange(from as int, to as int);
    if from == to {
        return None;
    }
    let mut value: i32 = 0;
    let mut i: usize = from;
    while i < to
        invariant
            from <= i <= to <= chars.len(),
            word == chars@.subrange(from as int, to as int),
            forall|k: int| 0 <= k < i - from ==> is_digit(#[trigger] word[k]),
            value == numeral_value(word.take(i - from)),
            0 <= value,
        decreases to - i,
    {
        let c = chars[i];
        assert(c == word[i - from]);
        if !('0' <= c && c <= '9') {
            return None;
        }
        let d: i32 = (c as u32 - '0' as u32) as i32;
        assert(d == digit_value(c));
        proof {
            assert(word.take(i + 1 - from).drop_last() =~= word.take(i - from));
            assert(word.take(i + 1 - from).last() == c);
        }
        if value > (i32::MAX - d) / 10 {
            proof {
                if is_numeral(word) {
                    lemma_numeral_value_monotone(word, i + 1 - from);
                }
            }
            return None;
        }
        value = value * 10 + d;
        i += 1;
    }
    assert(word.take(to - from) =~= word);
    Some(value)
}

/// The digits of `n`, least significant first.
pub open spec fn digits_reversed(n: nat) -> Seq<char>
    decreases n,
{
    if n < 10 {
        seq![digit_char(n as int)]
    } else {
        seq![digit_char((n % 10) as int)] + digits_reversed(n / 10)
    }
}

pub proof fn lemma_digits_reversed(n: nat)
    ensures
        digits_reversed(n).reverse() == digits_of(n),
        digits_reversed(n).len() >= 1,
    decreases n,
{
    if n < 10 {
        assert(digits_reversed(n).reverse() =~= digits_of(n));
    } else {
        lemma_digits_reversed(n / 10);
        let head = seq![digit_char((n % 10) as int)];
        let tail = digits_reversed(n / 10);
        assert((head + tail).reverse() =~= tail.reverse().push(head[0]));
    }
}

/// The decimal rendering of a number.
pub fn render_number(n: i32) -> (text: String)
    ensures
        text@ == decimal_text(n as int),
{
    let mut text = String::new();
    let wide: i64 = n as i64;
    let mut rest: u64 = if n < 0 {
        proof {
            reveal_strlit("-");
        }
        text.append("-");
        (-wide) as u64
    } else {
        wide as u64
    };
    let ghost magnitude: nat = rest as nat;
    let ghost sign = text@;
    assert(sign =~= if n < 0 { seq!['-'] } else { Seq::<char>::empty() });
    let mut low: Vec<u8> = Vec::new();
    while rest >= 10
        invariant
            forall|k: int| 0 <= k < low.len() ==> #[trigger] low@[k] < 10,
            digit_chars(low@) + digits_reversed(rest as nat) == digits_reversed(magnitude),
        decreases rest,
    {
        let d: u8 = (rest % 10) as u8;
        low.push(d);
        assert(digit_chars(low@) + digits_reversed((rest / 10) as nat) =~= digit_chars(
            low@.drop_last(),
        ) + digits_reversed(rest as nat));
        rest = rest / 10;
    }
    low.push(rest as u8);
    assert(digit_chars(low@) =~= digit_chars(low@.drop_last()) + digits_reversed(rest as nat));
    proof {
        lemma_digits_reversed(magnitude);
    }
    let mut i: usize = low.len();
    while i > 0
        invariant
            i <= low.len(),
            forall|k: int| 0 <= k < low.len() ==> #[trigger] low@[k] < 10,
            text@ == sign + digit_chars(low@).reverse().take(low.len() - i),
        decreases i,
    {
        i -= 1;
        text.append(digit_text(low[i]));
        assert(digit_chars(low@).reverse().take(low.len() - i) =~= digit_chars(
            low@,
        ).reverse().take(low.len() - i - 1) + seq![digit_char(low@[i as int] as int)]);
    }
    assert(digit_chars(low@).reverse().take(low.len() as int) =~= digit_chars(low@).reverse());
    assert(text@ =~= decimal_text(n as int));
    text
}

/// The digits for a run of numbers below ten.
pub open spec fn digit_chars(digits: Seq<u8>) -> Seq<char> {
    digits.map_values(|d: u8| digit_char(d as int))
}

/// The digit for a number below ten, as a text of one character.
fn digit_text(d: u8) -> (text: &'static str)
    requires
        d < 10,
    ensures
        text@ == seq![digit_char(d as int)],
{
    proof {
        reveal_strlit("0");
        reveal_strlit("1");
        reveal_strlit("2");
        reveal_strlit("3");
        reveal_strlit("4");
        reveal_strlit("5");
        reveal_strlit("6");
        reveal_strlit("7");
        reveal_strlit("8");
        reveal_strlit("9");
    }
    let text = if d == 0 {
        "0"
    } else if d == 1 {
        "1"
    } else if d == 2 {
        "2"
    } else if d == 3 {
        "3"
    } else if d == 4 {
        "4"
    } else if d == 5 {
        "5"
    } else if d == 6 {
        "6"
    } else if d == 7 {
        "7"
    } else if d == 8 {
        "8"
    } else {
        "9"
    };
    assert(text@ =~= seq![digit_char(d as int)]);
    text
}

} // verus!
