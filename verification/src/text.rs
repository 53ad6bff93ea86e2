//! Writing numbers and marked-up text.

use crate::hex;
use vstd::prelude::*;

verus! {

/// `String::push` of the standard library appends the character.
pub assume_specification[ String::push ](s: &mut String, c: char)
    ensures
        final(s)@ == old(s)@.push(c),
;

/// The character of a digit, in bases up to sixteen.
pub open spec fn digit(d: int) -> char {
    if d < 10 {
        (48 + d) as char
    } else {
        (87 + d) as char
    }
}

/// Decimal digits of a number.
pub open spec fn digits(n: nat) -> Seq<char>
    decreases n,
{
    if n < 10 {
        seq![digit(n as int)]
    } else {
        digits(n / 10).push(digit(n as int % 10))
    }
}

/// Decimal form of a number.
pub open spec fn decimal(n: int) -> Seq<char> {
    if n < 0 {
        seq!['-'] + digits((-n) as nat)
    } else {
        digits(n as nat)
    }
}

/// Two hexadecimal digits of a byte.
pub open spec fn hex_pair(b: u8) -> Seq<char> {
    seq![digit(b as int / 16), digit(b as int % 16)]
}

/// A digit as a character.
pub fn digit_char(d: u8) -> (c: char)
    requires
        d < 16,
    ensures
        c == digit(d as int),
{
    if d < 10 {
        (48 + d) as char
    } else {
        (87 + d) as char
    }
}

fn push_digits(out: &mut String, n: u64)
    ensures
        final(out)@ == old(out)@ + digits(n as nat),
    decreases n,
{
    let ghost before = out@;
    if n >= 10 {
        push_digits(out, n / 10);
    }
    out.push(digit_char((n % 10) as u8));
    proof {
        assert(out@ =~= before + digits(n as nat));
    }
}

/// Append a whole number in decimal.
pub fn push_decimal(out: &mut String, n: i64)
    ensures
        final(out)@ == old(out)@ + decimal(n as int),
{
    let ghost before = out@;
    if n < 0 {
        out.push('-');
        push_digits(out, (-(n as i128)) as u64);
        proof {
            assert(out@ =~= before + decimal(n as int));
        }
    } else {
        push_digits(out, n as u64);
    }
}

/// Append a byte as two hexadecimal digits.
pub fn push_hex(out: &mut String, b: u8)
    ensures
        final(out)@ == old(out)@ + hex_pair(b),
{
    let ghost before = out@;
    out.push(digit_char(b / 16));
    out.push(digit_char(b % 16));
    proof {
        assert(out@ =~= before + hex_pair(b));
    }
}

/// What a character becomes in marked-up text.
pub open spec fn escaped_char(c: char) -> Seq<char> {
    if c == '&' {
        seq!['&', 'a', 'm', 'p', ';']
    } else if c == '<' {
        seq!['&', 'l', 't', ';']
    } else if c == '>' {
        seq!['&', 'g', 't', ';']
    } else {
        seq![c]
    }
}

/// What a text becomes in marked-up text, character by character.
pub open spec fn escaped(s: Seq<char>) -> Seq<char>
    decreases s.len(),
{
    if s.len() == 0 {
        Seq::empty()
    } else {
        escaped(s.drop_last()) + escaped_char(s.last())
    }
}

/// Text with the characters that have a meaning in markup replaced by
/// entities.
pub fn escape(s: &str) -> (out: String)
    ensures
        out@ == escaped(s@),
{
    let mut out: String = String::new();
    proof {
        reveal_strlit("&amp;");
        reveal_strlit("&lt;");
        reveal_strlit("&gt;");
        assert("&amp;"@ =~= seq!['&', 'a', 'm', 'p', ';']);
        assert("&lt;"@ =~= seq!['&', 'l', 't', ';']);
        assert("&gt;"@ =~= seq!['&', 'g', 't', ';']);
        assert(s@.take(0) =~= Seq::empty());
    }
    for c in it: s.chars()
        invariant
            "&amp;"@ == seq!['&', 'a', 'm', 'p', ';'],
            "&lt;"@ == seq!['&', 'l', 't', ';'],
            "&gt;"@ == seq!['&', 'g', 't', ';'],
            it.seq() == s@,
            out@ == escaped(s@.take(it.index() as int)),
    {
        let ghost done = s@.take(it.index() as int);
        let ghost before = out@;
        if c == '&' {
            out.append("&amp;");
        } else if c == '<' {
            out.append("&lt;");
        } else if c == '>' {
            out.append("&gt;");
        } else {
            out.push(c);
        }
        proof {
            let next = s@.take(it.index() as int + 1);
            assert(next.drop_last() =~= done);
            assert(next.last() == c);
            assert(out@ =~= before + escaped_char(c));
        }
    }
    proof {
        assert(s@.take(s@.len() as int) =~= s@);
    }
    out
}

/// The number that a digit stands for.
pub open spec fn digit_value(c: char) -> int {
    if '0' <= c <= '9' {
        c as int - '0' as int
    } else {
        c as int - 'a' as int + 10
    }
}

/// The number that decimal digits stand for.
pub open spec fn number_of(s: Seq<char>) -> int
    decreases s.len(),
{
    if s.len() == 0 {
        0
    } else {
        10 * number_of(s.drop_last()) + digit_value(s.last())
    }
}

/// Digits read back as the numbers that they were written for, in lower case.
pub proof fn digits_read_back(d: int)
    requires
        0 <= d < 16,
    ensures
        digit_value(digit(d)) == d,
        '0' <= digit(d) <= '9' || 'a' <= digit(d) <= 'f',
{
}

/// Numbers read back from their digits, which start with a zero only for zero.
pub proof fn numbers_read_back(n: nat)
    ensures
        number_of(digits(n)) == n,
        digits(n).len() > 0,
        digits(n)[0] == '0' <==> n == 0,
        forall|i: int| 0 <= i < digits(n).len() ==> '0' <= #[trigger] digits(n)[i] <= '9',
    decreases n,
{
    if n < 10 {
        digits_read_back(n as int);
        assert(digits(n).drop_last() =~= Seq::<char>::empty());
        assert(number_of(Seq::<char>::empty()) == 0);
    } else {
        numbers_read_back(n / 10);
        digits_read_back(n as int % 10);
        assert(digits(n).drop_last() =~= digits(n / 10));
    }
}

/// Whole numbers are written with a minus sign exactly where they are negative,
/// and their size reads back; different numbers are written differently.
pub proof fn decimals_read_back(n: int, m: int)
    ensures
        n >= 0 ==> number_of(decimal(n)) == n,
        n < 0 ==> decimal(n)[0] == '-' && number_of(decimal(n).skip(1)) == -n,
        decimal(n)[0] == '-' <==> n < 0,
        decimal(n) == decimal(m) ==> n == m,
{
    numbers_read_back(hex::abs(n) as nat);
    numbers_read_back(hex::abs(m) as nat);
    if n < 0 {
        assert(decimal(n).skip(1) =~= digits((-n) as nat));
    }
    if m < 0 {
        assert(decimal(m).skip(1) =~= digits((-m) as nat));
    }
}

/// Bytes read back from their two hexadecimal digits.
pub proof fn hex_pairs_read_back(b: u8)
    ensures
        hex_pair(b).len() == 2,
        16 * digit_value(hex_pair(b)[0]) + digit_value(hex_pair(b)[1]) == b,
{
    digits_read_back(b as int / 16);
    digits_read_back(b as int % 16);
}

/// What marked-up text stands for, with its entities read as characters.
pub open spec fn unescaped(t: Seq<char>) -> Seq<char>
    decreases t.len(),
{
    if t.len() == 0 {
        Seq::empty()
    } else if t[0] != '&' {
        seq![t[0]] + unescaped(t.skip(1))
    } else if t.len() >= 5 && t.take(5) == seq!['&', 'a', 'm', 'p', ';'] {
        seq!['&'] + unescaped(t.skip(5))
    } else if t.len() >= 4 && t.take(4) == seq!['&', 'l', 't', ';'] {
        seq!['<'] + unescaped(t.skip(4))
    } else if t.len() >= 4 && t.take(4) == seq!['&', 'g', 't', ';'] {
        seq!['>'] + unescaped(t.skip(4))
    } else {
        seq![t[0]] + unescaped(t.skip(1))
    }
}

proof fn escaped_from_the_front(s: Seq<char>)
    requires
        s.len() > 0,
    ensures
        escaped(s) == escaped_char(s[0]) + escaped(s.skip(1)),
    decreases s.len(),
{
    if s.len() == 1 {
        assert(s.drop_last() =~= Seq::<char>::empty());
        assert(s.skip(1) =~= Seq::<char>::empty());
        assert(escaped(s) =~= escaped_char(s[0]) + escaped(s.skip(1)));
    } else {
        escaped_from_the_front(s.drop_last());
        assert(s.drop_last().skip(1) =~= s.skip(1).drop_last());
        assert(escaped(s) =~= escaped_char(s[0]) + escaped(s.skip(1)));
    }
}

/// Escaping can be undone: read as marked-up text, escaped text is the text.
pub proof fn escaping_can_be_undone(s: Seq<char>)
    ensures
        unescaped(escaped(s)) == s,
    decreases s.len(),
{
    if s.len() == 0 {
        assert(unescaped(escaped(s)) =~= s);
    } else {
        let (c, rest, t) = (s[0], s.skip(1), escaped(s));
        escaped_from_the_front(s);
        escaping_can_be_undone(rest);
        let e = escaped_char(c);
        assert(t.skip(e.len() as int) =~= escaped(rest));
        assert(t.take(e.len() as int) =~= e);
        if c == '<' || c == '>' {
            if t.len() >= 5 {
                assert(t.take(5)[1] == e[1]);
            }
            if c == '>' {
                assert(t.take(4)[1] == 'g');
            }
        }
        assert(unescaped(t) =~= s);
    }
}

/// Escaped text holds no angle bracket, and is no shorter than the text.
pub proof fn escaped_text_opens_no_tag(s: Seq<char>)
    ensures
        forall|i: int|
            0 <= i < escaped(s).len() ==> #[trigger] escaped(s)[i] != '<' && escaped(s)[i] != '>',
        escaped(s).len() >= s.len(),
    decreases s.len(),
{
    if s.len() > 0 {
        escaped_text_opens_no_tag(s.drop_last());
        let (a, b) = (escaped(s.drop_last()), escaped_char(s.last()));
        assert forall|i: int| 0 <= i < escaped(s).len() implies #[trigger] escaped(s)[i] != '<'
            && escaped(s)[i] != '>' by {
            if i < a.len() {
                assert(escaped(s)[i] == a[i]);
            } else {
                assert(escaped(s)[i] == b[i - a.len()]);
            }
        }
    }
}

} // verus!
