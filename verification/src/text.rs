//! Text that messages and file names are put together from, and the order of strings.

use vstd::prelude::*;
use vstd::string::*;
use vstd::utf8::encode_utf8;
use vstd::utf8::encode_utf8_decode_utf8;

verus! {

/// The decimal digit of a value below ten.
pub open spec fn digit(d: nat) -> char {
    (48 + d) as char
}

/// The decimal notation of a natural number, without leading zeros.
pub open spec fn decimal(n: nat) -> Seq<char>
    decreases n,
{
    if n < 10 {
        seq![digit(n)]
    } else {
        decimal(n / 10).push(digit(n % 10))
    }
}

/// The character is a decimal digit.
pub open spec fn is_digit(c: char) -> bool {
    '0' <= c && c <= '9'
}

/// The number that a row of decimal digits stands for.
pub open spec fn digits_value(digits: Seq<char>) -> nat
    decreases digits.len(),
{
    if digits.len() == 0 {
        0
    } else {
        10 * digits_value(digits.drop_last()) + (digits.last() as nat - '0' as nat) as nat
    }
}

/// Decimal notation consists of digits that stand for the number.
pub proof fn decimal_is_read_back(n: nat)
    ensures
        decimal(n).len() >= 1,
        forall|i: int| 0 <= i < decimal(n).len() ==> is_digit(#[trigger] decimal(n)[i]),
        digits_value(decimal(n)) == n,
    decreases n,
{
    reveal_with_fuel(digits_value, 2);
    if n < 10 {
        assert(decimal(n).drop_last() =~= Seq::<char>::empty());
    } else {
        decimal_is_read_back(n / 10);
        assert(decimal(n).drop_last() =~= decimal(n / 10));
    }
}

/// Decimal notation is positional: its last character is the digit with the code
/// 48 + n % 10, and what stands before it is the notation of n / 10, or nothing where
/// that is zero.
pub proof fn law_decimal_is_positional(n: nat)
    ensures
        decimal(n).len() >= 1,
        decimal(n).last() as nat == 48 + n % 10,
        n >= 10 ==> decimal(n).drop_last() == decimal(n / 10),
        n < 10 ==> decimal(n).drop_last() == Seq::<char>::empty(),
{
    assert(n >= 10 ==> decimal(n).drop_last() =~= decimal(n / 10));
    assert(n < 10 ==> decimal(n).drop_last() =~= Seq::<char>::empty());
}

/// The value of a row of digits is positional: no digits stand for zero, and one more
/// digit makes ten times the value plus what the digit shows, which is its code less 48.
pub proof fn law_digits_are_positional(digits: Seq<char>, c: char)
    ensures
        digits_value(Seq::empty()) == 0,
        is_digit(c) <==> 48 <= c as nat <= 57,
        is_digit(c) ==> digits_value(digits.push(c)) == 10 * digits_value(digits) + (c as nat - 48),
{
    assert(digits.push(c).drop_last() =~= digits);
}

/// Two texts that differ at most in two numbers, with something between them that does
/// not begin with a digit, are equal exactly where the numbers are.
pub proof fn numbered_texts_differ(
    start: Seq<char>,
    first: nat,
    between: Seq<char>,
    second: nat,
    other_first: nat,
    other_second: nat,
)
    requires
        between.len() > 0,
        !is_digit(between[0]),
    ensures
        start + decimal(first) + between + decimal(second) == start + decimal(other_first) + between
            + decimal(other_second) <==> first == other_first && second == other_second,
{
    let (a, b) = (decimal(first), decimal(second));
    let (c, d) = (decimal(other_first), decimal(other_second));
    let text = start + a + between + b;
    let other = start + c + between + d;
    decimal_is_read_back(first);
    decimal_is_read_back(second);
    decimal_is_read_back(other_first);
    decimal_is_read_back(other_second);
    if text == other {
        assert(text[(start.len() + a.len()) as int] == between[0]);
        assert(other[(start.len() + c.len()) as int] == between[0]);
        if a.len() < c.len() {
            assert(other[(start.len() + a.len()) as int] == c[a.len() as int]);
            assert(is_digit(c[a.len() as int]));
        } else if c.len() < a.len() {
            assert(text[(start.len() + c.len()) as int] == a[c.len() as int]);
            assert(is_digit(a[c.len() as int]));
        }
        assert forall|i: int| 0 <= i < a.len() implies a[i] == c[i] by {
            assert(text[start.len() + i] == a[i]);
            assert(other[start.len() + i] == c[i]);
        }
        assert(a =~= c);
        let rest = start.len() + a.len() + between.len();
        assert(text.len() == rest + b.len());
        assert(other.len() == rest + d.len());
        assert forall|i: int| 0 <= i < b.len() implies b[i] == d[i] by {
            assert(text[rest + i] == b[i]);
            assert(other[rest + i] == d[i]);
        }
        assert(b =~= d);
    }
}

/// Appends one decimal digit.
fn append_digit(out: &mut String, d: u8)
    requires
        d < 10,
    ensures
        final(out)@ == old(out)@.push(digit(d as nat)),
{
    let text = match d {
        0 => "0",
        1 => "1",
        2 => "2",
        3 => "3",
        4 => "4",
        5 => "5",
        6 => "6",
        7 => "7",
        8 => "8",
        _ => "9",
    };
    proof {
        reveal_strlit("0");
        reveal_strlit("1");
        reveal_strlit("2");
        reveal_strlit("3");
        reveal_strlit("4");
        reveal_strlit("5");
        reveal_strlit("6");
        reveal_strlit("7");
        reveal_strlit("8");
        reveal_strlit("9");
        assert(text@ =~= seq![digit(d as nat)]);
    }
    out.append(text);
    assert(out@ =~= old(out)@.push(digit(d as nat)));
}

/// Appends a number in decimal notation.
pub fn append_decimal(out: &mut String, n: u128)
    ensures
        final(out)@ == old(out)@ + decimal(n as nat),
    decreases n,
{
    if n < 10 {
        append_digit(out, n as u8);
        assert(out@ =~= old(out)@ + decimal(n as nat));
    } else {
        append_decimal(out, n / 10);
        append_digit(out, (n % 10) as u8);
        assert(out@ =~= old(out)@ + decimal(n as nat));
    }
}

/// Strict lexicographic order of byte sequences: a proper prefix comes first,
/// else the first differing byte decides.
pub open spec fn bytes_less(a: Seq<u8>, b: Seq<u8>) -> bool
    decreases a.len(),
{
    if b.len() == 0 {
        false
    } else if a.len() == 0 {
        true
    } else if a[0] != b[0] {
        a[0] < b[0]
    } else {
        bytes_less(a.drop_first(), b.drop_first())
    }
}

/// Strings are ordered by their UTF-8 bytes.
pub open spec fn text_less(a: Seq<char>, b: Seq<char>) -> bool {
    bytes_less(encode_utf8(a), encode_utf8(b))
}

/// No byte sequence precedes itself.
proof fn bytes_less_irreflexive(a: Seq<u8>)
    ensures
        !bytes_less(a, a),
    decreases a.len(),
{
    if a.len() > 0 {
        bytes_less_irreflexive(a.drop_first());
    }
}

/// The order of byte sequences is transitive.
proof fn bytes_less_transitive(a: Seq<u8>, b: Seq<u8>, c: Seq<u8>)
    requires
        bytes_less(a, b),
        bytes_less(b, c),
    ensures
        bytes_less(a, c),
    decreases a.len(),
{
    if a.len() > 0 && a[0] == b[0] && b[0] == c[0] {
        bytes_less_transitive(a.drop_first(), b.drop_first(), c.drop_first());
    }
}

/// Of two different byte sequences one precedes the other.
proof fn bytes_less_total(a: Seq<u8>, b: Seq<u8>)
    ensures
        a == b || bytes_less(a, b) || bytes_less(b, a),
    decreases a.len(),
{
    if a.len() == 0 || b.len() == 0 {
        assert(a.len() == b.len() ==> a =~= b);
    } else if a[0] == b[0] {
        bytes_less_total(a.drop_first(), b.drop_first());
        if a.drop_first() == b.drop_first() {
            assert(a =~= seq![a[0]] + a.drop_first());
            assert(b =~= seq![b[0]] + b.drop_first());
        }
    }
}

/// The order of strings is a strict total order: no string precedes itself, the
/// order is transitive, and of two different strings one precedes the other.
pub proof fn text_order_is_strict_and_total(a: Seq<char>, b: Seq<char>, c: Seq<char>)
    ensures
        !text_less(a, a),
        text_less(a, b) && text_less(b, c) ==> text_less(a, c),
        a == b || text_less(a, b) || text_less(b, a),
        text_less(a, b) ==> a != b && !text_less(b, a),
{
    let (x, y, z) = (encode_utf8(a), encode_utf8(b), encode_utf8(c));
    bytes_less_irreflexive(x);
    if text_less(a, b) && text_less(b, c) {
        bytes_less_transitive(x, y, z);
    }
    if text_less(a, b) && text_less(b, a) {
        bytes_less_transitive(x, y, x);
    }
    bytes_less_total(x, y);
    encode_utf8_decode_utf8(a);
    encode_utf8_decode_utf8(b);
}

/// One string precedes another exactly where their UTF-8 bytes agree up to a position at
/// which the first ends and the second does not, or has the smaller byte.
pub proof fn law_order_is_that_of_the_bytes(a: Seq<char>, b: Seq<char>)
    ensures
        text_less(a, b) <==> exists|at: int|
            0 <= at <= encode_utf8(a).len() && at < encode_utf8(b).len() && #[trigger] encode_utf8(
                a,
            ).take(at) == encode_utf8(b).take(at) && (at < encode_utf8(a).len() ==> encode_utf8(
                a,
            )[at] < encode_utf8(b)[at]),
{
    law_order_of_bytes(encode_utf8(a), encode_utf8(b));
}

/// One byte sequence precedes another exactly where they agree up to a position at which
/// the first ends and the second does not, or has the smaller byte.
pub proof fn law_order_of_bytes(a: Seq<u8>, b: Seq<u8>)
    ensures
        bytes_less(a, b) <==> exists|at: int|
            0 <= at <= a.len() && at < b.len() && #[trigger] a.take(at) == b.take(at) && (at
                < a.len() ==> a[at] < b[at]),
    decreases a.len(),
{
    if b.len() == 0 {
    } else if a.len() == 0 {
        assert(a.take(0) =~= b.take(0));
    } else if a[0] != b[0] {
        assert(a.take(0) =~= b.take(0));
        if exists|at: int|
            0 <= at <= a.len() && at < b.len() && #[trigger] a.take(at) == b.take(at) && (at
                < a.len() ==> a[at] < b[at]) {
            let at = choose|at: int|
                0 <= at <= a.len() && at < b.len() && #[trigger] a.take(at) == b.take(at) && (at
                    < a.len() ==> a[at] < b[at]);
            assert(at > 0 ==> a.take(at)[0] == b.take(at)[0]);
        }
    } else {
        let x = a.drop_first();
        let y = b.drop_first();
        law_order_of_bytes(x, y);
        if bytes_less(a, b) {
            let at = choose|at: int|
                0 <= at <= x.len() && at < y.len() && #[trigger] x.take(at) == y.take(at) && (at
                    < x.len() ==> x[at] < y[at]);
            assert(a.take(at + 1) =~= seq![a[0]] + x.take(at));
            assert(b.take(at + 1) =~= seq![b[0]] + y.take(at));
        }
        if exists|at: int|
            0 <= at <= a.len() && at < b.len() && #[trigger] a.take(at) == b.take(at) && (at
                < a.len() ==> a[at] < b[at]) {
            let at = choose|at: int|
                0 <= at <= a.len() && at < b.len() && #[trigger] a.take(at) == b.take(at) && (at
                    < a.len() ==> a[at] < b[at]);
            assert(at > 0);
            assert(x.take(at - 1) =~= a.take(at).drop_first());
            assert(y.take(at - 1) =~= b.take(at).drop_first());
        }
    }
}

/// Whether the first string comes strictly before the second.
pub fn comes_before(a: &str, b: &str) -> (less: bool)
    ensures
        less == text_less(a@, b@),
{
    let x = a.as_bytes();
    let y = b.as_bytes();
    let mut i: usize = 0;
    assert(x@.skip(0) =~= x@);
    assert(y@.skip(0) =~= y@);
    while i < x.len() && i < y.len() && x[i] == y[i]
        invariant
            i <= x@.len(),
            i <= y@.len(),
            bytes_less(x@, y@) == bytes_less(x@.skip(i as int), y@.skip(i as int)),
        decreases x@.len() - i,
    {
        assert(x@.skip(i as int).drop_first() =~= x@.skip(i + 1));
        assert(y@.skip(i as int).drop_first() =~= y@.skip(i + 1));
        i = i + 1;
    }
    if i == y.len() {
        false
    } else if i == x.len() {
        true
    } else {
        x[i] < y[i]
    }
}

} // verus!
