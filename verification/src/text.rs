//! Decimal and hexadecimal text.
use vstd::prelude::*;
use vstd::string::StrSliceExecFns;

verus! {

/// The ASCII digit for `d` in base 16, lower case.
pub open spec fn hex_char(d: nat) -> char {
    if d < 10 {
        (48 + d) as char
    } else {
        (87 + d) as char
    }
}

/// Decimal digits of `n`, most significant first, without leading zeros.
pub open spec fn decimal(n: nat) -> Seq<char>
    decreases n,
{
    if n < 10 {
        seq![hex_char(n)]
    } else {
        decimal(n / 10).push(hex_char(n % 10))
    }
}

/// Decimal digits of `n` padded with zeros to at least two.
pub open spec fn decimal2(n: nat) -> Seq<char> {
    if n < 10 {
        seq!['0'].push(hex_char(n))
    } else {
        decimal(n)
    }
}

/// Two lower-case hexadecimal digits per byte.
pub open spec fn hex_lower(bytes: Seq<u8>) -> Seq<char>
    decreases bytes.len(),
{
    if bytes.len() == 0 {
        Seq::empty()
    } else {
        hex_lower(bytes.drop_last()).push(hex_char((bytes.last() / 16) as nat)).push(
            hex_char((bytes.last() % 16) as nat),
        )
    }
}

/// Appends the digit `d` (base 16, lower case).
pub fn push_hex_digit(s: &mut String, d: u8)
    requires
        d < 16,
    ensures
        final(s)@ == old(s)@.push(hex_char(d as nat)),
{
    let t: &str = match d {
        0 => "0",
        1 => "1",
        2 => "2",
        3 => "3",
        4 => "4",
        5 => "5",
        6 => "6",
        7 => "7",
        8 => "8",
        9 => "9",
        10 => "a",
        11 => "b",
        12 => "c",
        13 => "d",
        14 => "e",
        _ => "f",
    };
    proof {
        reveal_strlit("0");
        reveal_strlit("1");
        reveal_strlit("2");
        reveal_strlit("3");
        reveal_strlit("4");
        reveal_strlit("5");
        reveal_strlit("6");
        reveal_strlit("7");
        reveal_strlit("8");
        reveal_strlit("9");
        reveal_strlit("a");
        reveal_strlit("b");
        reveal_strlit("c");
        reveal_strlit("d");
        reveal_strlit("e");
        reveal_strlit("f");
    }
    s.append(t);
    assert(final(s)@ =~= old(s)@.push(hex_char(d as nat)));
}

/// Appends the decimal digits of `n`.
pub fn push_decimal(s: &mut String, n: u64)
    ensures
        final(s)@ == old(s)@ + decimal(n as nat),
    decreases n,
{
    if n >= 10 {
        push_decimal(s, n / 10);
    }
    push_hex_digit(s, (n % 10) as u8);
    assert(final(s)@ =~= old(s)@ + decimal(n as nat));
}

/// Appends the decimal digits of `n`, at least two.
pub fn push_decimal2(s: &mut String, n: u64)
    ensures
        final(s)@ == old(s)@ + decimal2(n as nat),
{
    if n < 10 {
        push_hex_digit(s, 0);
        push_hex_digit(s, n as u8);
        assert(final(s)@ =~= old(s)@ + decimal2(n as nat));
    } else {
        push_decimal(s, n);
    }
}

/// `String::push`: appends one character; the contract states just that.
#[verifier::external_body]
pub(crate) fn push_char(s: &mut String, c: char)
    ensures
        final(s)@ == old(s)@.push(c),
{
    s.push(c)
}

/// Appends literal text.
pub fn push_str(s: &mut String, t: &str)
    ensures
        final(s)@ == old(s)@ + t@,
{
    s.append(t);
}

/// Lower-case hexadecimal text of `bytes`.
pub fn to_hex(bytes: &[u8]) -> (r: String)
    ensures
        r@ == hex_lower(bytes@),
{
    let mut s = String::new();
    let mut i: usize = 0;
    while i < bytes.len()
        invariant
            i <= bytes@.len(),
            s@ == hex_lower(bytes@.take(i as int)),
        decreases bytes.len() - i,
    {
        let b = bytes[i];
        push_hex_digit(&mut s, b / 16);
        push_hex_digit(&mut s, b % 16);
        i = i + 1;
        assert(bytes@.take(i as int).drop_last() =~= bytes@.take(i - 1));
    }
    assert(bytes@.take(i as int) =~= bytes@);
    s
}

/// Hexadecimal text has two characters per byte, each a digit or a lower-case letter
/// from a to f.
pub proof fn lemma_hex_lower_digits(bytes: Seq<u8>)
    ensures
        hex_lower(bytes).len() == 2 * bytes.len(),
        forall|i: int|
            0 <= i < hex_lower(bytes).len() ==> hex_digit_char(#[trigger] hex_lower(bytes)[i]),
    decreases bytes.len(),
{
    if bytes.len() > 0 {
        lemma_hex_lower_digits(bytes.drop_last());
        let h = hex_lower(bytes);
        let p = hex_lower(bytes.drop_last());
        let x = bytes.last();
        assert(hex_digit_char(hex_char((x / 16) as nat)));
        assert(hex_digit_char(hex_char((x % 16) as nat)));
        assert forall|i: int| 0 <= i < h.len() implies hex_digit_char(#[trigger] h[i]) by {
            if i < p.len() {
                assert(h[i] == p[i]);
            }
        }
    }
}

/// A character `hex_char` can produce, by its code in each integer type.
pub open spec fn hex_digit_char(c: char) -> bool {
    &&& ('0' <= c <= '9') || ('a' <= c <= 'f')
    &&& (48 <= c as int <= 57) || (97 <= c as int <= 102)
    &&& c as u32 == c as int
    &&& c as u8 == c as int
}

/// Character-by-character order of text: `a` comes before `b` when it is a proper prefix
/// of `b` or has the smaller character at the first difference. As UTF-8 preserves the
/// order of code points, this is also the byte order in which `String`s compare.
pub open spec fn text_lt(a: Seq<char>, b: Seq<char>) -> bool
    decreases a.len(),
{
    if a.len() == 0 {
        b.len() > 0
    } else if b.len() == 0 {
        false
    } else if a[0] != b[0] {
        a[0] < b[0]
    } else {
        text_lt(a.drop_first(), b.drop_first())
    }
}

pub proof fn lemma_text_lt_irreflexive(a: Seq<char>)
    ensures
        !text_lt(a, a),
    decreases a.len(),
{
    if a.len() > 0 {
        lemma_text_lt_irreflexive(a.drop_first());
    }
}

/// Distinct texts are ordered one way or the other, and not both.
pub proof fn lemma_text_lt_total(a: Seq<char>, b: Seq<char>)
    ensures
        a != b ==> (text_lt(a, b) || text_lt(b, a)),
        !(text_lt(a, b) && text_lt(b, a)),
    decreases a.len(),
{
    if a.len() > 0 && b.len() > 0 && a[0] == b[0] {
        lemma_text_lt_total(a.drop_first(), b.drop_first());
        if a != b {
            assert(a.drop_first() != b.drop_first()) by {
                if a.drop_first() == b.drop_first() {
                    assert(a =~= seq![a[0]] + a.drop_first());
                    assert(b =~= seq![b[0]] + b.drop_first());
                }
            }
        }
    } else if a.len() == 0 && b.len() == 0 {
        assert(a =~= b);
    }
}

pub proof fn lemma_text_lt_transitive(a: Seq<char>, b: Seq<char>, c: Seq<char>)
    requires
        text_lt(a, b),
        text_lt(b, c),
    ensures
        text_lt(a, c),
    decreases a.len(),
{
    if a.len() > 0 && b.len() > 0 && c.len() > 0 && a[0] == b[0] && b[0] == c[0] {
        lemma_text_lt_transitive(a.drop_first(), b.drop_first(), c.drop_first());
    }
}

/// Compares two texts in `text_lt` order: -1, 0 or 1.
pub fn compare_text(a: &str, b: &str) -> (r: i8)
    ensures
        r == -1 <==> text_lt(a@, b@),
        r == 0 <==> a@ == b@,
        r == 1 <==> text_lt(b@, a@),
{
    let n = a.unicode_len();
    let m = b.unicode_len();
    let mut i: usize = 0;
    assert(a@.skip(0) =~= a@);
    assert(b@.skip(0) =~= b@);
    while i < n && i < m
        invariant
            n == a@.len(),
            m == b@.len(),
            i <= n,
            i <= m,
            a@.take(i as int) == b@.take(i as int),
            text_lt(a@, b@) == text_lt(a@.skip(i as int), b@.skip(i as int)),
            text_lt(b@, a@) == text_lt(b@.skip(i as int), a@.skip(i as int)),
        decreases n - i,
    {
        let x = a.get_char(i);
        let y = b.get_char(i);
        proof {
            assert(a@.skip(i as int)[0] == x);
            assert(b@.skip(i as int)[0] == y);
        }
        if x < y {
            proof {
                lemma_text_lt_total(a@, b@);
                assert(a@ != b@) by {
                    assert(a@[i as int] != b@[i as int]);
                }
            }
            return -1;
        }
        if y < x {
            proof {
                lemma_text_lt_total(a@, b@);
                assert(a@ != b@) by {
                    assert(a@[i as int] != b@[i as int]);
                }
            }
            return 1;
        }
        proof {
            assert(a@.skip(i as int).drop_first() =~= a@.skip(i + 1));
            assert(b@.skip(i as int).drop_first() =~= b@.skip(i + 1));
            assert(a@.take(i + 1) =~= a@.take(i as int).push(x));
            assert(b@.take(i + 1) =~= b@.take(i as int).push(y));
        }
        i = i + 1;
    }
    proof {
        lemma_text_lt_total(a@, b@);
    }
    if n == m {
        proof {
            assert(a@ =~= a@.take(i as int));
            assert(b@ =~= b@.take(i as int));
            lemma_text_lt_irreflexive(a@);
        }
        0
    } else if n < m {
        proof {
            assert(a@.skip(i as int).len() == 0);
            assert(a@ != b@);
        }
        -1
    } else {
        proof {
            assert(b@.skip(i as int).len() == 0);
            assert(a@ != b@);
        }
        1
    }
}

} // verus!
