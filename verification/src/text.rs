//! Text that travels as bytes: UTF-8 host names, and the decimal rendering
//! of IPv4 addresses.

use vstd::prelude::*;
use vstd::utf8::*;

verus! {

/// `std::str::from_utf8`: it succeeds exactly on valid UTF-8, and the string
/// it gives is made of exactly those bytes.
#[verifier::external_body]
pub(crate) fn str_from_utf8(bytes: &[u8]) -> (r: Option<&str>)
    ensures
        r is Some <==> valid_utf8(bytes@),
        r matches Some(s) ==> encode_utf8(s@) == bytes@,
{
    std::str::from_utf8(bytes).ok()
}

/// Decodes `bytes` into a `String`, or gives `None` when they are not valid
/// UTF-8.
pub fn string_from_utf8(bytes: &[u8]) -> (r: Option<String>)
    ensures
        r is Some <==> valid_utf8(bytes@),
        r matches Some(s) ==> s@ == decode_utf8(bytes@),
{
    match str_from_utf8(bytes) {
        Some(s) => {
            proof {
                encode_utf8_decode_utf8(s@);
            }
            Some(s.to_owned())
        },
        None => None,
    }
}


/// The character of the decimal digit `d`.
pub open spec fn digit_char(d: nat) -> char {
    (d + 48) as char
}

/// The decimal numeral of `n`, without leading zeros.
pub open spec fn decimal(n: nat) -> Seq<char>
    decreases n,
{
    if n < 10 {
        seq![digit_char(n)]
    } else {
        decimal(n / 10).push(digit_char(n % 10))
    }
}

/// The dotted decimal text of the IPv4 address `a.b.c.d`.
pub open spec fn ipv4_text(a: u8, b: u8, c: u8, d: u8) -> Seq<char> {
    decimal(a as nat) + seq!['.'] + decimal(b as nat) + seq!['.'] + decimal(c as nat) + seq!['.']
        + decimal(d as nat)
}

/// The bytes of characters that are all ASCII.
pub open spec fn ascii_bytes(chars: Seq<char>) -> Seq<u8> {
    Seq::new(chars.len(), |i: int| chars[i] as u8)
}

proof fn lemma_decimal_ascii(n: nat)
    ensures
        is_ascii_chars(decimal(n)),
    decreases n,
{
    if n >= 10 {
        lemma_decimal_ascii(n / 10);
        let s = decimal(n);
        assert forall|i| 0 <= i < s.len() implies '\0' <= #[trigger] s[i] <= '\u{7f}' by {
            if i < s.len() - 1 {
                assert(s[i] == decimal(n / 10)[i]);
            }
        }
    }
}

/// Appends the decimal numeral of `n` to `buf`.
fn push_decimal(buf: &mut Vec<u8>, n: u8)
    ensures
        final(buf)@ == old(buf)@ + ascii_bytes(decimal(n as nat)),
{
    reveal_with_fuel(decimal, 3);
    if n >= 100 {
        buf.push(48 + n / 100);
    }
    if n >= 10 {
        buf.push(48 + (n / 10) % 10);
    }
    buf.push(48 + n % 10);
    proof {
        if n >= 100 {
            assert((n as nat / 10) / 10 == n / 100);
        }
        assert(final(buf)@ =~= old(buf)@ + ascii_bytes(decimal(n as nat)));
    }
}

/// The dotted decimal text of the IPv4 address `a.b.c.d`, such as
/// `"192.168.0.1"`.
pub fn ipv4_string(a: u8, b: u8, c: u8, d: u8) -> (s: String)
    ensures
        s@ == ipv4_text(a, b, c, d),
{
    let mut buf: Vec<u8> = Vec::new();
    push_decimal(&mut buf, a);
    buf.push(46);
    push_decimal(&mut buf, b);
    buf.push(46);
    push_decimal(&mut buf, c);
    buf.push(46);
    push_decimal(&mut buf, d);
    let ghost text = ipv4_text(a, b, c, d);
    proof {
        lemma_decimal_ascii(a as nat);
        lemma_decimal_ascii(b as nat);
        lemma_decimal_ascii(c as nat);
        lemma_decimal_ascii(d as nat);
        assert(is_ascii_chars(text)) by {
            broadcast use is_ascii_chars_concat;
        }
        is_ascii_chars_encode_utf8(text);
        assert(buf@ =~= encode_utf8(text));
        encode_utf8_valid_utf8(text);
        encode_utf8_decode_utf8(text);
    }
    match string_from_utf8(buf.as_slice()) {
        Some(s) => s,
        None => {
            proof {
                assert(false);
            }
            String::new()
        },
    }
}


/// The number that a string of decimal digits denotes, most significant
/// digit first.
pub open spec fn digits_value(s: Seq<char>) -> int
    decreases s.len(),
{
    if s.len() == 0 {
        0
    } else {
        digits_value(s.drop_last()) * 10 + (s.last() as int - '0' as int)
    }
}

/// Every character is one of the digits `'0'` to `'9'`.
pub open spec fn all_digits(s: Seq<char>) -> bool {
    forall|i: int| 0 <= i < s.len() ==> '0' <= #[trigger] s[i] <= '9'
}

/// The decimal numeral of a number is the standard one: a nonempty string of
/// the digits `'0'` to `'9'` that reads back as the number, without a
/// leading zero except for zero itself, and of at most three digits below
/// 1000.
pub proof fn law_decimal_reads_back(n: nat)
    ensures
        decimal(n).len() >= 1,
        all_digits(decimal(n)),
        digits_value(decimal(n)) == n,
        decimal(n)[0] == '0' ==> n == 0,
        n < 10 ==> decimal(n).len() == 1,
        n < 100 ==> decimal(n).len() <= 2,
        n < 1000 ==> decimal(n).len() <= 3,
    decreases n,
{
    let last = digit_char(n % 10);
    assert(last as int == n % 10 + '0' as int);
    if n < 10 {
        let s = decimal(n);
        assert(s.drop_last() =~= Seq::<char>::empty());
        assert(s.last() == last);
        assert(digits_value(s) == digits_value(s.drop_last()) * 10 + (s.last() as int - '0' as int));
        assert(digits_value(s.drop_last()) == 0);
    }
    if n >= 10 {
        law_decimal_reads_back(n / 10);
        let s = decimal(n);
        let p = decimal(n / 10);
        assert(s.drop_last() =~= p);
        assert(s[0] == p[0]);
        assert forall|i: int| 0 <= i < s.len() implies '0' <= #[trigger] s[i] <= '9' by {
            if i < p.len() {
                assert(s[i] == p[i]);
            }
        }
        assert(s.last() == last);
        assert(digits_value(s) == digits_value(p) * 10 + (last as int - '0' as int));
        assert((n / 10) * 10 + n % 10 == n);
    }
}

/// The dotted text of an IPv4 address is four decimal numerals that read
/// back as the four octets, in order, separated by single dots and holding
/// no other dot.
pub proof fn law_ipv4_text_reads_back(a: u8, b: u8, c: u8, d: u8)
    ensures
        ({
            let (pa, pb, pc, pd) = (
                decimal(a as nat),
                decimal(b as nat),
                decimal(c as nat),
                decimal(d as nat),
            );
            &&& ipv4_text(a, b, c, d) == pa + seq!['.'] + pb + seq!['.'] + pc + seq!['.'] + pd
            &&& all_digits(pa) && all_digits(pb) && all_digits(pc) && all_digits(pd)
            &&& digits_value(pa) == a && digits_value(pb) == b && digits_value(pc) == c
                && digits_value(pd) == d
            &&& 1 <= pa.len() <= 3 && 1 <= pb.len() <= 3 && 1 <= pc.len() <= 3 && 1 <= pd.len()
                <= 3
        }),
{
    law_decimal_reads_back(a as nat);
    law_decimal_reads_back(b as nat);
    law_decimal_reads_back(c as nat);
    law_decimal_reads_back(d as nat);
}

} // verus!
