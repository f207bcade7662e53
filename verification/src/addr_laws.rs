use vstd::prelude::*;
use vstd::utf8::encode_utf8;
use vstd::utf8::is_ascii_chars;
use vstd::utf8::is_ascii_chars_encode_utf8;
use crate::addr::decimal;
use crate::addr::DOT;
use crate::addr::dotted_octet_at;
use crate::addr::ipv4_of;
use crate::addr::Ipv4Addr;
use crate::addr::is_digit;
use crate::addr::octet_at;

verus! {

/// The octets of the decimal digits of `n`.
pub open spec fn decimal_octets(n: u8) -> Seq<u8> {
    if n < 10 {
        seq![(0x30 + n) as u8]
    } else if n < 100 {
        seq![(0x30 + n / 10) as u8, (0x30 + n % 10) as u8]
    } else {
        seq![(0x30 + n / 100) as u8, (0x30 + (n / 10) % 10) as u8, (0x30 + n % 10) as u8]
    }
}

/// The decimal digits of a number below 256 are characters of ASCII, and
/// their octets are `decimal_octets`.
pub proof fn lemma_decimal(n: u8)
    ensures
        is_ascii_chars(decimal(n as nat)),
        decimal(n as nat).len() == decimal_octets(n).len(),
        forall|i: int|
            0 <= i < decimal_octets(n).len() ==> #[trigger] decimal(n as nat)[i] as u8
                == decimal_octets(n)[i],
{
    reveal_with_fuel(decimal, 3);
}

/// A number that is written in the digits of `decimal_octets` is read as
/// itself, where no digit follows it.
pub proof fn lemma_octet_read(bytes: Seq<u8>, from: int, n: u8)
    requires
        0 <= from,
        from + decimal_octets(n).len() <= bytes.len(),
        bytes.subrange(from, from + decimal_octets(n).len()) == decimal_octets(n),
        from + decimal_octets(n).len() < bytes.len() ==> !is_digit(
            bytes[from + decimal_octets(n).len()],
        ),
    ensures
        octet_at(bytes, from) == Some((n, from + decimal_octets(n).len())),
{
    let digits = decimal_octets(n);
    let there = bytes.subrange(from, from + digits.len());
    assert(there[0] == bytes[from]);
    if n >= 10 {
        assert(there[1] == bytes[from + 1]);
    }
    if n >= 100 {
        assert(there[2] == bytes[from + 2]);
    }
}

/// The octets of an address as text: the digits of its four numbers with
/// dots between them.
pub open spec fn dotted_octets(addr: Ipv4Addr) -> Seq<u8> {
    decimal_octets(addr.a) + seq![DOT] + decimal_octets(addr.b) + seq![DOT] + decimal_octets(addr.c)
        + seq![DOT] + decimal_octets(addr.d)
}

/// The text of an address is made of characters of ASCII, and its octets are
/// `dotted_octets`.
pub proof fn lemma_text_octets(addr: Ipv4Addr)
    ensures
        encode_utf8(addr.text()) == dotted_octets(addr),
{
    let text = addr.text();
    let wanted = dotted_octets(addr);
    lemma_decimal(addr.a);
    lemma_decimal(addr.b);
    lemma_decimal(addr.c);
    lemma_decimal(addr.d);
    let la = decimal_octets(addr.a).len() as int;
    let lb = decimal_octets(addr.b).len() as int;
    let lc = decimal_octets(addr.c).len() as int;
    assert(text.len() == wanted.len());
    assert forall|i: int| 0 <= i < text.len() implies #[trigger] text[i] as u8 == wanted[i] && '\0'
        <= text[i] <= '\u{7f}' by {
        if i < la {
            assert(text[i] == decimal(addr.a as nat)[i]);
        } else if i == la {
        } else if i < la + 1 + lb {
            assert(text[i] == decimal(addr.b as nat)[i - la - 1]);
        } else if i == la + 1 + lb {
        } else if i < la + 1 + lb + 1 + lc {
            assert(text[i] == decimal(addr.c as nat)[i - la - lb - 2]);
        } else if i == la + 1 + lb + 1 + lc {
        } else {
            assert(text[i] == decimal(addr.d as nat)[i - la - lb - lc - 3]);
        }
    }
    is_ascii_chars_encode_utf8(text);
    assert(encode_utf8(text) =~= wanted);
}

/// A number and the dot behind it are read, where the digits of the number
/// and a dot stand at `from`.
proof fn lemma_dotted_octet_read(bytes: Seq<u8>, from: int, n: u8)
    requires
        0 <= from,
        from + decimal_octets(n).len() < bytes.len(),
        bytes.subrange(from, from + decimal_octets(n).len()) == decimal_octets(n),
        bytes[from + decimal_octets(n).len()] == DOT,
    ensures
        dotted_octet_at(bytes, from) == Some((n, from + decimal_octets(n).len() + 1)),
{
    lemma_octet_read(bytes, from, n);
}

/// An address is read as it is written: the text of an address spells the
/// address.
pub proof fn lemma_ipv4_round_trip(addr: Ipv4Addr)
    ensures
        ipv4_of(encode_utf8(addr.text())) == Some(addr),
{
    lemma_text_octets(addr);
    let bytes = dotted_octets(addr);
    let la = decimal_octets(addr.a).len() as int;
    let lb = decimal_octets(addr.b).len() as int;
    let lc = decimal_octets(addr.c).len() as int;
    let ld = decimal_octets(addr.d).len() as int;
    let p1 = la + 1;
    let p2 = p1 + lb + 1;
    let p3 = p2 + lc + 1;
    assert(bytes.len() == p3 + ld);
    assert(bytes.subrange(0, la) =~= decimal_octets(addr.a));
    assert(bytes[la] == DOT);
    lemma_dotted_octet_read(bytes, 0, addr.a);
    assert(bytes.subrange(p1, p1 + lb) =~= decimal_octets(addr.b));
    assert(bytes[p1 + lb] == DOT);
    lemma_dotted_octet_read(bytes, p1, addr.b);
    assert(bytes.subrange(p2, p2 + lc) =~= decimal_octets(addr.c));
    assert(bytes[p2 + lc] == DOT);
    lemma_dotted_octet_read(bytes, p2, addr.c);
    assert(bytes.subrange(p3, p3 + ld) =~= decimal_octets(addr.d));
    lemma_octet_read(bytes, p3, addr.d);
}

} // verus!
