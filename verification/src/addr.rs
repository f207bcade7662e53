use vstd::prelude::*;
use vstd::string::StringExecFns;

verus! {

/// An IPv4 address: its four octets, in the order in which they are written
/// and sent.
#[derive(Clone, Copy, Debug, PartialEq, Eq, Structural)]
pub struct Ipv4Addr {
    pub a: u8,
    pub b: u8,
    pub c: u8,
    pub d: u8,
}

/// An IPv6 address: its eight segments, in the order in which they are
/// written and sent.
#[derive(Clone, Copy, Debug, PartialEq, Eq, Structural)]
pub struct Ipv6Addr {
    pub a: u16,
    pub b: u16,
    pub c: u16,
    pub d: u16,
    pub e: u16,
    pub f: u16,
    pub g: u16,
    pub h: u16,
}

/// The character of the digit `d`.
pub open spec fn digit_char(d: int) -> char {
    if d == 0 {
        '0'
    } else if d == 1 {
        '1'
    } else if d == 2 {
        '2'
    } else if d == 3 {
        '3'
    } else if d == 4 {
        '4'
    } else if d == 5 {
        '5'
    } else if d == 6 {
        '6'
    } else if d == 7 {
        '7'
    } else if d == 8 {
        '8'
    } else {
        '9'
    }
}

/// `n` in decimal digits, without leading zeros.
pub open spec fn decimal(n: nat) -> Seq<char>
    decreases n,
{
    if n < 10 {
        seq![digit_char(n as int)]
    } else {
        decimal(n / 10).push(digit_char((n % 10) as int))
    }
}

/// The four octets in decimal, with dots between them.
pub open spec fn dotted(a: u8, b: u8, c: u8, d: u8) -> Seq<char> {
    decimal(a as nat) + seq!['.'] + decimal(b as nat) + seq!['.'] + decimal(c as nat) + seq!['.']
        + decimal(d as nat)
}

/// The digit `d` as text.
fn digit_str(d: u8) -> (s: &'static str)
    requires
        d < 10,
    ensures
        s@ == seq![digit_char(d as int)],
{
    proof {
        reveal_strlit("0");
        reveal_strlit("1");
        reveal_strlit("2");
        reveal_strlit("3");
        reveal_strlit("4");
        reveal_strlit("5");
        reveal_strlit("6");
        reveal_strlit("7");
        reveal_strlit("8");
        reveal_strlit("9");
    }
    let s = if d == 0 {
        "0"
    } else if d == 1 {
        "1"
    } else if d == 2 {
        "2"
    } else if d == 3 {
        "3"
    } else if d == 4 {
        "4"
    } else if d == 5 {
        "5"
    } else if d == 6 {
        "6"
    } else if d == 7 {
        "7"
    } else if d == 8 {
        "8"
    } else {
        "9"
    };
    assert(s@ =~= seq![digit_char(d as int)]);
    s
}

/// Appends `n` in decimal to `out`.
fn push_decimal(out: &mut String, n: u8)
    ensures
        final(out)@ == old(out)@ + decimal(n as nat),
{
    if n >= 100 {
        out.append(digit_str(n / 100));
    }
    if n >= 10 {
        out.append(digit_str((n / 10) % 10));
    }
    out.append(digit_str(n % 10));
    proof {
        reveal_with_fuel(decimal, 3);
        assert(out@ =~= old(out)@ + decimal(n as nat));
    }
}

impl Ipv4Addr {
    /// The address with the octets `a.b.c.d`.
    pub fn new(a: u8, b: u8, c: u8, d: u8) -> (r: Ipv4Addr)
        ensures
            r == (Ipv4Addr { a, b, c, d }),
    {
        Ipv4Addr { a, b, c, d }
    }

    /// The four octets, the first first.
    pub fn octets(&self) -> (r: [u8; 4])
        ensures
            r@ == seq![self.a, self.b, self.c, self.d],
    {
        let r = [self.a, self.b, self.c, self.d];
        assert(r@ =~= seq![self.a, self.b, self.c, self.d]);
        r
    }

    /// The address as text.
    pub open spec fn text(&self) -> Seq<char> {
        dotted(self.a, self.b, self.c, self.d)
    }

    /// The address as text: the four octets in decimal, with dots between.
    pub fn to_text(&self) -> (s: String)
        ensures
            s@ == self.text(),
    {
        let mut s = String::new();
        proof {
            reveal_strlit(".");
        }
        push_decimal(&mut s, self.a);
        s.append(".");
        push_decimal(&mut s, self.b);
        s.append(".");
        push_decimal(&mut s, self.c);
        s.append(".");
        push_decimal(&mut s, self.d);
        assert(s@ =~= self.text());
        s
    }
}

impl Ipv6Addr {
    /// The address with the eight segments, the first first.
    pub fn new(a: u16, b: u16, c: u16, d: u16, e: u16, f: u16, g: u16, h: u16) -> (r: Ipv6Addr)
        ensures
            r == (Ipv6Addr { a, b, c, d, e, f, g, h }),
    {
        Ipv6Addr { a, b, c, d, e, f, g, h }
    }

    /// The eight segments, the first first.
    pub fn segments(&self) -> (r: [u16; 8])
        ensures
            r@ == seq![self.a, self.b, self.c, self.d, self.e, self.f, self.g, self.h],
    {
        let r = [self.a, self.b, self.c, self.d, self.e, self.f, self.g, self.h];
        assert(r@ =~= seq![self.a, self.b, self.c, self.d, self.e, self.f, self.g, self.h]);
        r
    }
}

/// The octet of `.`.
pub const DOT: u8 = 0x2E;

/// The octet of `:`.
pub const COLON: u8 = 0x3A;

/// Whether `b` is the octet of a decimal digit.
pub open spec fn is_digit(b: u8) -> bool {
    0x30 <= b <= 0x39
}

/// The number from 0 to 255 that is written at `from` in one to three
/// decimal digits, without a zero before a digit, and the index behind it.
pub open spec fn octet_at(bytes: Seq<u8>, from: int) -> Option<(u8, int)> {
    if from < 0 || from >= bytes.len() || !is_digit(bytes[from]) {
        None
    } else {
        let a = bytes[from] - 0x30;
        if from + 1 >= bytes.len() || !is_digit(bytes[from + 1]) {
            Some((a as u8, from + 1))
        } else if a == 0 {
            None
        } else {
            let b = a * 10 + (bytes[from + 1] - 0x30);
            if from + 2 >= bytes.len() || !is_digit(bytes[from + 2]) {
                Some((b as u8, from + 2))
            } else {
                let c = b * 10 + (bytes[from + 2] - 0x30);
                if c > 255 || (from + 3 < bytes.len() && is_digit(bytes[from + 3])) {
                    None
                } else {
                    Some((c as u8, from + 3))
                }
            }
        }
    }
}

/// The number at `from` and the index behind the dot that follows it.
pub open spec fn dotted_octet_at(bytes: Seq<u8>, from: int) -> Option<(u8, int)> {
    match octet_at(bytes, from) {
        Some((n, end)) => if end < bytes.len() && bytes[end] == DOT {
            Some((n, end + 1))
        } else {
            None
        },
        None => None,
    }
}

/// The IPv4 address that the octets spell: four numbers from 0 to 255 with a
/// dot between each two, and nothing else.
pub open spec fn ipv4_of(bytes: Seq<u8>) -> Option<Ipv4Addr> {
    match dotted_octet_at(bytes, 0) {
        None => None,
        Some((a, p1)) => match dotted_octet_at(bytes, p1) {
            None => None,
            Some((b, p2)) => match dotted_octet_at(bytes, p2) {
                None => None,
                Some((c, p3)) => match octet_at(bytes, p3) {
                    None => None,
                    Some((d, end)) => if end == bytes.len() {
                        Some(Ipv4Addr { a, b, c, d })
                    } else {
                        None
                    },
                },
            },
        },
    }
}

/// The number at `from` and the index behind it.
fn parse_octet(bytes: &[u8], from: usize) -> (r: Option<(u8, usize)>)
    ensures
        match r {
            Some((n, end)) => octet_at(bytes@, from as int) == Some((n, end as int)) && from < end
                <= bytes@.len(),
            None => octet_at(bytes@, from as int) is None,
        },
{
    if from >= bytes.len() || bytes[from] < 0x30 || bytes[from] > 0x39 {
        return None;
    }
    let a: u16 = (bytes[from] - 0x30) as u16;
    if bytes.len() - from < 2 || bytes[from + 1] < 0x30 || bytes[from + 1] > 0x39 {
        return Some((a as u8, from + 1));
    }
    if a == 0 {
        return None;
    }
    let b: u16 = a * 10 + (bytes[from + 1] - 0x30) as u16;
    if bytes.len() - from < 3 || bytes[from + 2] < 0x30 || bytes[from + 2] > 0x39 {
        return Some((b as u8, from + 2));
    }
    let c: u16 = b * 10 + (bytes[from + 2] - 0x30) as u16;
    if c > 255 || (bytes.len() - from > 3 && bytes[from + 3] >= 0x30 && bytes[from + 3] <= 0x39) {
        return None;
    }
    Some((c as u8, from + 3))
}

/// The number at `from` and the index behind the dot that follows it.
fn parse_dotted_octet(bytes: &[u8], from: usize) -> (r: Option<(u8, usize)>)
    ensures
        match r {
            Some((n, end)) => dotted_octet_at(bytes@, from as int) == Some((n, end as int)) && from
                < end <= bytes@.len(),
            None => dotted_octet_at(bytes@, from as int) is None,
        },
{
    match parse_octet(bytes, from) {
        Some((n, end)) => {
            if end < bytes.len() && bytes[end] == DOT {
                Some((n, end + 1))
            } else {
                None
            }
        },
        None => None,
    }
}

impl Ipv4Addr {
    /// The address that `text` spells: four numbers from 0 to 255 with a dot
    /// between each two.
    pub fn parse(text: &str) -> (r: Option<Ipv4Addr>)
        ensures
            r == ipv4_of(vstd::utf8::encode_utf8(text@)),
    {
        let bytes = text.as_bytes();
        let (a, p1) = match parse_dotted_octet(bytes, 0) {
            Some(x) => x,
            None => {
                return None;
            },
        };
        let (b, p2) = match parse_dotted_octet(bytes, p1) {
            Some(x) => x,
            None => {
                return None;
            },
        };
        let (c, p3) = match parse_dotted_octet(bytes, p2) {
            Some(x) => x,
            None => {
                return None;
            },
        };
        let (d, end) = match parse_octet(bytes, p3) {
            Some(x) => x,
            None => {
                return None;
            },
        };
        if end == bytes.len() {
            Some(Ipv4Addr { a, b, c, d })
        } else {
            None
        }
    }
}

/// The value of the octet of a hexadecimal digit.
pub open spec fn hex_digit(b: u8) -> Option<u16> {
    if 0x30 <= b <= 0x39 {
        Some((b - 0x30) as u16)
    } else if 0x61 <= b <= 0x66 {
        Some((b - 0x61 + 10) as u16)
    } else if 0x41 <= b <= 0x46 {
        Some((b - 0x41 + 10) as u16)
    } else {
        None
    }
}

/// The group of one to four hexadecimal digits at `from`, and the index
/// behind it.
pub open spec fn group_at(bytes: Seq<u8>, from: int) -> Option<(u16, int)> {
    if from < 0 || from >= bytes.len() || hex_digit(bytes[from]) is None {
        None
    } else {
        let a = hex_digit(bytes[from])->0;
        if from + 1 >= bytes.len() || hex_digit(bytes[from + 1]) is None {
            Some((a, from + 1))
        } else {
            let b = (a * 16 + hex_digit(bytes[from + 1])->0) as u16;
            if from + 2 >= bytes.len() || hex_digit(bytes[from + 2]) is None {
                Some((b, from + 2))
            } else {
                let c = (b * 16 + hex_digit(bytes[from + 2])->0) as u16;
                if from + 3 >= bytes.len() || hex_digit(bytes[from + 3]) is None {
                    Some((c, from + 3))
                } else {
                    Some(((c * 16 + hex_digit(bytes[from + 3])->0) as u16, from + 4))
                }
            }
        }
    }
}

/// The groups that are written from `from` on, with a colon between each two;
/// nothing where something else stands there, where there are more than
/// eight, or where there is none.
pub open spec fn groups_at(bytes: Seq<u8>, from: int, room: nat) -> Option<(Seq<u16>, int)>
    decreases room,
{
    if room == 0 {
        None
    } else {
        match group_at(bytes, from) {
            None => None,
            Some((group, end)) => if end + 1 < bytes.len() && bytes[end] == COLON && bytes[end + 1]
                != COLON {
                match groups_at(bytes, end + 1, (room - 1) as nat) {
                    None => None,
                    Some((rest, last)) => Some((seq![group] + rest, last)),
                }
            } else {
                Some((seq![group], end))
            },
        }
    }
}

/// Whether two colons stand at `at`.
pub open spec fn gap_at(bytes: Seq<u8>, at: int) -> bool {
    0 <= at && at + 1 < bytes.len() && bytes[at] == COLON && bytes[at + 1] == COLON
}

/// The groups before the two colons, or all the groups: those that are
/// written from the start on, if any.
pub open spec fn head_groups(bytes: Seq<u8>) -> Option<(Seq<u16>, int)> {
    if gap_at(bytes, 0) {
        Some((Seq::empty(), 0))
    } else {
        groups_at(bytes, 0, 8)
    }
}

/// The eight groups that the octets spell: eight groups of hexadecimal
/// digits with colons between them, or fewer with two colons at the one
/// place where groups of zeros are left out.
pub open spec fn ipv6_groups(bytes: Seq<u8>) -> Option<Seq<u16>> {
    match head_groups(bytes) {
        None => None,
        Some((head, mid)) => if mid == bytes.len() {
            if head.len() == 8 {
                Some(head)
            } else {
                None
            }
        } else if !gap_at(bytes, mid) {
            None
        } else if mid + 2 == bytes.len() {
            if head.len() <= 7 {
                Some(head + Seq::new((8 - head.len()) as nat, |i: int| 0u16))
            } else {
                None
            }
        } else {
            match groups_at(bytes, mid + 2, 8) {
                None => None,
                Some((tail, end)) => if end == bytes.len() && head.len() + tail.len() <= 7 {
                    Some(
                        head + Seq::new((8 - head.len() - tail.len()) as nat, |i: int| 0u16) + tail,
                    )
                } else {
                    None
                },
            }
        },
    }
}

/// The IPv6 address that the octets spell.
pub open spec fn ipv6_of(bytes: Seq<u8>) -> Option<Ipv6Addr> {
    match ipv6_groups(bytes) {
        None => None,
        Some(g) => Some(
            Ipv6Addr { a: g[0], b: g[1], c: g[2], d: g[3], e: g[4], f: g[5], g: g[6], h: g[7] },
        ),
    }
}

/// The value of the octet of a hexadecimal digit.
fn hex_of(b: u8) -> (r: Option<u16>)
    ensures
        r == hex_digit(b),
        r matches Some(v) ==> v < 16,
{
    if 0x30 <= b && b <= 0x39 {
        Some((b - 0x30) as u16)
    } else if 0x61 <= b && b <= 0x66 {
        Some((b - 0x61 + 10) as u16)
    } else if 0x41 <= b && b <= 0x46 {
        Some((b - 0x41 + 10) as u16)
    } else {
        None
    }
}

/// The value of the hexadecimal digit at `at`, if one stands there.
fn hex_at(bytes: &[u8], at: usize) -> (r: Option<u16>)
    ensures
        r == if at < bytes@.len() {
            hex_digit(bytes@[at as int])
        } else {
            None::<u16>
        },
        r matches Some(v) ==> v < 16,
{
    if at < bytes.len() {
        hex_of(bytes[at])
    } else {
        None
    }
}

/// The group at `from` and the index behind it.
fn parse_group(bytes: &[u8], from: usize) -> (r: Option<(u16, usize)>)
    requires
        from <= bytes@.len(),
    ensures
        match r {
            Some((n, end)) => group_at(bytes@, from as int) == Some((n, end as int)) && from < end
                <= bytes@.len(),
            None => group_at(bytes@, from as int) is None,
        },
{
    let len = bytes.len();
    let a = match hex_at(bytes, from) {
        Some(v) => v,
        None => {
            return None;
        },
    };
    let b = match hex_at(bytes, from + 1) {
        Some(v) => a * 16 + v,
        None => {
            return Some((a, from + 1));
        },
    };
    let c = match hex_at(bytes, from + 2) {
        Some(v) => b * 16 + v,
        None => {
            return Some((b, from + 2));
        },
    };
    match hex_at(bytes, from + 3) {
        Some(v) => Some((c * 16 + v, from + 4)),
        None => Some((c, from + 3)),
    }
}

/// The groups that are written from `from` on: see `groups_at`.
fn parse_groups(bytes: &[u8], from: usize) -> (r: Option<(Vec<u16>, usize)>)
    requires
        from <= bytes@.len(),
    ensures
        match r {
            Some((groups, end)) => groups_at(bytes@, from as int, 8) == Some((groups@, end as int))
                && 1 <= groups@.len() <= 8 && from < end <= bytes@.len(),
            None => groups_at(bytes@, from as int, 8) is None,
        },
{
    let mut groups: Vec<u16> = Vec::new();
    let mut at: usize = from;
    loop
        invariant
            from <= at <= bytes@.len(),
            groups@.len() < 8,
            groups@.len() > 0 ==> from < at,
            groups_at(bytes@, from as int, 8) == match groups_at(
                bytes@,
                at as int,
                (8 - groups@.len()) as nat,
            ) {
                Some((rest, end)) => Some((groups@ + rest, end)),
                None => None::<(Seq<u16>, int)>,
            },
        decreases 8 - groups@.len(),
    {
        let ghost before = groups@;
        let (group, end) = match parse_group(bytes, at) {
            Some(x) => x,
            None => {
                return None;
            },
        };
        groups.push(group);
        if bytes.len() - end > 1 && bytes[end] == COLON && bytes[end + 1] != COLON {
            if groups.len() == 8 {
                assert(groups_at(bytes@, end + 1, 0) is None);
                return None;
            }
            proof {
                let next = groups_at(bytes@, end + 1, (8 - groups@.len()) as nat);
                if next is Some {
                    let found = next->0;
                    let rest = found.0;
                    assert(before + (seq![group] + rest) =~= groups@ + rest);
                }
            }
            at = end + 1;
        } else {
            assert(before + seq![group] =~= groups@);
            return Some((groups, end));
        }
    }
}

impl Ipv6Addr {
    /// The address that `text` spells: eight groups of one to four
    /// hexadecimal digits with colons between them, or fewer with two colons
    /// at the one place where groups of zeros are left out.
    pub fn parse(text: &str) -> (r: Option<Ipv6Addr>)
        ensures
            r == ipv6_of(vstd::utf8::encode_utf8(text@)),
    {
        let bytes = text.as_bytes();
        let n = bytes.len();
        let mut head: Vec<u16> = Vec::new();
        let mut mid: usize = 0;
        if !(n >= 2 && bytes[0] == COLON && bytes[1] == COLON) {
            match parse_groups(bytes, 0) {
                Some((groups, end)) => {
                    head = groups;
                    mid = end;
                },
                None => {
                    return None;
                },
            }
        }
        let mut all: Vec<u16> = Vec::new();
        if mid == n {
            if head.len() != 8 {
                return None;
            }
            all = head;
        } else {
            if !(n - mid >= 2 && bytes[mid] == COLON && bytes[mid + 1] == COLON) {
                return None;
            }
            let mut tail: Vec<u16> = Vec::new();
            if mid + 2 < n {
                match parse_groups(bytes, mid + 2) {
                    Some((groups, end)) => {
                        if end != n {
                            return None;
                        }
                        tail = groups;
                    },
                    None => {
                        return None;
                    },
                }
            }
            if head.len() + tail.len() > 7 {
                return None;
            }
            let zeros = 8 - head.len() - tail.len();
            let ghost first = head@;
            let ghost last = tail@;
            all = head;
            let mut i: usize = 0;
            while i < zeros
                invariant
                    i <= zeros,
                    zeros == 8 - first.len() - last.len(),
                    all@ == first + Seq::new(i as nat, |j: int| 0u16),
                decreases zeros - i,
            {
                all.push(0);
                assert(all@ =~= first + Seq::new((i + 1) as nat, |j: int| 0u16));
                i = i + 1;
            }
            let mut j: usize = 0;
            while j < tail.len()
                invariant
                    j <= tail@.len(),
                    tail@ == last,
                    all@ == first + Seq::new(zeros as nat, |j: int| 0u16) + last.take(j as int),
                decreases tail@.len() - j,
            {
                all.push(tail[j]);
                assert(all@ =~= first + Seq::new(zeros as nat, |j: int| 0u16) + last.take(j + 1));
                j = j + 1;
            }
            assert(last.take(last.len() as int) =~= last);
            assert(first + Seq::new(zeros as nat, |j: int| 0u16) + Seq::<u16>::empty() =~= first
                + Seq::new(zeros as nat, |j: int| 0u16));
        }
        Some(Ipv6Addr::new(all[0], all[1], all[2], all[3], all[4], all[5], all[6], all[7]))
    }
}

} // verus!
