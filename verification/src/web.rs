use vstd::prelude::*;
use vstd::slice::slice_subrange;
use vstd::string::StringExecFns;

verus! {

/// The octet of `%`, which begins an escape.
pub const PERCENT: u8 = 0x25;

/// The octet of `&`, which separates the fields of a form.
pub const AMPERSAND: u8 = 0x26;

/// The octet of `=`, which separates the name of a field from its value.
pub const EQUALS: u8 = 0x3D;

/// The value of a hexadecimal digit; 0 for another character.
pub open spec fn hex_value(c: char) -> u8 {
    if '0' <= c <= '9' {
        (c as u8 - '0' as u8) as u8
    } else if 'a' <= c <= 'f' {
        (c as u8 - 'a' as u8 + 10) as u8
    } else if 'A' <= c <= 'F' {
        (c as u8 - 'A' as u8 + 10) as u8
    } else {
        0
    }
}

/// The value of a hexadecimal digit; 0 for another character.
pub fn hex_to_num(c: char) -> (n: u8)
    ensures
        n == hex_value(c),
        n < 16,
{
    if '0' <= c && c <= '9' {
        (c as u8) - ('0' as u8)
    } else if 'a' <= c && c <= 'f' {
        (c as u8) - ('a' as u8) + 10
    } else if 'A' <= c && c <= 'F' {
        (c as u8) - ('A' as u8) + 10
    } else {
        0
    }
}

/// The text that the octets from `from` on stand for in a form: `%` and the
/// two octets behind it are the character whose number the two give in
/// hexadecimal; any other octet is the character with its number. A `%` with
/// fewer than two octets behind it stands for itself.
pub open spec fn decoded(bytes: Seq<u8>, from: int) -> Seq<char>
    decreases bytes.len() - from,
{
    if from < 0 || from >= bytes.len() {
        Seq::empty()
    } else if bytes[from] == PERCENT && from + 2 < bytes.len() {
        seq![
            ((hex_value(bytes[from + 1] as char) * 16 + hex_value(bytes[from + 2] as char)) as u8)
                as char,
        ] + decoded(bytes, from + 3)
    } else {
        seq![bytes[from] as char] + decoded(bytes, from + 1)
    }
}

/// Appends a character to a text: `String::push`.
#[verifier::external_body]
fn push_char(text: &mut String, c: char)
    ensures
        final(text)@ == old(text)@.push(c),
{
    text.push(c);
}

/// The text that `bytes` stand for in a form.
pub fn url_decode_bytes(bytes: &[u8]) -> (text: String)
    ensures
        text@ == decoded(bytes@, 0),
{
    let mut text = String::new();
    let mut pos: usize = 0;
    proof {
        assert(text@ + decoded(bytes@, 0) =~= decoded(bytes@, 0));
    }
    while pos < bytes.len()
        invariant
            pos <= bytes@.len(),
            text@ + decoded(bytes@, pos as int) == decoded(bytes@, 0),
        decreases bytes@.len() - pos,
    {
        let ghost before = text@;
        let cur = bytes[pos];
        if cur == PERCENT && bytes.len() - pos > 2 {
            let a = hex_to_num(bytes[pos + 1] as char);
            let b = hex_to_num(bytes[pos + 2] as char);
            let c = (a * 16 + b) as char;
            push_char(&mut text, c);
            assert(before + (seq![c] + decoded(bytes@, pos + 3)) =~= before.push(c) + decoded(
                bytes@,
                pos + 3,
            ));
            pos = pos + 3;
        } else {
            let c = cur as char;
            push_char(&mut text, c);
            assert(before + (seq![c] + decoded(bytes@, pos + 1)) =~= before.push(c) + decoded(
                bytes@,
                pos + 1,
            ));
            pos = pos + 1;
        }
    }
    proof {
        assert(text@ + decoded(bytes@, pos as int) =~= text@);
    }
    text
}

/// The text that `instr` stands for in a form.
pub fn url_decode(instr: &str) -> (text: String)
    ensures
        text@ == decoded(vstd::utf8::encode_utf8(instr@), 0),
{
    url_decode_bytes(instr.as_bytes())
}

/// The index of the first octet `mark` at or behind `from`, or the length of
/// `bytes` where there is none.
pub open spec fn until(bytes: Seq<u8>, from: int, mark: u8) -> int
    decreases bytes.len() - from,
{
    if from < 0 || from >= bytes.len() {
        from
    } else if bytes[from] == mark {
        from
    } else {
        until(bytes, from + 1, mark)
    }
}

/// What `until` finds lies at or behind `from`, and inside the octets.
pub proof fn lemma_until(bytes: Seq<u8>, from: int, mark: u8)
    requires
        0 <= from <= bytes.len(),
    ensures
        from <= until(bytes, from, mark) <= bytes.len(),
    decreases bytes.len() - from,
{
    if from < bytes.len() && bytes[from] != mark {
        lemma_until(bytes, from + 1, mark);
    }
}

/// The index of the first octet `mark` at or behind `from`.
fn find(bytes: &[u8], from: usize, mark: u8) -> (at: usize)
    requires
        from <= bytes@.len(),
    ensures
        at == until(bytes@, from as int, mark),
        from <= at <= bytes@.len(),
{
    let mut at: usize = from;
    while at < bytes.len() && bytes[at] != mark
        invariant
            from <= at <= bytes@.len(),
            until(bytes@, from as int, mark) == until(bytes@, at as int, mark),
        decreases bytes@.len() - at,
    {
        at = at + 1;
    }
    at
}

/// Whether a piece of a form is a field: it holds one `=`.
pub open spec fn is_field(piece: Seq<u8>) -> bool {
    until(piece, 0, EQUALS) < piece.len() && until(piece, until(piece, 0, EQUALS) + 1, EQUALS)
        >= piece.len()
}

/// The name and the value of a field: what stands before its `=` and what
/// stands behind it, each decoded.
pub open spec fn field_of(piece: Seq<u8>) -> (Seq<char>, Seq<char>) {
    (
        decoded(piece.subrange(0, until(piece, 0, EQUALS)), 0),
        decoded(piece.subrange(until(piece, 0, EQUALS) + 1, piece.len() as int), 0),
    )
}

/// The fields of the form from index `from` on: the pieces between the `&`
/// that are fields, in their order.
pub open spec fn fields_from(bytes: Seq<u8>, from: int) -> Seq<(Seq<char>, Seq<char>)>
    decreases bytes.len() + 1 - from,
{
    if from < 0 || from > bytes.len() {
        Seq::empty()
    } else {
        let end = until(bytes, from, AMPERSAND);
        proof {
            lemma_until(bytes, from, AMPERSAND);
        }
        let piece = bytes.subrange(from, end);
        if is_field(piece) {
            seq![field_of(piece)] + fields_from(bytes, end + 1)
        } else {
            fields_from(bytes, end + 1)
        }
    }
}

/// The fields as contracts see them.
pub open spec fn field_views(fields: Seq<(String, String)>) -> Seq<(Seq<char>, Seq<char>)> {
    Seq::new(fields.len(), |i: int| (fields[i].0@, fields[i].1@))
}

/// The fields of a form: the pieces between the `&` that hold one `=`, each
/// as the decoded name and the decoded value.
pub fn parse_formdata(data: &str) -> (fields: Vec<(String, String)>)
    ensures
        field_views(fields@) == fields_from(vstd::utf8::encode_utf8(data@), 0),
{
    let bytes = data.as_bytes();
    let mut fields: Vec<(String, String)> = Vec::new();
    let mut from: usize = 0;
    proof {
        assert(field_views(fields@) + fields_from(bytes@, 0) =~= fields_from(bytes@, 0));
    }
    loop
        invariant
            from <= bytes@.len(),
            bytes@ == vstd::utf8::encode_utf8(data@),
            field_views(fields@) + fields_from(bytes@, from as int) == fields_from(bytes@, 0),
        decreases bytes@.len() - from,
    {
        let ghost before = field_views(fields@);
        let end = find(bytes, from, AMPERSAND);
        let piece = slice_subrange(bytes, from, end);
        let eq = find(piece, 0, EQUALS);
        let ghost rest = fields_from(bytes@, end + 1);
        if eq < piece.len() && find(piece, eq + 1, EQUALS) >= piece.len() {
            let name = url_decode_bytes(slice_subrange(piece, 0, eq));
            let value = url_decode_bytes(slice_subrange(piece, eq + 1, piece.len()));
            fields.push((name, value));
            assert(field_views(fields@) =~= before.push(field_of(piece@)));
            assert(before + (seq![field_of(piece@)] + rest) =~= before.push(field_of(piece@))
                + rest);
        }
        if end == bytes.len() {
            assert(rest =~= Seq::empty());
            assert(field_views(fields@) + rest =~= field_views(fields@));
            return fields;
        }
        from = end + 1;
    }
}

/// The value of the last of the first `upto` fields whose name is `name`.
pub open spec fn field_value(fields: Seq<(Seq<char>, Seq<char>)>, name: Seq<char>, upto: int) -> Option<
    Seq<char>,
>
    decreases upto,
{
    if upto <= 0 {
        None
    } else if fields[upto - 1].0 == name {
        Some(fields[upto - 1].1)
    } else {
        field_value(fields, name, upto - 1)
    }
}

/// The value of the last field whose name is `name`.
pub fn get_field<'a>(fields: &'a Vec<(String, String)>, name: &str) -> (value: Option<&'a String>)
    ensures
        match value {
            Some(v) => field_value(field_views(fields@), name@, fields@.len() as int) == Some(v@),
            None => field_value(field_views(fields@), name@, fields@.len() as int) is None,
        },
{
    let key = String::from_str(name);
    let mut i: usize = fields.len();
    while i > 0
        invariant
            i <= fields@.len(),
            key@ == name@,
            field_value(field_views(fields@), name@, fields@.len() as int) == field_value(
                field_views(fields@),
                name@,
                i as int,
            ),
        decreases i,
    {
        if fields[i - 1].0 == key {
            return Some(&fields[i - 1].1);
        }
        i = i - 1;
    }
    None
}

/// The number that the digits from index `from` on add to `acc`, if it fits
/// 32 bits and all of them are digits.
pub open spec fn digits_value(bytes: Seq<u8>, from: int, acc: nat) -> Option<u32>
    decreases bytes.len() - from,
{
    if from < 0 || from >= bytes.len() {
        if acc <= u32::MAX {
            Some(acc as u32)
        } else {
            None
        }
    } else if 0x30 <= bytes[from] <= 0x39 && acc * 10 + (bytes[from] - 0x30) <= u32::MAX {
        digits_value(bytes, from + 1, (acc * 10 + (bytes[from] - 0x30)) as nat)
    } else {
        None
    }
}

/// The number that a text stands for: digits, with or without a `+` before
/// them, whose number fits 32 bits.
pub open spec fn number_of(bytes: Seq<u8>) -> Option<u32> {
    let start: int = if bytes.len() > 0 && bytes[0] == 0x2B {
        1
    } else {
        0
    };
    if start >= bytes.len() {
        None
    } else {
        digits_value(bytes, start, 0)
    }
}

/// The number that `text` stands for.
pub fn parse_u32(text: &str) -> (n: Option<u32>)
    ensures
        n == number_of(vstd::utf8::encode_utf8(text@)),
{
    let bytes = text.as_bytes();
    let start: usize = if bytes.len() > 0 && bytes[0] == 0x2B {
        1
    } else {
        0
    };
    if start >= bytes.len() {
        return None;
    }
    let mut acc: u32 = 0;
    let mut i: usize = start;
    while i < bytes.len()
        invariant
            start <= i <= bytes@.len(),
            bytes@ == vstd::utf8::encode_utf8(text@),
            number_of(bytes@) == digits_value(bytes@, start as int, 0),
            digits_value(bytes@, start as int, 0) == digits_value(bytes@, i as int, acc as nat),
        decreases bytes@.len() - i,
    {
        let b = bytes[i];
        if b < 0x30 || b > 0x39 {
            return None;
        }
        let digit = (b - 0x30) as u32;
        if acc > (u32::MAX - digit) / 10 {
            return None;
        }
        acc = acc * 10 + digit;
        i = i + 1;
    }
    Some(acc)
}

} // verus!
