//! Hexadecimal text for byte strings.
use vstd::prelude::*;

verus! {

#[verifier::external_type_specification]
#[verifier::external_body]
pub struct ExParseIntError(core::num::ParseIntError);

/// The lower-case hexadecimal digit for `d`.
pub open spec fn hex_char(d: nat) -> char {
    seq!['0', '1', '2', '3', '4', '5', '6', '7', '8', '9', 'a', 'b', 'c', 'd', 'e', 'f'][d as int]
}

/// Two lower-case digits for each byte, most significant first.
pub open spec fn hex_of(b: Seq<u8>) -> Seq<char>
    decreases b.len(),
{
    if b.len() == 0 {
        Seq::empty()
    } else {
        hex_of(b.drop_last()) + seq![hex_char(b.last() as nat / 16), hex_char(b.last() as nat % 16)]
    }
}

/// The value of a hexadecimal digit of either case.
pub open spec fn hex_digit_value(c: char) -> Option<u8> {
    if '0' <= c && c <= '9' {
        Some((c as u32 - '0' as u32) as u8)
    } else if 'a' <= c && c <= 'f' {
        Some((c as u32 - 'a' as u32 + 10) as u8)
    } else if 'A' <= c && c <= 'F' {
        Some((c as u32 - 'A' as u32 + 10) as u8)
    } else {
        None
    }
}

/// The byte that a two-character text reads as in base 16: two digits, or
/// a `+` sign and one digit.
pub open spec fn pair_value(a: char, b: char) -> Option<u8> {
    if a == '+' {
        hex_digit_value(b)
    } else {
        match (hex_digit_value(a), hex_digit_value(b)) {
            (Some(x), Some(y)) => Some((x * 16 + y) as u8),
            _ => None,
        }
    }
}

/// The byte that the `k`-th pair of characters of `s` reads as.
pub open spec fn pair_at(s: Seq<char>, k: int) -> Option<u8> {
    pair_value(s[2 * k], s[2 * k + 1])
}

/// Relies on `u8::from_str_radix` in base 16: it reads an optional `+` sign
/// followed by digits, and fails on any other text.
#[verifier::external_body]
fn parse_hex_pair(s: &str) -> (r: Result<u8, core::num::ParseIntError>)
    requires
        s@.len() == 2,
    ensures
        r matches Ok(v) ==> pair_value(s@[0], s@[1]) == Some(v),
        r is Err ==> pair_value(s@[0], s@[1]) is None,
{
    u8::from_str_radix(s, 16)
}

fn hex_digit(d: u8) -> (r: &'static str)
    requires
        d < 16,
    ensures
        r@ == seq![hex_char(d as nat)],
{
    if d == 0 {
        proof {
            reveal_strlit("0");
        }
        "0"
    } else if d == 1 {
        proof {
            reveal_strlit("1");
        }
        "1"
    } else if d == 2 {
        proof {
            reveal_strlit("2");
        }
        "2"
    } else if d == 3 {
        proof {
            reveal_strlit("3");
        }
        "3"
    } else if d == 4 {
        proof {
            reveal_strlit("4");
        }
        "4"
    } else if d == 5 {
        proof {
            reveal_strlit("5");
        }
        "5"
    } else if d == 6 {
        proof {
            reveal_strlit("6");
        }
        "6"
    } else if d == 7 {
        proof {
            reveal_strlit("7");
        }
        "7"
    } else if d == 8 {
        proof {
            reveal_strlit("8");
        }
        "8"
    } else if d == 9 {
        proof {
            reveal_strlit("9");
        }
        "9"
    } else if d == 10 {
        proof {
            reveal_strlit("a");
        }
        "a"
    } else if d == 11 {
        proof {
            reveal_strlit("b");
        }
        "b"
    } else if d == 12 {
        proof {
            reveal_strlit("c");
        }
        "c"
    } else if d == 13 {
        proof {
            reveal_strlit("d");
        }
        "d"
    } else if d == 14 {
        proof {
            reveal_strlit("e");
        }
        "e"
    } else {
        proof {
            reveal_strlit("f");
        }
        "f"
    }
}

/// Writes each byte as two lower-case hexadecimal digits.
pub fn encode_hex(bytes: &[u8]) -> (r: String)
    ensures
        r@ == hex_of(bytes@),
{
    let mut s = String::new();
    let mut i: usize = 0;
    while i < bytes.len()
        invariant
            i <= bytes@.len(),
            s@ == hex_of(bytes@.take(i as int)),
        decreases bytes@.len() - i,
    {
        let b = bytes[i];
        s.append(hex_digit(b / 16));
        s.append(hex_digit(b % 16));
        proof {
            assert(bytes@.take(i + 1).drop_last() =~= bytes@.take(i as int));
        }
        i = i + 1;
    }
    assert(bytes@.take(i as int) =~= bytes@);
    s
}

/// Reads each pair of characters as one byte in base 16; fails on the first
/// pair that is not a base-16 number.
pub fn decode_hex(s: &str) -> (r: Result<Vec<u8>, core::num::ParseIntError>)
    requires
        s.is_ascii(),
        s@.len() % 2 == 0,
    ensures
        r is Ok <==> forall|k: int| 0 <= k < s@.len() / 2 ==> #[trigger] pair_at(s@, k) is Some,
        r matches Ok(v) ==> v@.len() == s@.len() / 2 && forall|k: int|
            0 <= k < v@.len() ==> #[trigger] pair_at(s@, k) == Some(v@[k]),
{
    let n = s.unicode_len();
    let mut out: Vec<u8> = Vec::new();
    let mut i: usize = 0;
    while i < n
        invariant
            n == s@.len(),
            n % 2 == 0,
            i % 2 == 0,
            i <= n,
            s.is_ascii(),
            out@.len() == i / 2,
            forall|k: int| 0 <= k < out@.len() ==> #[trigger] pair_at(s@, k) == Some(out@[k]),
        decreases n - i,
    {
        let pair = s.substring_ascii(i, i + 2);
        match parse_hex_pair(pair) {
            Ok(v) => {
                out.push(v);
                assert(pair_at(s@, i as int / 2) == Some(v));
            },
            Err(e) => {
                assert(pair_at(s@, i as int / 2) is None);
                return Err(e);
            },
        }
        i = i + 2;
    }
    Ok(out)
}

} // verus!
