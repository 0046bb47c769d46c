//! Client-visible record ids.
//!
//! The metadata store assigns each multipart session and each listing
//! token a record id of 12 bytes, and that id — rendered as 24 lowercase
//! hex digits — is what the client sees as its upload id or continuation
//! token. A string the client hands back is parsed first; one that does
//! not parse can name no record and is rejected as `InvalidToken` without
//! a store round trip. Both directions of the rendering are verified here;
//! the store boundary only converts the 12 bytes into its own id type.

use vstd::prelude::*;

use crate::error::{ProxyErrorCode, ProxyS3Error};

verus! {

/// A metadata-store record id: the 12 bytes behind a client-visible
/// upload id or continuation token.
#[derive(Clone, Debug)]
pub struct RecordId {
    pub bytes: Vec<u8>,
}

impl RecordId {
    /// A record id holds exactly 12 bytes.
    pub open spec fn wf(self) -> bool {
        self.bytes@.len() == 12
    }
}

/// Whether `c` is a hexadecimal digit.
pub open spec fn is_hex_digit(c: char) -> bool {
    ('0' <= c && c <= '9') || ('a' <= c && c <= 'f') || ('A' <= c && c <= 'F')
}

/// The shape of a record id rendered as text: exactly 24 hex digits.
pub open spec fn is_record_id_hex(s: Seq<char>) -> bool {
    s.len() == 24 && (forall|i: int| 0 <= i < s.len() ==> is_hex_digit(#[trigger] s[i]))
}

/// The lowercase hex digit for a value below 16.
pub open spec fn hex_char_of(v: int) -> char {
    if v == 0 {
        '0'
    } else if v == 1 {
        '1'
    } else if v == 2 {
        '2'
    } else if v == 3 {
        '3'
    } else if v == 4 {
        '4'
    } else if v == 5 {
        '5'
    } else if v == 6 {
        '6'
    } else if v == 7 {
        '7'
    } else if v == 8 {
        '8'
    } else if v == 9 {
        '9'
    } else if v == 10 {
        'a'
    } else if v == 11 {
        'b'
    } else if v == 12 {
        'c'
    } else if v == 13 {
        'd'
    } else if v == 14 {
        'e'
    } else {
        'f'
    }
}

/// The value of a hex digit.
pub open spec fn hex_val(c: char) -> int {
    if '0' <= c && c <= '9' {
        c as int - '0' as int
    } else if 'a' <= c && c <= 'f' {
        c as int - 'a' as int + 10
    } else {
        c as int - 'A' as int + 10
    }
}

/// Lowercase hex rendering: two digits per byte, in byte order.
pub open spec fn hex_of_bytes(bs: Seq<u8>) -> Seq<char>
    decreases bs.len(),
{
    if bs.len() == 0 {
        Seq::empty()
    } else {
        hex_of_bytes(bs.drop_last()) + seq![
            hex_char_of(bs.last() as int / 16),
            hex_char_of(bs.last() as int % 16),
        ]
    }
}

/// The bytes a string of hex-digit pairs denotes.
pub open spec fn bytes_of_hex(s: Seq<char>) -> Seq<u8>
    decreases s.len(),
{
    if s.len() < 2 {
        Seq::empty()
    } else {
        bytes_of_hex(s.drop_last().drop_last()) + seq![
            (hex_val(s[s.len() - 2]) * 16 + hex_val(s.last())) as u8,
        ]
    }
}

/// Hex rendering and parsing are mutually inverse: a rendered id is twice
/// as long, consists of hex digits only, and parses back to the same
/// bytes — so the token minted for a record always resolves to that very
/// record.
pub proof fn lemma_hex_round_trip(bs: Seq<u8>)
    ensures
        hex_of_bytes(bs).len() == 2 * bs.len(),
        forall|i: int|
            0 <= i < hex_of_bytes(bs).len() ==> is_hex_digit(#[trigger] hex_of_bytes(bs)[i]),
        bytes_of_hex(hex_of_bytes(bs)) == bs,
    decreases bs.len(),
{
    if bs.len() == 0 {
        assert(bytes_of_hex(hex_of_bytes(bs)) =~= bs);
    } else {
        lemma_hex_round_trip(bs.drop_last());
        let h = hex_of_bytes(bs);
        let prefix = hex_of_bytes(bs.drop_last());
        let b = bs.last();
        let hi = hex_char_of(b as int / 16);
        let lo = hex_char_of(b as int % 16);
        assert(h.drop_last().drop_last() =~= prefix);
        assert(h[h.len() - 2] == hi && h.last() == lo);
        assert(hex_val(hi) == b as int / 16 && hex_val(lo) == b as int % 16);
        assert((hex_val(hi) * 16 + hex_val(lo)) as u8 == b);
        assert(bytes_of_hex(h) =~= bs);
        assert forall|i: int| 0 <= i < h.len() implies is_hex_digit(h[i]) by {
            if i < prefix.len() {
                assert(h[i] == prefix[i]);
            }
        }
    }
}

/// Appends one lowercase hex digit.
fn push_hex_digit(s: &mut String, v: u8)
    requires
        v < 16,
    ensures
        final(s)@ == old(s)@ + seq![hex_char_of(v as int)],
{
    let digit: &str = if v == 0 {
        "0"
    } else if v == 1 {
        "1"
    } else if v == 2 {
        "2"
    } else if v == 3 {
        "3"
    } else if v == 4 {
        "4"
    } else if v == 5 {
        "5"
    } else if v == 6 {
        "6"
    } else if v == 7 {
        "7"
    } else if v == 8 {
        "8"
    } else if v == 9 {
        "9"
    } else if v == 10 {
        "a"
    } else if v == 11 {
        "b"
    } else if v == 12 {
        "c"
    } else if v == 13 {
        "d"
    } else if v == 14 {
        "e"
    } else {
        "f"
    };
    proof {
        reveal_strlit("0");
        reveal_strlit("1");
        reveal_strlit("2");
        reveal_strlit("3");
        reveal_strlit("4");
        reveal_strlit("5");
        reveal_strlit("6");
        reveal_strlit("7");
        reveal_strlit("8");
        reveal_strlit("9");
        reveal_strlit("a");
        reveal_strlit("b");
        reveal_strlit("c");
        reveal_strlit("d");
        reveal_strlit("e");
        reveal_strlit("f");
        assert(digit@ =~= seq![hex_char_of(v as int)]);
    }
    s.append(digit);
}

/// Renders a record id as the string the client sees: the 24 lowercase
/// hex digits of its 12 bytes — always of the shape `parse_record_id`
/// accepts, and naming exactly this id.
pub fn client_record_token(id: &RecordId) -> (t: String)
    requires
        id.wf(),
    ensures
        t@ == hex_of_bytes(id.bytes@),
        is_record_id_hex(t@),
{
    let mut t = String::new();
    let n = id.bytes.len();
    let mut i: usize = 0;
    while i < n
        invariant
            i <= n == id.bytes@.len(),
            t@ == hex_of_bytes(id.bytes@.take(i as int)),
        decreases n - i,
    {
        let b = id.bytes[i];
        push_hex_digit(&mut t, b / 16);
        push_hex_digit(&mut t, b % 16);
        proof {
            assert(id.bytes@.take(i + 1).drop_last() =~= id.bytes@.take(i as int));
            assert(id.bytes@.take(i + 1).last() == id.bytes@[i as int]);
            assert(t@ =~= hex_of_bytes(id.bytes@.take(i + 1)));
        }
        i = i + 1;
    }
    proof {
        assert(id.bytes@.take(n as int) =~= id.bytes@);
        lemma_hex_round_trip(id.bytes@);
    }
    t
}

/// The value of one hex-digit byte, over the ASCII ranges `0-9`, `a-f`,
/// `A-F`.
fn hex_val_of_ascii(b: u8) -> (r: Option<u8>)
    ensures
        r is Some <==> (48 <= b <= 57 || 97 <= b <= 102 || 65 <= b <= 70),
        48 <= b <= 57 ==> r == Some((b - 48) as u8),
        97 <= b <= 102 ==> r == Some((b - 87) as u8),
        65 <= b <= 70 ==> r == Some((b - 55) as u8),
{
    if 48 <= b && b <= 57 {
        Some(b - 48)
    } else if 97 <= b && b <= 102 {
        Some(b - 87)
    } else if 65 <= b && b <= 70 {
        Some(b - 55)
    } else {
        None
    }
}

/// Parses a client-supplied upload id or continuation token as a record
/// id. A string that is not 24 hex digits names no record: `InvalidToken`;
/// a parsed token denotes exactly the bytes of the id it was rendered
/// from.
pub fn parse_record_id(s: &String) -> (out: Result<RecordId, ProxyS3Error>)
    ensures
        out is Ok <==> is_record_id_hex(s@),
        out is Ok ==> out->Ok_0.wf() && out->Ok_0.bytes@ == bytes_of_hex(s@),
        out is Err ==> out->Err_0 == ProxyS3Error::just_code_spec(ProxyErrorCode::InvalidToken),
{
    let st: &str = s.as_str();
    if !st.is_ascii() {
        proof {
            let i = choose|i: int| 0 <= i < s@.len() && !('\0' <= #[trigger] s@[i] <= '\u{7f}');
            if 0 <= i < s@.len() {
                assert(!is_hex_digit(s@[i]));
            }
        }
        return Err(ProxyS3Error::invalid_token());
    }
    if st.unicode_len() != 24 {
        return Err(ProxyS3Error::invalid_token());
    }
    let mut bytes: Vec<u8> = Vec::new();
    let mut i: usize = 0;
    while i < 12
        invariant
            i <= 12,
            st@ == s@,
            s@.len() == 24,
            vstd::string::is_ascii(st),
            bytes@.len() == i,
            bytes@ == bytes_of_hex(s@.take(2 * i)),
            forall|j: int| 0 <= j < 2 * i ==> is_hex_digit(#[trigger] s@[j]),
        decreases 12 - i,
    {
        let hi_b = st.get_ascii(2 * i);
        let lo_b = st.get_ascii(2 * i + 1);
        proof {
            assert(s@[2 * i] as u8 == hi_b && s@[2 * i] <= '\u{7f}');
            assert(s@[2 * i + 1] as u8 == lo_b && s@[2 * i + 1] <= '\u{7f}');
        }
        let hi = match hex_val_of_ascii(hi_b) {
            Some(v) => v,
            None => {
                proof {
                    assert(!is_hex_digit(s@[2 * i]));
                }
                return Err(ProxyS3Error::invalid_token());
            },
        };
        let lo = match hex_val_of_ascii(lo_b) {
            Some(v) => v,
            None => {
                proof {
                    assert(!is_hex_digit(s@[2 * i + 1]));
                }
                return Err(ProxyS3Error::invalid_token());
            },
        };
        bytes.push(hi * 16 + lo);
        proof {
            assert(is_hex_digit(s@[2 * i]) && is_hex_digit(s@[2 * i + 1]));
            assert(hex_val(s@[2 * i]) == hi as int && hex_val(s@[2 * i + 1]) == lo as int);
            assert(s@.take(2 * i + 2).drop_last().drop_last() =~= s@.take(2 * i));
            assert(s@.take(2 * i + 2)[2 * i] == s@[2 * i]);
            assert(s@.take(2 * i + 2).last() == s@[2 * i + 1]);
            assert(bytes@ =~= bytes_of_hex(s@.take(2 * i + 2)));
        }
        i = i + 1;
    }
    proof {
        assert(s@.take(24) =~= s@);
    }
    Ok(RecordId { bytes })
}

} // verus!
