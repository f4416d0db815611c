//! Sixteen-byte GUIDs: copying, the all-zero presence check and the
//! mixed-endian text form.
use vstd::prelude::*;
use vstd::string::{StrSliceExecFns, StringExecFns};

verus! {

/// A GUID as its sixteen stored bytes.
#[derive(Clone, Copy, Default, Debug, PartialEq, Eq)]
pub struct Uuid(pub [u8; 16]);

impl View for Uuid {
    type V = Seq<u8>;

    open spec fn view(&self) -> Seq<u8> {
        self.0@
    }
}

/// True when every byte of `s` is zero.
pub open spec fn all_zero(s: Seq<u8>) -> bool {
    forall|i: int| 0 <= i < s.len() ==> s[i] == 0
}

/// The lowercase hexadecimal digit of `d`, for `d < 16`.
pub open spec fn hex_digit(d: int) -> char {
    seq!['0', '1', '2', '3', '4', '5', '6', '7', '8', '9', 'a', 'b', 'c', 'd', 'e', 'f'][d]
}

/// Two lowercase hexadecimal digits of a byte, high nibble first.
pub open spec fn hex_byte(b: u8) -> Seq<char> {
    seq![hex_digit(b as int / 16), hex_digit(b as int % 16)]
}

/// The text form of a GUID: the first three groups byte-swapped, the last two
/// in stored order, as `b3b2b1b0-b5b4-b7b6-b8b9-b10b11b12b13b14b15`.
pub open spec fn uuid_text(s: Seq<u8>) -> Seq<char> {
    hex_byte(s[3]) + hex_byte(s[2]) + hex_byte(s[1]) + hex_byte(s[0]) + seq!['-'] + hex_byte(s[5])
        + hex_byte(s[4]) + seq!['-'] + hex_byte(s[7]) + hex_byte(s[6]) + seq!['-'] + hex_byte(
        s[8],
    ) + hex_byte(s[9]) + seq!['-'] + hex_byte(s[10]) + hex_byte(s[11]) + hex_byte(s[12])
        + hex_byte(s[13]) + hex_byte(s[14]) + hex_byte(s[15])
}

fn push_hex_byte(out: &mut String, b: u8)
    ensures
        final(out)@ == old(out)@ + hex_byte(b),
{
    let digits = "0123456789abcdef";
    proof {
        reveal_strlit("0123456789abcdef");
    }
    assert(digits@ =~= seq![
        '0', '1', '2', '3', '4', '5', '6', '7', '8', '9', 'a', 'b', 'c', 'd', 'e', 'f',
    ]);
    let hi = (b / 16) as usize;
    let lo = (b % 16) as usize;
    out.append(digits.substring_char(hi, hi + 1));
    out.append(digits.substring_char(lo, lo + 1));
    assert(digits@.subrange(hi as int, hi + 1) =~= seq![hex_digit(b as int / 16)]);
    assert(digits@.subrange(lo as int, lo + 1) =~= seq![hex_digit(b as int % 16)]);
    assert(final(out)@ =~= old(out)@ + hex_byte(b));
}

fn push_dash(out: &mut String)
    ensures
        final(out)@ == old(out)@ + seq!['-'],
{
    let dash = "-";
    proof {
        reveal_strlit("-");
    }
    out.append(dash);
}

impl Uuid {
    /// Copies a GUID out of a sixteen-byte run.
    pub fn parse(bytes: &[u8]) -> (r: Uuid)
        requires
            bytes@.len() == 16,
        ensures
            r@ == bytes@,
    {
        let mut b = [0u8; 16];
        let mut i: usize = 0;
        while i < 16
            invariant
                bytes@.len() == 16,
                i <= 16,
                forall|j: int| 0 <= j < i ==> b@[j] == bytes@[j],
            decreases 16 - i,
        {
            b[i] = bytes[i];
            i += 1;
        }
        assert(b@ =~= bytes@);
        Uuid(b)
    }

    /// The stored bytes.
    pub fn as_bytes(&self) -> (r: &[u8; 16])
        ensures
            r@ == self@,
    {
        &self.0
    }

    /// True when some byte is non-zero, that is when the GUID marks something present.
    pub fn validate(&self) -> (r: bool)
        ensures
            r == !all_zero(self@),
    {
        let mut i: usize = 0;
        while i < 16
            invariant
                i <= 16,
                self@.len() == 16,
                forall|j: int| 0 <= j < i ==> self@[j] == 0,
            decreases 16 - i,
        {
            if self.0[i] != 0 {
                return true;
            }
            i += 1;
        }
        false
    }

    /// The text form of the GUID, for example
    /// `03020100-0504-0706-0809-0a0b0c0d0e0f` for the bytes 0x00 to 0x0f.
    pub fn format(&self) -> (r: String)
        ensures
            r@ == uuid_text(self@),
    {
        let b = &self.0;
        let mut out = String::new();
        push_hex_byte(&mut out, b[3]);
        push_hex_byte(&mut out, b[2]);
        push_hex_byte(&mut out, b[1]);
        push_hex_byte(&mut out, b[0]);
        push_dash(&mut out);
        push_hex_byte(&mut out, b[5]);
        push_hex_byte(&mut out, b[4]);
        push_dash(&mut out);
        push_hex_byte(&mut out, b[7]);
        push_hex_byte(&mut out, b[6]);
        push_dash(&mut out);
        push_hex_byte(&mut out, b[8]);
        push_hex_byte(&mut out, b[9]);
        push_dash(&mut out);
        push_hex_byte(&mut out, b[10]);
        push_hex_byte(&mut out, b[11]);
        push_hex_byte(&mut out, b[12]);
        push_hex_byte(&mut out, b[13]);
        push_hex_byte(&mut out, b[14]);
        push_hex_byte(&mut out, b[15]);
        assert(out@ =~= uuid_text(self@));
        out
    }
}

} // verus!
