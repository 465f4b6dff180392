//! MAC addresses: six bytes, written as six colon-separated hexadecimal octets.
use vstd::prelude::*;
use crate::text::{
    byte_of_digits, hex_digit_value, is_hex_digit, lemma_byte_digits, lower_digit,
    lower_digit_char, push_char, upper_digit, upper_digit_char,
};

verus! {

#[derive(Debug, PartialEq, Eq, Hash, Clone, Copy)]
pub struct MacAddr(pub [u8; 6]);

/// The text is not six colon-separated pairs of hexadecimal digits.
#[derive(Debug, PartialEq, Eq, Clone, Copy)]
pub struct InvalidMacAddr;

impl View for MacAddr {
    type V = Seq<u8>;

    open spec fn view(&self) -> Seq<u8> {
        self.0@
    }
}

/// Seventeen characters: six pairs of hexadecimal digits (either case) with a colon
/// between neighbouring pairs.
pub open spec fn is_mac_text(s: Seq<char>) -> bool {
    s.len() == 17 && forall|i: int|
        0 <= i < 17 ==> if i % 3 == 2 {
            #[trigger] s[i] == ':'
        } else {
            is_hex_digit(s[i])
        }
}

pub open spec fn parse_mac(s: Seq<char>) -> Option<Seq<u8>> {
    if is_mac_text(s) {
        Some(Seq::new(6, |k: int| byte_of_digits(s[3 * k], s[3 * k + 1]) as u8))
    } else {
        None
    }
}

/// Six octets of two digits each, separated by colons; `upper` picks the digits' case.
pub open spec fn render_mac(b: Seq<u8>, upper: bool) -> Seq<char> {
    Seq::new(
        17,
        |i: int|
            if i % 3 == 2 {
                ':'
            } else {
                let v = if i % 3 == 0 { b[i / 3] as int / 16 } else { b[i / 3] as int % 16 };
                if upper { upper_digit(v) } else { lower_digit(v) }
            },
    )
}

impl MacAddr {
    pub fn to_bytes(&self) -> (r: &[u8; 6])
        ensures
            r@ == self@,
    {
        &self.0
    }

    pub fn into_bytes(self) -> (r: [u8; 6])
        ensures
            r@ == self@,
    {
        self.0
    }

    pub fn from_bytes(bytes: [u8; 6]) -> (r: Self)
        ensures
            r@ == bytes@,
    {
        MacAddr(bytes)
    }

    pub fn unspecified() -> (r: MacAddr)
        ensures
            r@ == seq![0u8, 0u8, 0u8, 0u8, 0u8, 0u8],
    {
        let r = MacAddr([0; 6]);
        assert(r@ =~= seq![0u8, 0u8, 0u8, 0u8, 0u8, 0u8]);
        r
    }

    /// Reads `aa:bb:cc:dd:ee:ff` (digits of either case).
    pub fn parse(s: &str) -> (r: Option<MacAddr>)
        ensures
            r is Some <==> parse_mac(s@) is Some,
            r is Some ==> r->0@ == parse_mac(s@)->0,
    {
        let n = s.unicode_len();
        if n != 17 {
            return None;
        }
        let mut bytes: Vec<u8> = Vec::new();
        let mut k: usize = 0;
        while k < 6
            invariant
                n == 17,
                s@.len() == 17,
                k <= 6,
                bytes@.len() == k,
                forall|i: int| 0 <= i < 3 * k && i < 17 ==> if i % 3 == 2 {
                    #[trigger] s@[i] == ':'
                } else {
                    is_hex_digit(s@[i])
                },
                forall|j: int| 0 <= j < k ==> #[trigger] bytes@[j] as int == byte_of_digits(s@[3 * j], s@[3 * j + 1]),
            decreases 6 - k,
        {
            let hi = hex_digit_value(s.get_char(3 * k));
            let lo = hex_digit_value(s.get_char(3 * k + 1));
            if k < 5 && s.get_char(3 * k + 2) != ':' {
                return None;
            }
            match (hi, lo) {
                (Some(h), Some(l)) => {
                    proof {
                        lemma_byte_digits(s@[3 * k as int], s@[3 * k + 1]);
                    }
                    bytes.push(h * 16 + l);
                },
                _ => {
                    return None;
                },
            }
            k += 1;
        }
        let mac = MacAddr([bytes[0], bytes[1], bytes[2], bytes[3], bytes[4], bytes[5]]);
        assert(mac@ =~= parse_mac(s@)->0);
        Some(mac)
    }

    fn render(&self, upper: bool) -> (r: String)
        ensures
            r@ == render_mac(self@, upper),
    {
        let mut r = String::new();
        let mut k: usize = 0;
        while k < 6
            invariant
                k <= 6,
                self@.len() == 6,
                r@ == render_mac(self@, upper).subrange(0, if k == 0 { 0 } else { 3 * k - 1 }),
            decreases 6 - k,
        {
            let b = self.0[k];
            if k > 0 {
                push_char(&mut r, ':');
            }
            if upper {
                push_char(&mut r, upper_digit_char(b / 16));
                push_char(&mut r, upper_digit_char(b % 16));
            } else {
                push_char(&mut r, lower_digit_char(b / 16));
                push_char(&mut r, lower_digit_char(b % 16));
            }
            assert(r@ =~= render_mac(self@, upper).subrange(0, 3 * k + 2));
            k += 1;
        }
        r
    }

    /// The address as six colon-separated octets in lowercase.
    pub fn to_string(&self) -> (r: String)
        ensures
            r@ == render_mac(self@, false),
    {
        self.render(false)
    }

    /// The address as six colon-separated octets in uppercase.
    pub fn to_upper_string(&self) -> (r: String)
        ensures
            r@ == render_mac(self@, true),
    {
        self.render(true)
    }
}

impl core::str::FromStr for MacAddr {
    type Err = InvalidMacAddr;

    fn from_str(s: &str) -> Result<MacAddr, InvalidMacAddr> {
        match MacAddr::parse(s) {
            Some(m) => Ok(m),
            None => Err(InvalidMacAddr),
        }
    }
}

} // verus!
