//! Node identifiers: six bytes, written as twelve lowercase hexadecimal digits.
use vstd::prelude::*;
use crate::text::{
    byte_of_digits, hex_digit_value, is_hex_digit, is_lower_hex_digit, lemma_byte_digits,
    lemma_lower_digit_round_trip, lower_digit, lower_digit_char, push_char, upper_digit,
    upper_digit_char,
};

verus! {

/// The identifier of a router, compared by its bytes.
#[derive(Debug, PartialEq, Eq, Hash, Clone, Copy)]
pub struct NodeID(pub [u8; 6]);

impl View for NodeID {
    type V = Seq<u8>;

    open spec fn view(&self) -> Seq<u8> {
        self.0@
    }
}

/// The text with every colon removed.
pub open spec fn without_colons(s: Seq<char>) -> Seq<char>
    decreases s.len(),
{
    if s.len() == 0 {
        Seq::empty()
    } else if s.last() == ':' {
        without_colons(s.drop_last())
    } else {
        without_colons(s.drop_last()).push(s.last())
    }
}

/// Twelve hexadecimal digits of either case.
pub open spec fn is_hex_text(t: Seq<char>) -> bool {
    t.len() == 12 && forall|i: int| 0 <= i < 12 ==> is_hex_digit(#[trigger] t[i])
}

/// The six bytes that twelve hexadecimal digits spell.
pub open spec fn bytes_of_hex(t: Seq<char>) -> Seq<u8> {
    Seq::new(6, |k: int| byte_of_digits(t[2 * k], t[2 * k + 1]) as u8)
}

/// What a node identifier's text denotes: colons are ignored, and the rest must be
/// twelve hexadecimal digits.
pub open spec fn parse_node_id(s: Seq<char>) -> Option<Seq<u8>> {
    let t = without_colons(s);
    if is_hex_text(t) {
        Some(bytes_of_hex(t))
    } else {
        None
    }
}

/// The canonical text: two lowercase digits per byte, no separators.
pub open spec fn render_node_id(b: Seq<u8>) -> Seq<char> {
    Seq::new(12, |i: int| lower_digit(if i % 2 == 0 { b[i / 2] as int / 16 } else { b[i / 2] as int % 16 }))
}

/// The same text with uppercase digits.
pub open spec fn render_node_id_upper(b: Seq<u8>) -> Seq<char> {
    Seq::new(12, |i: int| upper_digit(if i % 2 == 0 { b[i / 2] as int / 16 } else { b[i / 2] as int % 16 }))
}

/// Text in canonical form: twelve lowercase hexadecimal digits.
pub open spec fn is_canonical_node_id(s: Seq<char>) -> bool {
    s.len() == 12 && forall|i: int| 0 <= i < 12 ==> is_lower_hex_digit(#[trigger] s[i])
}

/// The bytes read as one big-endian 48-bit number.
pub open spec fn key_of(b: Seq<u8>) -> int {
    b[0] * 0x100_0000_0000 + b[1] * 0x1_0000_0000 + b[2] * 0x100_0000 + b[3] * 0x1_0000
        + b[4] * 0x100 + b[5]
}

pub proof fn lemma_key_injective(a: Seq<u8>, b: Seq<u8>)
    requires
        a.len() == 6,
        b.len() == 6,
        key_of(a) == key_of(b),
    ensures
        a == b,
{
    assert(a[0] == b[0]);
    assert(a[1] == b[1]);
    assert(a[2] == b[2]);
    assert(a[3] == b[3]);
    assert(a[4] == b[4]);
    assert(a[5] == b[5]);
    assert(a =~= b);
}

proof fn lemma_without_colons_plain(s: Seq<char>)
    requires
        forall|i: int| 0 <= i < s.len() ==> s[i] != ':',
    ensures
        without_colons(s) == s,
    decreases s.len(),
{
    if s.len() > 0 {
        lemma_without_colons_plain(s.drop_last());
        assert(s.drop_last().push(s.last()) =~= s);
    }
}

/// Reading the canonical text of an identifier and writing the result back gives the
/// same text.
pub proof fn lemma_canonical_text_round_trip(s: Seq<char>)
    requires
        is_canonical_node_id(s),
    ensures
        parse_node_id(s) is Some,
        render_node_id(parse_node_id(s)->0) == s,
{
    lemma_without_colons_plain(s);
    assert forall|i: int| 0 <= i < 12 implies is_hex_digit(#[trigger] s[i]) by {
        lemma_lower_digit_round_trip(s[i]);
    }
    let b = bytes_of_hex(s);
    assert forall|i: int| 0 <= i < 12 implies #[trigger] render_node_id(b)[i] == s[i] by {
        let k = i / 2;
        lemma_byte_digits(s[2 * k], s[2 * k + 1]);
        lemma_lower_digit_round_trip(s[i]);
    }
    assert(render_node_id(b) =~= s);
}

impl NodeID {
    pub fn from_bytes(bytes: [u8; 6]) -> (r: NodeID)
        ensures
            r@ == bytes@,
    {
        NodeID(bytes)
    }

    pub fn to_bytes(&self) -> (r: [u8; 6])
        ensures
            r@ == self@,
    {
        self.0
    }

    /// The identifier whose `key` is `k`; of a larger `k` only the low 48 bits count.
    pub fn from_key(k: u64) -> (r: NodeID)
        ensures
            k < 0x1_0000_0000_0000 ==> key_of(r@) == k,
    {
        let q1 = k / 256;
        let q2 = q1 / 256;
        let q3 = q2 / 256;
        let q4 = q3 / 256;
        let q5 = q4 / 256;
        let r = NodeID([
            (q5 % 256) as u8,
            (q4 % 256) as u8,
            (q3 % 256) as u8,
            (q2 % 256) as u8,
            (q1 % 256) as u8,
            (k % 256) as u8,
        ]);
        proof {
            assert(k == 256 * q1 + k % 256);
            assert(q1 == 256 * q2 + q1 % 256);
            assert(q2 == 256 * q3 + q2 % 256);
            assert(q3 == 256 * q4 + q3 % 256);
            assert(q4 == 256 * q5 + q4 % 256);
            if k < 0x1_0000_0000_0000 {
                assert(q5 < 256);
                assert(q5 % 256 == q5);
            }
        }
        r
    }

    /// The identifier as a number, usable as a map key.
    pub fn key(&self) -> (k: u64)
        ensures
            k as int == key_of(self@),
    {
        let b = &self.0;
        (b[0] as u64) * 0x100_0000_0000 + (b[1] as u64) * 0x1_0000_0000 + (b[2] as u64) * 0x100_0000
            + (b[3] as u64) * 0x1_0000 + (b[4] as u64) * 0x100 + (b[5] as u64)
    }

    /// Reads an identifier from its text; colons between the digits are ignored.
    pub fn parse(s: &str) -> (r: Option<NodeID>)
        ensures
            r is Some <==> parse_node_id(s@) is Some,
            r is Some ==> r->0@ == parse_node_id(s@)->0,
    {
        let n = s.unicode_len();
        let mut t: Vec<char> = Vec::new();
        let mut i: usize = 0;
        while i < n
            invariant
                n == s@.len(),
                i <= n,
                t@ == without_colons(s@.subrange(0, i as int)),
            decreases n - i,
        {
            let c = s.get_char(i);
            assert(s@.subrange(0, i + 1).drop_last() =~= s@.subrange(0, i as int));
            if c != ':' {
                t.push(c);
            }
            i += 1;
        }
        assert(s@.subrange(0, n as int) =~= s@);
        if t.len() != 12 {
            return None;
        }
        let mut bytes: Vec<u8> = Vec::new();
        let mut k: usize = 0;
        while k < 6
            invariant
                t@ == without_colons(s@),
                t@.len() == 12,
                k <= 6,
                bytes@.len() == k,
                forall|j: int| 0 <= j < 2 * k ==> is_hex_digit(#[trigger] t@[j]),
                forall|j: int| 0 <= j < k ==> #[trigger] bytes@[j] as int == byte_of_digits(t@[2 * j], t@[2 * j + 1]),
            decreases 6 - k,
        {
            let hi = hex_digit_value(t[2 * k]);
            let lo = hex_digit_value(t[2 * k + 1]);
            match (hi, lo) {
                (Some(h), Some(l)) => {
                    proof {
                        lemma_byte_digits(t@[2 * k as int], t@[2 * k + 1]);
                    }
                    bytes.push(h * 16 + l);
                },
                _ => {
                    return None;
                },
            }
            k += 1;
        }
        let id = NodeID([bytes[0], bytes[1], bytes[2], bytes[3], bytes[4], bytes[5]]);
        assert(id@ =~= bytes_of_hex(t@));
        Some(id)
    }

    /// The canonical text: twelve lowercase hexadecimal digits.
    pub fn to_string(&self) -> (r: String)
        ensures
            r@ == render_node_id(self@),
    {
        let mut r = String::new();
        let mut k: usize = 0;
        while k < 6
            invariant
                k <= 6,
                self@.len() == 6,
                r@ == render_node_id(self@).subrange(0, 2 * k as int),
            decreases 6 - k,
        {
            let b = self.0[k];
            push_char(&mut r, lower_digit_char(b / 16));
            push_char(&mut r, lower_digit_char(b % 16));
            assert(r@ =~= render_node_id(self@).subrange(0, 2 * k + 2));
            k += 1;
        }
        r
    }
}

impl NodeID {
    /// Twelve uppercase hexadecimal digits.
    pub fn to_upper_string(&self) -> (r: String)
        ensures
            r@ == render_node_id_upper(self@),
    {
        let mut r = String::new();
        let mut k: usize = 0;
        while k < 6
            invariant
                k <= 6,
                self@.len() == 6,
                r@ == render_node_id_upper(self@).subrange(0, 2 * k as int),
            decreases 6 - k,
        {
            let b = self.0[k];
            push_char(&mut r, upper_digit_char(b / 16));
            push_char(&mut r, upper_digit_char(b % 16));
            assert(r@ =~= render_node_id_upper(self@).subrange(0, 2 * k + 2));
            k += 1;
        }
        r
    }
}

impl core::str::FromStr for NodeID {
    type Err = ();

    fn from_str(s: &str) -> Result<NodeID, ()> {
        match NodeID::parse(s) {
            Some(id) => Ok(id),
            None => Err(()),
        }
    }
}

} // verus!
