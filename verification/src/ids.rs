//! Conversation identities.
//!
//! A conversation is named by an opaque 128-bit value, carried here as its
//! sixteen raw bytes.  The wire form used by the broadcast envelopes and by
//! the storage layer's table names is the hyphenated lowercase hex spelling
//! (8-4-4-4-12 digits); both directions of that spelling live in this module
//! with exact contracts.

use vstd::prelude::*;

verus! {

/// The identity of one conversation: sixteen raw bytes.
pub struct ChatId {
    pub bytes: Vec<u8>,
}

impl View for ChatId {
    type V = Seq<u8>;

    open spec fn view(&self) -> Seq<u8> {
        self.bytes@
    }
}

impl ChatId {
    /// Well-formed identities hold exactly sixteen bytes.
    pub open spec fn wf(&self) -> bool {
        self.bytes@.len() == 16
    }

    /// Wraps sixteen raw bytes; any other length is refused.
    pub fn from_bytes(bytes: Vec<u8>) -> (r: Option<ChatId>)
        ensures
            bytes@.len() == 16 ==> (r matches Some(id) && id@ == bytes@ && id.wf()),
            bytes@.len() != 16 ==> r is None,
    {
        if bytes.len() == 16 {
            Some(ChatId { bytes })
        } else {
            None
        }
    }

    /// The raw bytes of the identity.
    pub fn as_bytes(&self) -> (r: &Vec<u8>)
        ensures
            r@ == self@,
    {
        &self.bytes
    }
}

impl Clone for ChatId {
    fn clone(&self) -> (r: Self)
        ensures
            r@ == self@,
            r.wf() == self.wf(),
    {
        let mut copy: Vec<u8> = Vec::new();
        let mut i: usize = 0;
        while i < self.bytes.len()
            invariant
                i <= self.bytes@.len(),
                copy@ == self.bytes@.take(i as int),
            decreases self.bytes@.len() - i,
        {
            copy.push(self.bytes[i]);
            i = i + 1;
        }
        assert(copy@ == self.bytes@) by {
            assert(self.bytes@.take(self.bytes@.len() as int) =~= self.bytes@);
        }
        ChatId { bytes: copy }
    }
}

impl PartialEq for ChatId {
    fn eq(&self, other: &Self) -> (r: bool) {
        if self.bytes.len() != other.bytes.len() {
            return false;
        }
        let mut i: usize = 0;
        while i < self.bytes.len()
            invariant
                i <= self.bytes@.len(),
                self.bytes@.len() == other.bytes@.len(),
                forall|j: int| 0 <= j < i ==> self.bytes@[j] == other.bytes@[j],
            decreases self.bytes@.len() - i,
        {
            if self.bytes[i] != other.bytes[i] {
                return false;
            }
            i = i + 1;
        }
        proof {
            assert(self.bytes@ =~= other.bytes@);
        }
        true
    }
}

impl vstd::std_specs::cmp::PartialEqSpecImpl for ChatId {
    open spec fn obeys_eq_spec() -> bool {
        true
    }

    open spec fn eq_spec(&self, other: &Self) -> bool {
        self.bytes@ == other.bytes@
    }
}

impl Eq for ChatId {}

/// ASCII code of the lowercase hex digit of a value below sixteen.
pub open spec fn hex_digit(n: u8) -> u8 {
    if n < 10 {
        (0x30 + n) as u8
    } else {
        (0x57 + n) as u8
    }
}

/// Whether `c` is a lowercase hex digit.
pub open spec fn is_hex_lower(c: u8) -> bool {
    (0x30 <= c <= 0x39) || (0x61 <= c <= 0x66)
}

/// Value of a lowercase hex digit.
pub open spec fn hex_value(c: u8) -> u8
    recommends
        is_hex_lower(c),
{
    if c <= 0x39 {
        (c - 0x30) as u8
    } else {
        (c - 0x57) as u8
    }
}

/// `hex_digit` spells values below sixteen as lowercase hex digits, and
/// `hex_value` reads them back.
pub proof fn lemma_hex_digit_value(v: u8)
    requires
        v < 16,
    ensures
        is_hex_lower(hex_digit(v)),
        hex_value(hex_digit(v)) == v,
{
}

/// `hex_value` of a lowercase hex digit is below sixteen, and `hex_digit`
/// spells it back.
pub proof fn lemma_hex_value_digit(c: u8)
    requires
        is_hex_lower(c),
    ensures
        hex_value(c) < 16,
        hex_digit(hex_value(c)) == c,
{
}

/// The two lowercase hex digits of one byte, high digit first.
pub open spec fn byte_hex(b: u8) -> Seq<u8> {
    seq![hex_digit(b / 16), hex_digit(b % 16)]
}

/// The lowercase hex digits of a byte string, two per byte.
pub open spec fn hex_pairs(s: Seq<u8>) -> Seq<u8>
    decreases s.len(),
{
    if s.len() == 0 {
        Seq::empty()
    } else {
        byte_hex(s[0]) + hex_pairs(s.drop_first())
    }
}

pub proof fn lemma_hex_pairs_len(s: Seq<u8>)
    ensures
        hex_pairs(s).len() == 2 * s.len(),
    decreases s.len(),
{
    if s.len() > 0 {
        lemma_hex_pairs_len(s.drop_first());
    }
}

pub proof fn lemma_hex_pairs_index(s: Seq<u8>, i: int)
    requires
        0 <= i < s.len(),
    ensures
        hex_pairs(s).len() == 2 * s.len(),
        hex_pairs(s)[2 * i] == hex_digit(s[i] / 16),
        hex_pairs(s)[2 * i + 1] == hex_digit(s[i] % 16),
    decreases s.len(),
{
    lemma_hex_pairs_len(s);
    if i > 0 {
        lemma_hex_pairs_index(s.drop_first(), i - 1);
    }
}

/// Position of the high hex digit of byte `i` inside the grouped spelling,
/// where a separator follows the byte groups of sizes 4, 2, 2, 2.
pub open spec fn uuid_pos(i: int) -> int {
    if i < 4 {
        2 * i
    } else if i < 6 {
        2 * i + 1
    } else if i < 8 {
        2 * i + 2
    } else if i < 10 {
        2 * i + 3
    } else {
        2 * i + 4
    }
}

/// Whether position `p` of the 36-character spelling holds a separator.
pub open spec fn uuid_sep_pos(p: int) -> bool {
    p == 8 || p == 13 || p == 18 || p == 23
}

/// The 36-character grouped hex spelling of sixteen bytes with the given
/// separator: groups of 8, 4, 4, 4 and 12 hex digits.
pub open spec fn uuid_grouped(b: Seq<u8>, sep: u8) -> Seq<u8>
    recommends
        b.len() == 16,
{
    Seq::new(36, |p: int|
        if uuid_sep_pos(p) {
            sep
        } else if p < 8 {
            hex_pairs(b)[p]
        } else if p < 13 {
            hex_pairs(b)[p - 1]
        } else if p < 18 {
            hex_pairs(b)[p - 2]
        } else if p < 23 {
            hex_pairs(b)[p - 3]
        } else {
            hex_pairs(b)[p - 4]
        })
}

/// The hyphenated lowercase hex spelling of a conversation identity.
pub open spec fn uuid_hyphenated(b: Seq<u8>) -> Seq<u8>
    recommends
        b.len() == 16,
{
    uuid_grouped(b, 0x2d)
}

/// Relates byte slots to spelling positions: byte `i` supplies the two hex
/// digits at `uuid_pos(i)` and the next position.
pub proof fn lemma_uuid_grouped_at(b: Seq<u8>, sep: u8, i: int)
    requires
        b.len() == 16,
        0 <= i < 16,
    ensures
        uuid_grouped(b, sep).len() == 36,
        !uuid_sep_pos(uuid_pos(i)),
        !uuid_sep_pos(uuid_pos(i) + 1),
        uuid_grouped(b, sep)[uuid_pos(i)] == hex_digit(b[i] / 16),
        uuid_grouped(b, sep)[uuid_pos(i) + 1] == hex_digit(b[i] % 16),
{
    lemma_hex_pairs_index(b, i);
}

/// Two byte strings with the same grouped spelling are the same: the
/// spelling loses nothing.
pub proof fn lemma_uuid_grouped_injective(b1: Seq<u8>, b2: Seq<u8>, sep: u8)
    requires
        b1.len() == 16,
        b2.len() == 16,
        uuid_grouped(b1, sep) == uuid_grouped(b2, sep),
    ensures
        b1 == b2,
{
    assert forall|i: int| 0 <= i < 16 implies b1[i] == b2[i] by {
        lemma_uuid_grouped_at(b1, sep, i);
        lemma_uuid_grouped_at(b2, sep, i);
        lemma_hex_digit_value(b1[i] / 16);
        lemma_hex_digit_value(b2[i] / 16);
        lemma_hex_digit_value(b1[i] % 16);
        lemma_hex_digit_value(b2[i] % 16);
        assert(b1[i] / 16 == b2[i] / 16 && b1[i] % 16 == b2[i] % 16);
        assert(b1[i] == (b1[i] / 16) * 16 + b1[i] % 16);
        assert(b2[i] == (b2[i] / 16) * 16 + b2[i] % 16);
    }
    assert(b1 =~= b2);
}

/// Exec form of `hex_digit`.
pub(crate) fn hex_char_of(n: u8) -> (r: u8)
    requires
        n < 16,
    ensures
        r == hex_digit(n),
{
    if n < 10 {
        0x30 + n
    } else {
        0x57 + n
    }
}

/// Value of one lowercase hex digit; anything else is refused.
fn hex_val(c: u8) -> (r: Option<u8>)
    ensures
        r matches Some(v) ==> v < 16 && c == hex_digit(v),
        r is None ==> forall|v: u8| v < 16 ==> c != hex_digit(v),
{
    if 0x30 <= c && c <= 0x39 {
        Some(c - 0x30)
    } else if 0x61 <= c && c <= 0x66 {
        Some(c - 0x57)
    } else {
        assert(forall|v: u8| v < 16 ==> c != hex_digit(v)) by {
            assert forall|v: u8| v < 16 implies c != hex_digit(v) by {
                if v < 10 {
                    assert(hex_digit(v) == 0x30 + v);
                } else {
                    assert(hex_digit(v) == 0x57 + v);
                }
            }
        }
        None
    }
}

/// The grouped hex spelling of an identity with the given separator.
fn encode_uuid_grouped(id: &ChatId, sep: u8) -> (r: Vec<u8>)
    requires
        id.wf(),
    ensures
        r@ == uuid_grouped(id@, sep),
{
    let mut out: Vec<u8> = Vec::new();
    let mut i: usize = 0;
    while i < 16
        invariant
            id.wf(),
            i <= 16,
            out@.len() == if i == 0 { 0int } else { uuid_pos(i - 1) + 2 },
            forall|p: int| 0 <= p < out@.len() ==> out@[p] == #[trigger] uuid_grouped(id@, sep)[p],
        decreases 16 - i,
    {
        proof {
            lemma_uuid_grouped_at(id@, sep, i as int);
        }
        if i == 4 || i == 6 || i == 8 || i == 10 {
            out.push(sep);
        }
        let b = id.bytes[i];
        out.push(hex_char_of(b / 16));
        out.push(hex_char_of(b % 16));
        i = i + 1;
    }
    proof {
        assert(out@ =~= uuid_grouped(id@, sep));
    }
    out
}

/// The hyphenated lowercase hex spelling, as the broadcast envelopes carry it.
pub fn encode_uuid(id: &ChatId) -> (r: Vec<u8>)
    requires
        id.wf(),
    ensures
        r@ == uuid_hyphenated(id@),
        r@.len() == 36,
{
    let r = encode_uuid_grouped(id, 0x2d);
    r
}

/// The spelling with underscores for separators, as the storage layer names
/// a conversation's message table.
pub fn encode_uuid_underscored(id: &ChatId) -> (r: Vec<u8>)
    requires
        id.wf(),
    ensures
        r@ == uuid_grouped(id@, 0x5f),
{
    encode_uuid_grouped(id, 0x5f)
}

/// Reads a hyphenated lowercase hex spelling back into an identity.
/// Succeeds exactly on the 36-character spellings that `encode_uuid` emits.
pub fn parse_uuid(region: &[u8]) -> (r: Option<ChatId>)
    ensures
        r matches Some(id) ==> id.wf() && region@ == uuid_hyphenated(id@),
        r is None ==> forall|b: Seq<u8>| b.len() == 16 ==> region@ != uuid_hyphenated(b),
{
    if region.len() != 36 {
        proof {
            assert forall|b: Seq<u8>| b.len() == 16 implies region@ != uuid_hyphenated(b) by {
                assert(uuid_hyphenated(b).len() == 36);
            }
        }
        return None;
    }
    if region[8] != 0x2d || region[13] != 0x2d || region[18] != 0x2d || region[23] != 0x2d {
        return None;
    }
    let mut bytes: Vec<u8> = Vec::new();
    let mut i: usize = 0;
    while i < 16
        invariant
            region@.len() == 36,
            i <= 16,
            bytes@.len() == i,
            forall|j: int| #![trigger bytes@[j]] 0 <= j < i ==> {
                &&& region@[uuid_pos(j)] == hex_digit(bytes@[j] / 16)
                &&& region@[uuid_pos(j) + 1] == hex_digit(bytes@[j] % 16)
            },
        decreases 16 - i,
    {
        let p: usize = if i < 4 {
            2 * i
        } else if i < 6 {
            2 * i + 1
        } else if i < 8 {
            2 * i + 2
        } else if i < 10 {
            2 * i + 3
        } else {
            2 * i + 4
        };
        assert(p == uuid_pos(i as int));
        let hi = match hex_val(region[p]) {
            Some(v) => v,
            None => {
                proof {
                    assert forall|b: Seq<u8>| b.len() == 16 implies region@ != uuid_hyphenated(b) by {
                        lemma_uuid_grouped_at(b, 0x2d, i as int);
                        assert(uuid_hyphenated(b)[uuid_pos(i as int)] == hex_digit(b[i as int] / 16));
                        assert(b[i as int] / 16 < 16);
                    }
                }
                return None;
            },
        };
        let lo = match hex_val(region[p + 1]) {
            Some(v) => v,
            None => {
                proof {
                    assert forall|b: Seq<u8>| b.len() == 16 implies region@ != uuid_hyphenated(b) by {
                        lemma_uuid_grouped_at(b, 0x2d, i as int);
                        assert(b[i as int] % 16 < 16);
                    }
                }
                return None;
            },
        };
        let byte = hi * 16 + lo;
        proof {
            assert(byte / 16 == hi && byte % 16 == lo) by (nonlinear_arith)
                requires
                    hi < 16,
                    lo < 16,
                    byte == hi * 16 + lo,
            ;
        }
        bytes.push(byte);
        i = i + 1;
    }
    let id = ChatId { bytes };
    proof {
        assert(region@ =~= uuid_hyphenated(id@)) by {
            assert forall|p: int| 0 <= p < 36 implies region@[p] == uuid_hyphenated(id@)[p] by {
                if uuid_sep_pos(p) {
                } else {
                    let j = if p < 8 {
                        p / 2
                    } else if p < 13 {
                        (p - 1) / 2
                    } else if p < 18 {
                        (p - 2) / 2
                    } else if p < 23 {
                        (p - 3) / 2
                    } else {
                        (p - 4) / 2
                    };
                    lemma_uuid_grouped_at(id@, 0x2d, j);
                    assert(p == uuid_pos(j) || p == uuid_pos(j) + 1);
                }
            }
        }
    }
    Some(id)
}

} // verus!
