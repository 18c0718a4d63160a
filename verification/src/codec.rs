//! The wire form of the broadcast envelopes.
//!
//! Every envelope is one JSON object in a fixed canonical spelling: the
//! fields in declaration order, no whitespace, conversation identities as
//! hyphenated lowercase hex, integers as canonical decimals, text escaped as
//! `text` describes.  Each decoder accepts exactly the spellings its encoder
//! emits and drops everything else, as malformed.

use vstd::prelude::*;

use crate::ids::{uuid_hyphenated, encode_uuid, parse_uuid, lemma_uuid_grouped_injective};
use crate::numbers::{
    dec_int, format_i64, parse_i64_dec, is_digit, in_i64, lemma_dec_int_bytes,
    lemma_dec_int_injective,
};
use crate::messages::{ChatMessage, NewChatMessage, SerializableDuration, SubscriptionData};
use crate::text::{escaped, escape, unescape, lemma_escaped_injective};

verus! {

/// `{"chat_id":"`
pub open spec fn lit_obj_chat_id() -> Seq<u8> {
    seq![0x7bu8, 0x22u8, 0x63u8, 0x68u8, 0x61u8, 0x74u8, 0x5fu8, 0x69u8, 0x64u8, 0x22u8, 0x3au8, 0x22u8]
}

/// `","user_id":`
pub open spec fn lit_user_id() -> Seq<u8> {
    seq![0x22u8, 0x2cu8, 0x22u8, 0x75u8, 0x73u8, 0x65u8, 0x72u8, 0x5fu8, 0x69u8, 0x64u8, 0x22u8, 0x3au8]
}

fn make_lit_obj_chat_id() -> (r: Vec<u8>)
    ensures
        r@ == lit_obj_chat_id(),
{
    let mut v: Vec<u8> = Vec::new();
    v.push(0x7b);
    v.push(0x22);
    v.push(0x63);
    v.push(0x68);
    v.push(0x61);
    v.push(0x74);
    v.push(0x5f);
    v.push(0x69);
    v.push(0x64);
    v.push(0x22);
    v.push(0x3a);
    v.push(0x22);
    proof {
        assert(v@ =~= lit_obj_chat_id());
    }
    v
}

fn make_lit_user_id() -> (r: Vec<u8>)
    ensures
        r@ == lit_user_id(),
{
    let mut v: Vec<u8> = Vec::new();
    v.push(0x22);
    v.push(0x2c);
    v.push(0x22);
    v.push(0x75);
    v.push(0x73);
    v.push(0x65);
    v.push(0x72);
    v.push(0x5f);
    v.push(0x69);
    v.push(0x64);
    v.push(0x22);
    v.push(0x3a);
    proof {
        assert(v@ =~= lit_user_id());
    }
    v
}

/// Whether the bytes of `lit` stand in `p` at position `from`.
pub fn match_lit(p: &[u8], from: usize, lit: &Vec<u8>) -> (r: bool)
    ensures
        r <==> (from + lit@.len() <= p@.len() && p@.subrange(
            from as int,
            from as int + lit@.len(),
        ) == lit@),
{
    let n = p.len();
    if from > n || n - from < lit.len() {
        return false;
    }
    let mut j: usize = 0;
    while j < lit.len()
        invariant
            n == p@.len(),
            from + lit@.len() <= n,
            j <= lit@.len(),
            forall|k: int| 0 <= k < j ==> p@[from + k] == lit@[k],
        decreases lit@.len() - j,
    {
        let pos = from + j;
        if p[pos] != lit[j] {
            proof {
                let jj = j as int;
                assert(p@.subrange(from as int, from as int + lit@.len())[jj] != lit@[jj]);
            }
            return false;
        }
        j = j + 1;
    }
    proof {
        assert(p@.subrange(from as int, from as int + lit@.len()) =~= lit@);
    }
    true
}

/// First position of `b` in `p` at or after `from`.
pub fn find_byte(p: &[u8], from: usize, b: u8) -> (r: Option<usize>)
    requires
        from <= p@.len(),
    ensures
        r matches Some(j) ==> from <= j < p@.len() && p@[j as int] == b && (forall|k: int|
            from <= k < j ==> p@[k] != b),
        r is None ==> forall|k: int| from <= k < p@.len() ==> p@[k] != b,
{
    let mut j: usize = from;
    while j < p.len()
        invariant
            from <= j <= p@.len(),
            forall|k: int| from <= k < j ==> p@[k] != b,
        decreases p@.len() - j,
    {
        if p[j] == b {
            return Some(j);
        }
        j = j + 1;
    }
    None
}

/// The subscription envelope: `{"chat_id":"<uuid>","user_id":<int>}`.
pub open spec fn subscription_json(chat: Seq<u8>, user: int) -> Seq<u8> {
    lit_obj_chat_id() + uuid_hyphenated(chat) + lit_user_id() + dec_int(user) + seq![0x7du8]
}

/// How a subscription envelope splits into its parts.
pub proof fn lemma_subscription_shape(c: Seq<u8>, u: int)
    requires
        c.len() == 16,
        in_i64(u),
    ensures
        ({
            let p = subscription_json(c, u);
            let n = dec_int(u).len() as int;
            &&& n >= 1
            &&& p.len() == 61 + n
            &&& p.subrange(0, 12) == lit_obj_chat_id()
            &&& p.subrange(12, 48) == uuid_hyphenated(c)
            &&& p.subrange(48, 60) == lit_user_id()
            &&& p.subrange(60, 60 + n) == dec_int(u)
            &&& p[60 + n] == 0x7d
        }),
{
    let p = subscription_json(c, u);
    let n = dec_int(u).len() as int;
    lemma_dec_int_bytes(u);
    assert(uuid_hyphenated(c).len() == 36);
    assert(p.len() == 61 + n);
    assert(p.subrange(0, 12) =~= lit_obj_chat_id());
    assert(p.subrange(12, 48) =~= uuid_hyphenated(c));
    assert(p.subrange(48, 60) =~= lit_user_id());
    assert(p.subrange(60, 60 + n) =~= dec_int(u));
    assert(p[60 + n] == 0x7d);
}


/// A subscription envelope names its conversation and user uniquely: equal
/// spellings mean equal values, so whatever `decode_subscription` accepts is
/// the one value that was encoded.
pub proof fn lemma_subscription_json_injective(c1: Seq<u8>, u1: int, c2: Seq<u8>, u2: int)
    requires
        c1.len() == 16,
        c2.len() == 16,
        in_i64(u1),
        in_i64(u2),
        subscription_json(c1, u1) == subscription_json(c2, u2),
    ensures
        c1 == c2,
        u1 == u2,
{
    lemma_subscription_shape(c1, u1);
    lemma_subscription_shape(c2, u2);
    let p = subscription_json(c1, u1);
    assert(uuid_hyphenated(c1) == uuid_hyphenated(c2));
    lemma_uuid_grouped_injective(c1, c2, 0x2d);
    let n = dec_int(u1).len() as int;
    assert(dec_int(u2).len() as int == p.len() - 61);
    assert(dec_int(u1) == p.subrange(60, 60 + n) && dec_int(u2) == p.subrange(60, 60 + n));
    lemma_dec_int_injective(u1, u2);
}

/// The canonical spelling of a subscribe or unsubscribe envelope.
pub fn encode_subscription(d: &SubscriptionData) -> (r: Vec<u8>)
    requires
        d.wf(),
    ensures
        r@ == subscription_json(d.chat_id@, d.user_id as int),
{
    let mut out = make_lit_obj_chat_id();
    let mut uuid = encode_uuid(&d.chat_id);
    out.append(&mut uuid);
    let mut l2 = make_lit_user_id();
    out.append(&mut l2);
    let mut num = format_i64(d.user_id);
    out.append(&mut num);
    out.push(0x7d);
    proof {
        assert(out@ =~= subscription_json(d.chat_id@, d.user_id as int));
    }
    out
}

/// Reads a subscribe or unsubscribe envelope.  Succeeds exactly on the
/// spellings `encode_subscription` emits; everything else is malformed.
pub fn decode_subscription(payload: &[u8]) -> (r: Option<SubscriptionData>)
    ensures
        r matches Some(d) ==> d.wf() && payload@ == subscription_json(d.chat_id@, d.user_id as int),
        r is None ==> forall|c: Seq<u8>, u: int|
            !(c.len() == 16 && in_i64(u) && payload@ == subscription_json(c, u)),
{
    let l1 = make_lit_obj_chat_id();
    if !match_lit(payload, 0, &l1) {
        proof {
            assert forall|c: Seq<u8>, u: int|
                !(c.len() == 16 && in_i64(u) && payload@ == subscription_json(c, u)) by {
                if c.len() == 16 && in_i64(u) && payload@ == subscription_json(c, u) {
                    lemma_subscription_shape(c, u);
                }
            }
        }
        return None;
    }
    if payload.len() < 62 {
        proof {
            assert forall|c: Seq<u8>, u: int|
                !(c.len() == 16 && in_i64(u) && payload@ == subscription_json(c, u)) by {
                if c.len() == 16 && in_i64(u) && payload@ == subscription_json(c, u) {
                    lemma_subscription_shape(c, u);
                }
            }
        }
        return None;
    }
    let uuid_region = vstd::slice::slice_subrange(payload, 12, 48);
    let id = match parse_uuid(uuid_region) {
        Some(id) => id,
        None => {
            proof {
                assert forall|c: Seq<u8>, u: int|
                    !(c.len() == 16 && in_i64(u) && payload@ == subscription_json(c, u)) by {
                    if c.len() == 16 && in_i64(u) && payload@ == subscription_json(c, u) {
                        lemma_subscription_shape(c, u);
                        assert(uuid_region@ == uuid_hyphenated(c));
                    }
                }
            }
            return None;
        },
    };
    let l2 = make_lit_user_id();
    if !match_lit(payload, 48, &l2) {
        proof {
            assert forall|c: Seq<u8>, u: int|
                !(c.len() == 16 && in_i64(u) && payload@ == subscription_json(c, u)) by {
                if c.len() == 16 && in_i64(u) && payload@ == subscription_json(c, u) {
                    lemma_subscription_shape(c, u);
                }
            }
        }
        return None;
    }
    if payload[payload.len() - 1] != 0x7d {
        proof {
            assert forall|c: Seq<u8>, u: int|
                !(c.len() == 16 && in_i64(u) && payload@ == subscription_json(c, u)) by {
                if c.len() == 16 && in_i64(u) && payload@ == subscription_json(c, u) {
                    lemma_subscription_shape(c, u);
                }
            }
        }
        return None;
    }
    let num_region = vstd::slice::slice_subrange(payload, 60, payload.len() - 1);
    let v = match parse_i64_dec(num_region) {
        Some(v) => v,
        None => {
            proof {
                assert forall|c: Seq<u8>, u: int|
                    !(c.len() == 16 && in_i64(u) && payload@ == subscription_json(c, u)) by {
                    if c.len() == 16 && in_i64(u) && payload@ == subscription_json(c, u) {
                        lemma_subscription_shape(c, u);
                        let vv: i64 = u as i64;
                        assert(num_region@ == dec_int(vv as int));
                    }
                }
            }
            return None;
        },
    };
    proof {
        lemma_subscription_shape(id@, v as int);
        assert(payload@ =~= subscription_json(id@, v as int));
    }
    Some(SubscriptionData { chat_id: id, user_id: v })
}

/// `","sender_id":`
pub open spec fn lit_sender_id() -> Seq<u8> {
    seq![0x22u8, 0x2cu8, 0x22u8, 0x73u8, 0x65u8, 0x6eu8, 0x64u8, 0x65u8, 0x72u8, 0x5fu8, 0x69u8, 0x64u8, 0x22u8, 0x3au8]
}

/// `,"date":`
pub open spec fn lit_date() -> Seq<u8> {
    seq![0x2cu8, 0x22u8, 0x64u8, 0x61u8, 0x74u8, 0x65u8, 0x22u8, 0x3au8]
}

/// `,"msg_text":"`
pub open spec fn lit_msg_text() -> Seq<u8> {
    seq![0x2cu8, 0x22u8, 0x6du8, 0x73u8, 0x67u8, 0x5fu8, 0x74u8, 0x65u8, 0x78u8, 0x74u8, 0x22u8, 0x3au8, 0x22u8]
}

/// `","msg_text":"`
pub open spec fn lit_q_msg_text() -> Seq<u8> {
    seq![0x22u8, 0x2cu8, 0x22u8, 0x6du8, 0x73u8, 0x67u8, 0x5fu8, 0x74u8, 0x65u8, 0x78u8, 0x74u8, 0x22u8, 0x3au8, 0x22u8]
}

/// `"}`
pub open spec fn lit_end() -> Seq<u8> {
    seq![0x22u8, 0x7du8]
}

fn make_lit_sender_id() -> (r: Vec<u8>)
    ensures
        r@ == lit_sender_id(),
{
    let mut v: Vec<u8> = Vec::new();
    v.push(0x22);
    v.push(0x2c);
    v.push(0x22);
    v.push(0x73);
    v.push(0x65);
    v.push(0x6e);
    v.push(0x64);
    v.push(0x65);
    v.push(0x72);
    v.push(0x5f);
    v.push(0x69);
    v.push(0x64);
    v.push(0x22);
    v.push(0x3a);
    proof {
        assert(v@ =~= lit_sender_id());
    }
    v
}

fn make_lit_date() -> (r: Vec<u8>)
    ensures
        r@ == lit_date(),
{
    let mut v: Vec<u8> = Vec::new();
    v.push(0x2c);
    v.push(0x22);
    v.push(0x64);
    v.push(0x61);
    v.push(0x74);
    v.push(0x65);
    v.push(0x22);
    v.push(0x3a);
    proof {
        assert(v@ =~= lit_date());
    }
    v
}

fn make_lit_msg_text() -> (r: Vec<u8>)
    ensures
        r@ == lit_msg_text(),
{
    let mut v: Vec<u8> = Vec::new();
    v.push(0x2c);
    v.push(0x22);
    v.push(0x6d);
    v.push(0x73);
    v.push(0x67);
    v.push(0x5f);
    v.push(0x74);
    v.push(0x65);
    v.push(0x78);
    v.push(0x74);
    v.push(0x22);
    v.push(0x3a);
    v.push(0x22);
    proof {
        assert(v@ =~= lit_msg_text());
    }
    v
}

fn make_lit_q_msg_text() -> (r: Vec<u8>)
    ensures
        r@ == lit_q_msg_text(),
{
    let mut v: Vec<u8> = Vec::new();
    v.push(0x22);
    v.push(0x2c);
    v.push(0x22);
    v.push(0x6d);
    v.push(0x73);
    v.push(0x67);
    v.push(0x5f);
    v.push(0x74);
    v.push(0x65);
    v.push(0x78);
    v.push(0x74);
    v.push(0x22);
    v.push(0x3a);
    v.push(0x22);
    proof {
        assert(v@ =~= lit_q_msg_text());
    }
    v
}

/// The chat message envelope:
/// `{"chat_id":"<uuid>","sender_id":<int>,"date":<millis>,"msg_text":"<text>"}`.
pub open spec fn chat_message_json(chat: Seq<u8>, sender: int, date: int, text: Seq<u8>) -> Seq<
    u8,
> {
    lit_obj_chat_id() + uuid_hyphenated(chat) + lit_sender_id() + dec_int(sender) + lit_date()
        + dec_int(date) + lit_msg_text() + escaped(text) + lit_end()
}

/// How a chat message envelope splits into its parts.
pub proof fn lemma_chat_message_shape(c: Seq<u8>, s: int, d: int, t: Seq<u8>)
    requires
        c.len() == 16,
        in_i64(s),
        in_i64(d),
    ensures
        ({
            let p = chat_message_json(c, s, d, t);
            let ds = dec_int(s).len() as int;
            let dd = dec_int(d).len() as int;
            let et = escaped(t).len() as int;
            &&& ds >= 1 && dd >= 1
            &&& p.len() == 85 + ds + dd + et
            &&& p.subrange(0, 12) == lit_obj_chat_id()
            &&& p.subrange(12, 48) == uuid_hyphenated(c)
            &&& p.subrange(48, 62) == lit_sender_id()
            &&& p.subrange(62, 62 + ds) == dec_int(s)
            &&& forall|j: int| 62 <= j < 62 + ds ==> p[j] != 0x2c
            &&& p[62 + ds] == 0x2c
            &&& p.subrange(62 + ds, 70 + ds) == lit_date()
            &&& p.subrange(70 + ds, 70 + ds + dd) == dec_int(d)
            &&& forall|j: int| 70 + ds <= j < 70 + ds + dd ==> p[j] != 0x2c
            &&& p[70 + ds + dd] == 0x2c
            &&& p.subrange(70 + ds + dd, 83 + ds + dd) == lit_msg_text()
            &&& p.subrange(83 + ds + dd, p.len() - 2) == escaped(t)
            &&& p[p.len() - 2] == 0x22 && p[p.len() - 1] == 0x7d
        }),
{
    let p = chat_message_json(c, s, d, t);
    let ds = dec_int(s).len() as int;
    let dd = dec_int(d).len() as int;
    let et = escaped(t).len() as int;
    lemma_dec_int_bytes(s);
    lemma_dec_int_bytes(d);
    assert(uuid_hyphenated(c).len() == 36);
    assert(p.len() == 85 + ds + dd + et);
    assert(p.subrange(0, 12) =~= lit_obj_chat_id());
    assert(p.subrange(12, 48) =~= uuid_hyphenated(c));
    assert(p.subrange(48, 62) =~= lit_sender_id());
    assert(p.subrange(62, 62 + ds) =~= dec_int(s));
    assert forall|j: int| 62 <= j < 62 + ds implies p[j] != 0x2c by {
        assert(p[j] == dec_int(s)[j - 62]);
        assert(is_digit(dec_int(s)[j - 62]) || dec_int(s)[j - 62] == 0x2d);
    }
    assert(p.subrange(62 + ds, 70 + ds) =~= lit_date());
    assert(p[62 + ds] == 0x2c);
    assert(p.subrange(70 + ds, 70 + ds + dd) =~= dec_int(d));
    assert forall|j: int| 70 + ds <= j < 70 + ds + dd implies p[j] != 0x2c by {
        assert(p[j] == dec_int(d)[j - (70 + ds)]);
        assert(is_digit(dec_int(d)[j - (70 + ds)]) || dec_int(d)[j - (70 + ds)] == 0x2d);
    }
    assert(p.subrange(70 + ds + dd, 83 + ds + dd) =~= lit_msg_text());
    assert(p[70 + ds + dd] == 0x2c);
    assert(p.subrange(83 + ds + dd, p.len() - 2) =~= escaped(t));
    assert(p[p.len() - 2] == 0x22 && p[p.len() - 1] == 0x7d);
}


/// A chat message envelope names its parts uniquely: equal spellings mean
/// equal conversation, sender, date and text, so whatever
/// `decode_chat_message` accepts is the one message that was encoded.
pub proof fn lemma_chat_message_json_injective(
    c1: Seq<u8>,
    s1: int,
    d1: int,
    t1: Seq<u8>,
    c2: Seq<u8>,
    s2: int,
    d2: int,
    t2: Seq<u8>,
)
    requires
        c1.len() == 16,
        c2.len() == 16,
        in_i64(s1),
        in_i64(s2),
        in_i64(d1),
        in_i64(d2),
        chat_message_json(c1, s1, d1, t1) == chat_message_json(c2, s2, d2, t2),
    ensures
        c1 == c2,
        s1 == s2,
        d1 == d2,
        t1 == t2,
{
    lemma_chat_message_shape(c1, s1, d1, t1);
    lemma_chat_message_shape(c2, s2, d2, t2);
    let p = chat_message_json(c1, s1, d1, t1);
    assert(uuid_hyphenated(c1) == uuid_hyphenated(c2));
    lemma_uuid_grouped_injective(c1, c2, 0x2d);
    let ds1 = dec_int(s1).len() as int;
    let ds2 = dec_int(s2).len() as int;
    if ds1 < ds2 {
        assert(p[62 + ds1] == 0x2c);
        assert(p[62 + ds1] != 0x2c);
    }
    if ds2 < ds1 {
        assert(p[62 + ds2] == 0x2c);
        assert(p[62 + ds2] != 0x2c);
    }
    assert(ds1 == ds2);
    assert(dec_int(s1) == p.subrange(62, 62 + ds1) && dec_int(s2) == p.subrange(62, 62 + ds1));
    lemma_dec_int_injective(s1, s2);
    let dd1 = dec_int(d1).len() as int;
    let dd2 = dec_int(d2).len() as int;
    if dd1 < dd2 {
        assert(p[70 + ds1 + dd1] == 0x2c);
        assert(p[70 + ds1 + dd1] != 0x2c);
    }
    if dd2 < dd1 {
        assert(p[70 + ds1 + dd2] == 0x2c);
        assert(p[70 + ds1 + dd2] != 0x2c);
    }
    assert(dd1 == dd2);
    assert(dec_int(d1) == p.subrange(70 + ds1, 70 + ds1 + dd1) && dec_int(d2) == p.subrange(
        70 + ds1,
        70 + ds1 + dd1,
    ));
    lemma_dec_int_injective(d1, d2);
    assert(escaped(t1) == p.subrange(83 + ds1 + dd1, p.len() - 2) && escaped(t2) == p.subrange(
        83 + ds1 + dd1,
        p.len() - 2,
    ));
    lemma_escaped_injective(t1, t2);
}

/// The canonical spelling of a chat message envelope: what the bridge
/// publishes outward and what each live connection is handed.
pub fn encode_chat_message(m: &ChatMessage) -> (r: Vec<u8>)
    requires
        m.wf(),
    ensures
        r@ == chat_message_json(m.chat_id@, m.sender_id as int, m.date.millis as int, m.msg_text@),
{
    let mut out = make_lit_obj_chat_id();
    let mut uuid = encode_uuid(&m.chat_id);
    out.append(&mut uuid);
    let mut l2 = make_lit_sender_id();
    out.append(&mut l2);
    let mut num = format_i64(m.sender_id);
    out.append(&mut num);
    let mut l3 = make_lit_date();
    out.append(&mut l3);
    let mut num2 = format_i64(m.date.millis);
    out.append(&mut num2);
    let mut l4 = make_lit_msg_text();
    out.append(&mut l4);
    let mut esc = escape(m.msg_text.as_slice());
    out.append(&mut esc);
    out.push(0x22);
    out.push(0x7d);
    proof {
        assert(out@ =~= chat_message_json(
            m.chat_id@,
            m.sender_id as int,
            m.date.millis as int,
            m.msg_text@,
        ));
    }
    out
}


/// In a chat message envelope the first comma at or past the sender field
/// stands right after the sender's decimal spelling.
pub proof fn lemma_cm_first_comma(payload: Seq<u8>, c: Seq<u8>, s: int, d: int, t: Seq<u8>, k1: int)
    requires
        c.len() == 16,
        in_i64(s),
        in_i64(d),
        payload == chat_message_json(c, s, d, t),
        62 <= k1 < payload.len(),
        payload[k1] == 0x2c,
        forall|k: int| 62 <= k < k1 ==> payload[k] != 0x2c,
    ensures
        k1 == 62 + dec_int(s).len(),
{
    lemma_chat_message_shape(c, s, d, t);
    let ds = dec_int(s).len() as int;
    if k1 < 62 + ds {
        assert(payload[k1] != 0x2c);
    }
    if k1 > 62 + ds {
        assert(payload[62 + ds] != 0x2c);
    }
}

/// And the first comma past the date field stands right after the date's
/// decimal spelling.
pub proof fn lemma_cm_second_comma(
    payload: Seq<u8>,
    c: Seq<u8>,
    s: int,
    d: int,
    t: Seq<u8>,
    k1: int,
    k2: int,
)
    requires
        c.len() == 16,
        in_i64(s),
        in_i64(d),
        payload == chat_message_json(c, s, d, t),
        k1 == 62 + dec_int(s).len(),
        k1 + 8 <= k2 < payload.len(),
        payload[k2] == 0x2c,
        forall|k: int| k1 + 8 <= k < k2 ==> payload[k] != 0x2c,
    ensures
        k2 == 70 + dec_int(s).len() + dec_int(d).len(),
{
    lemma_chat_message_shape(c, s, d, t);
    let ds = dec_int(s).len() as int;
    let dd = dec_int(d).len() as int;
    if k2 < 70 + ds + dd {
        assert(payload[k2] != 0x2c);
    }
    if k2 > 70 + ds + dd {
        assert(payload[70 + ds + dd] != 0x2c);
    }
}

/// Reads a chat message envelope.  Succeeds exactly on the spellings
/// `encode_chat_message` emits; everything else is malformed.
#[verifier::rlimit(100)]
pub fn decode_chat_message(payload: &[u8]) -> (r: Option<ChatMessage>)
    ensures
        r matches Some(m) ==> m.wf() && payload@ == chat_message_json(
            m.chat_id@,
            m.sender_id as int,
            m.date.millis as int,
            m.msg_text@,
        ),
        r is None ==> forall|c: Seq<u8>, s: int, d: int, t: Seq<u8>|
            !(c.len() == 16 && in_i64(s) && in_i64(d) && payload@ == chat_message_json(c, s, d, t)),
{
    let n = payload.len();
    let l1 = make_lit_obj_chat_id();
    if !match_lit(payload, 0, &l1) {
        proof {
            assert forall|c: Seq<u8>, s: int, d: int, t: Seq<u8>|
                !(c.len() == 16 && in_i64(s) && in_i64(d) && payload@ == chat_message_json(
                    c,
                    s,
                    d,
                    t,
                )) by {
                if c.len() == 16 && in_i64(s) && in_i64(d) && payload@ == chat_message_json(
                    c,
                    s,
                    d,
                    t,
                ) {
                    lemma_chat_message_shape(c, s, d, t);
                }
            }
        }
        return None;
    }
    if n < 87 {
        proof {
            assert forall|c: Seq<u8>, s: int, d: int, t: Seq<u8>|
                !(c.len() == 16 && in_i64(s) && in_i64(d) && payload@ == chat_message_json(
                    c,
                    s,
                    d,
                    t,
                )) by {
                if c.len() == 16 && in_i64(s) && in_i64(d) && payload@ == chat_message_json(
                    c,
                    s,
                    d,
                    t,
                ) {
                    lemma_chat_message_shape(c, s, d, t);
                }
            }
        }
        return None;
    }
    let uuid_region = vstd::slice::slice_subrange(payload, 12, 48);
    let id = match parse_uuid(uuid_region) {
        Some(id) => id,
        None => {
            proof {
                assert forall|c: Seq<u8>, s: int, d: int, t: Seq<u8>|
                    !(c.len() == 16 && in_i64(s) && in_i64(d) && payload@ == chat_message_json(
                        c,
                        s,
                        d,
                        t,
                    )) by {
                    if c.len() == 16 && in_i64(s) && in_i64(d) && payload@ == chat_message_json(
                        c,
                        s,
                        d,
                        t,
                    ) {
                        lemma_chat_message_shape(c, s, d, t);
                        assert(uuid_region@ == uuid_hyphenated(c));
                    }
                }
            }
            return None;
        },
    };
    let l2 = make_lit_sender_id();
    if !match_lit(payload, 48, &l2) {
        proof {
            assert forall|c: Seq<u8>, s: int, d: int, t: Seq<u8>|
                !(c.len() == 16 && in_i64(s) && in_i64(d) && payload@ == chat_message_json(
                    c,
                    s,
                    d,
                    t,
                )) by {
                if c.len() == 16 && in_i64(s) && in_i64(d) && payload@ == chat_message_json(
                    c,
                    s,
                    d,
                    t,
                ) {
                    lemma_chat_message_shape(c, s, d, t);
                }
            }
        }
        return None;
    }
    let k1 = match find_byte(payload, 62, 0x2c) {
        Some(k) => k,
        None => {
            proof {
                assert forall|c: Seq<u8>, s: int, d: int, t: Seq<u8>|
                    !(c.len() == 16 && in_i64(s) && in_i64(d) && payload@ == chat_message_json(
                        c,
                        s,
                        d,
                        t,
                    )) by {
                    if c.len() == 16 && in_i64(s) && in_i64(d) && payload@ == chat_message_json(
                        c,
                        s,
                        d,
                        t,
                    ) {
                        lemma_chat_message_shape(c, s, d, t);
                        assert(payload@[62 + dec_int(s).len() as int] == 0x2c);
                    }
                }
            }
            return None;
        },
    };
    let sender_region = vstd::slice::slice_subrange(payload, 62, k1);
    let vs = match parse_i64_dec(sender_region) {
        Some(v) => v,
        None => {
            proof {
                assert forall|c: Seq<u8>, s: int, d: int, t: Seq<u8>|
                    !(c.len() == 16 && in_i64(s) && in_i64(d) && payload@ == chat_message_json(
                        c,
                        s,
                        d,
                        t,
                    )) by {
                    if c.len() == 16 && in_i64(s) && in_i64(d) && payload@ == chat_message_json(
                        c,
                        s,
                        d,
                        t,
                    ) {
                        lemma_cm_first_comma(payload@, c, s, d, t, k1 as int);
                        lemma_chat_message_shape(c, s, d, t);
                        let vv: i64 = s as i64;
                        assert(sender_region@ == dec_int(vv as int));
                    }
                }
            }
            return None;
        },
    };
    let l3 = make_lit_date();
    if !match_lit(payload, k1, &l3) {
        proof {
            assert forall|c: Seq<u8>, s: int, d: int, t: Seq<u8>|
                !(c.len() == 16 && in_i64(s) && in_i64(d) && payload@ == chat_message_json(
                    c,
                    s,
                    d,
                    t,
                )) by {
                if c.len() == 16 && in_i64(s) && in_i64(d) && payload@ == chat_message_json(
                    c,
                    s,
                    d,
                    t,
                ) {
                    lemma_cm_first_comma(payload@, c, s, d, t, k1 as int);
                    lemma_chat_message_shape(c, s, d, t);
                }
            }
        }
        return None;
    }
    let k2 = match find_byte(payload, k1 + 8, 0x2c) {
        Some(k) => k,
        None => {
            proof {
                assert forall|c: Seq<u8>, s: int, d: int, t: Seq<u8>|
                    !(c.len() == 16 && in_i64(s) && in_i64(d) && payload@ == chat_message_json(
                        c,
                        s,
                        d,
                        t,
                    )) by {
                    if c.len() == 16 && in_i64(s) && in_i64(d) && payload@ == chat_message_json(
                        c,
                        s,
                        d,
                        t,
                    ) {
                        lemma_cm_first_comma(payload@, c, s, d, t, k1 as int);
                        lemma_chat_message_shape(c, s, d, t);
                        let ds = dec_int(s).len() as int;
                        assert(payload@[70 + ds + dec_int(d).len() as int] == 0x2c);
                    }
                }
            }
            return None;
        },
    };
    let date_region = vstd::slice::slice_subrange(payload, k1 + 8, k2);
    let vd = match parse_i64_dec(date_region) {
        Some(v) => v,
        None => {
            proof {
                assert forall|c: Seq<u8>, s: int, d: int, t: Seq<u8>|
                    !(c.len() == 16 && in_i64(s) && in_i64(d) && payload@ == chat_message_json(
                        c,
                        s,
                        d,
                        t,
                    )) by {
                    if c.len() == 16 && in_i64(s) && in_i64(d) && payload@ == chat_message_json(
                        c,
                        s,
                        d,
                        t,
                    ) {
                        lemma_cm_first_comma(payload@, c, s, d, t, k1 as int);
                        lemma_cm_second_comma(payload@, c, s, d, t, k1 as int, k2 as int);
                        lemma_chat_message_shape(c, s, d, t);
                        let vv: i64 = d as i64;
                        assert(date_region@ == dec_int(vv as int));
                    }
                }
            }
            return None;
        },
    };
    let l4 = make_lit_msg_text();
    if !match_lit(payload, k2, &l4) {
        proof {
            assert forall|c: Seq<u8>, s: int, d: int, t: Seq<u8>|
                !(c.len() == 16 && in_i64(s) && in_i64(d) && payload@ == chat_message_json(
                    c,
                    s,
                    d,
                    t,
                )) by {
                if c.len() == 16 && in_i64(s) && in_i64(d) && payload@ == chat_message_json(
                    c,
                    s,
                    d,
                    t,
                ) {
                    lemma_cm_first_comma(payload@, c, s, d, t, k1 as int);
                    lemma_cm_second_comma(payload@, c, s, d, t, k1 as int, k2 as int);
                    lemma_chat_message_shape(c, s, d, t);
                }
            }
        }
        return None;
    }
    if n - k2 < 15 || payload[n - 2] != 0x22 || payload[n - 1] != 0x7d {
        proof {
            assert forall|c: Seq<u8>, s: int, d: int, t: Seq<u8>|
                !(c.len() == 16 && in_i64(s) && in_i64(d) && payload@ == chat_message_json(
                    c,
                    s,
                    d,
                    t,
                )) by {
                if c.len() == 16 && in_i64(s) && in_i64(d) && payload@ == chat_message_json(
                    c,
                    s,
                    d,
                    t,
                ) {
                    lemma_cm_first_comma(payload@, c, s, d, t, k1 as int);
                    lemma_cm_second_comma(payload@, c, s, d, t, k1 as int, k2 as int);
                    lemma_chat_message_shape(c, s, d, t);
                }
            }
        }
        return None;
    }
    let text_region = vstd::slice::slice_subrange(payload, k2 + 13, n - 2);
    let t = match unescape(text_region) {
        Some(t) => t,
        None => {
            proof {
                assert forall|c: Seq<u8>, s: int, d: int, t: Seq<u8>|
                    !(c.len() == 16 && in_i64(s) && in_i64(d) && payload@ == chat_message_json(
                        c,
                        s,
                        d,
                        t,
                    )) by {
                    if c.len() == 16 && in_i64(s) && in_i64(d) && payload@ == chat_message_json(
                        c,
                        s,
                        d,
                        t,
                    ) {
                        lemma_cm_first_comma(payload@, c, s, d, t, k1 as int);
                        lemma_cm_second_comma(payload@, c, s, d, t, k1 as int, k2 as int);
                        lemma_chat_message_shape(c, s, d, t);
                        assert(text_region@ == escaped(t));
                    }
                }
            }
            return None;
        },
    };
    let m = ChatMessage {
        chat_id: id,
        sender_id: vs,
        date: SerializableDuration { millis: vd },
        msg_text: t,
    };
    proof {
        lemma_chat_message_shape(m.chat_id@, vs as int, vd as int, m.msg_text@);
        assert(payload@ =~= chat_message_json(
            m.chat_id@,
            m.sender_id as int,
            m.date.millis as int,
            m.msg_text@,
        ));
    }
    Some(m)
}

/// The envelope a user's connection hands in:
/// `{"chat_id":"<uuid>","msg_text":"<text>"}`.
pub open spec fn new_chat_message_json(chat: Seq<u8>, text: Seq<u8>) -> Seq<u8> {
    lit_obj_chat_id() + uuid_hyphenated(chat) + lit_q_msg_text() + escaped(text) + lit_end()
}

/// How an inbound message envelope splits into its parts.
pub proof fn lemma_new_chat_message_shape(c: Seq<u8>, t: Seq<u8>)
    requires
        c.len() == 16,
    ensures
        ({
            let p = new_chat_message_json(c, t);
            let et = escaped(t).len() as int;
            &&& p.len() == 64 + et
            &&& p.subrange(0, 12) == lit_obj_chat_id()
            &&& p.subrange(12, 48) == uuid_hyphenated(c)
            &&& p.subrange(48, 62) == lit_q_msg_text()
            &&& p.subrange(62, p.len() - 2) == escaped(t)
            &&& p[p.len() - 2] == 0x22 && p[p.len() - 1] == 0x7d
        }),
{
    let p = new_chat_message_json(c, t);
    assert(uuid_hyphenated(c).len() == 36);
    assert(p.subrange(0, 12) =~= lit_obj_chat_id());
    assert(p.subrange(12, 48) =~= uuid_hyphenated(c));
    assert(p.subrange(48, 62) =~= lit_q_msg_text());
    assert(p.subrange(62, p.len() - 2) =~= escaped(t));
}


/// An inbound message envelope names its parts uniquely.
pub proof fn lemma_new_chat_message_json_injective(c1: Seq<u8>, t1: Seq<u8>, c2: Seq<u8>, t2: Seq<u8>)
    requires
        c1.len() == 16,
        c2.len() == 16,
        new_chat_message_json(c1, t1) == new_chat_message_json(c2, t2),
    ensures
        c1 == c2,
        t1 == t2,
{
    lemma_new_chat_message_shape(c1, t1);
    lemma_new_chat_message_shape(c2, t2);
    let p = new_chat_message_json(c1, t1);
    assert(uuid_hyphenated(c1) == uuid_hyphenated(c2));
    lemma_uuid_grouped_injective(c1, c2, 0x2d);
    assert(escaped(t1) == p.subrange(62, p.len() - 2) && escaped(t2) == p.subrange(
        62,
        p.len() - 2,
    ));
    lemma_escaped_injective(t1, t2);
}

/// The canonical spelling of an inbound message envelope.
pub fn encode_new_chat_message(m: &NewChatMessage) -> (r: Vec<u8>)
    requires
        m.wf(),
    ensures
        r@ == new_chat_message_json(m.chat_id@, m.msg_text@),
{
    let mut out = make_lit_obj_chat_id();
    let mut uuid = encode_uuid(&m.chat_id);
    out.append(&mut uuid);
    let mut l2 = make_lit_q_msg_text();
    out.append(&mut l2);
    let mut esc = escape(m.msg_text.as_slice());
    out.append(&mut esc);
    out.push(0x22);
    out.push(0x7d);
    proof {
        assert(out@ =~= new_chat_message_json(m.chat_id@, m.msg_text@));
    }
    out
}

/// Reads an inbound message envelope.  Succeeds exactly on the spellings
/// `encode_new_chat_message` emits; everything else is malformed.
pub fn decode_new_chat_message(payload: &[u8]) -> (r: Option<NewChatMessage>)
    ensures
        r matches Some(m) ==> m.wf() && payload@ == new_chat_message_json(m.chat_id@, m.msg_text@),
        r is None ==> forall|c: Seq<u8>, t: Seq<u8>|
            !(c.len() == 16 && payload@ == new_chat_message_json(c, t)),
{
    let n = payload.len();
    let l1 = make_lit_obj_chat_id();
    if !match_lit(payload, 0, &l1) || n < 64 {
        proof {
            assert forall|c: Seq<u8>, t: Seq<u8>|
                !(c.len() == 16 && payload@ == new_chat_message_json(c, t)) by {
                if c.len() == 16 && payload@ == new_chat_message_json(c, t) {
                    lemma_new_chat_message_shape(c, t);
                }
            }
        }
        return None;
    }
    let uuid_region = vstd::slice::slice_subrange(payload, 12, 48);
    let id = match parse_uuid(uuid_region) {
        Some(id) => id,
        None => {
            proof {
                assert forall|c: Seq<u8>, t: Seq<u8>|
                    !(c.len() == 16 && payload@ == new_chat_message_json(c, t)) by {
                    if c.len() == 16 && payload@ == new_chat_message_json(c, t) {
                        lemma_new_chat_message_shape(c, t);
                        assert(uuid_region@ == uuid_hyphenated(c));
                    }
                }
            }
            return None;
        },
    };
    let l2 = make_lit_q_msg_text();
    if !match_lit(payload, 48, &l2) || payload[n - 2] != 0x22 || payload[n - 1] != 0x7d {
        proof {
            assert forall|c: Seq<u8>, t: Seq<u8>|
                !(c.len() == 16 && payload@ == new_chat_message_json(c, t)) by {
                if c.len() == 16 && payload@ == new_chat_message_json(c, t) {
                    lemma_new_chat_message_shape(c, t);
                }
            }
        }
        return None;
    }
    let text_region = vstd::slice::slice_subrange(payload, 62, n - 2);
    let t = match unescape(text_region) {
        Some(t) => t,
        None => {
            proof {
                assert forall|c: Seq<u8>, t: Seq<u8>|
                    !(c.len() == 16 && payload@ == new_chat_message_json(c, t)) by {
                    if c.len() == 16 && payload@ == new_chat_message_json(c, t) {
                        lemma_new_chat_message_shape(c, t);
                        assert(text_region@ == escaped(t));
                    }
                }
            }
            return None;
        },
    };
    let m = NewChatMessage { chat_id: id, msg_text: t };
    proof {
        lemma_new_chat_message_shape(m.chat_id@, m.msg_text@);
        assert(payload@ =~= new_chat_message_json(m.chat_id@, m.msg_text@));
    }
    Some(m)
}

} // verus!
