//! Key hashing: which of the 16384 slots a key belongs to.
//!
//! A key is hashed with CRC-16/XMODEM and reduced modulo the slot count.
//! When the key carries a hash tag (a non-empty span between the first `{`
//! and the first `}` after it), only the tag is hashed, so that related keys
//! can be placed on the same node.

use crate::reply::{decode, decoded, first_argument, take_first_argument, Reply};
use vstd::prelude::*;

verus! {

/// Number of hash slots a cluster is partitioned into.
pub const SLOT_SIZE: u16 = 16384;

/// The byte `{`, which opens a hash tag.
pub const TAG_OPEN: u8 = 0x7b;

/// The byte `}`, which closes a hash tag.
pub const TAG_CLOSE: u8 = 0x7d;

/// Feeds `rounds` zero bits through the CRC register: each round shifts the
/// register left by one bit and, when the bit shifted out was set, folds in
/// the generator polynomial `0x1021`.
pub open spec fn crc16_shift(crc: u16, rounds: nat) -> u16
    decreases rounds,
{
    if rounds == 0 {
        crc
    } else {
        let shifted: u16 = crc << 1;
        let next: u16 = if crc & 0x8000 != 0 {
            shifted ^ 0x1021
        } else {
            shifted
        };
        crc16_shift(next, (rounds - 1) as nat)
    }
}

/// CRC-16/XMODEM of a byte string: generator polynomial `0x1021`, initial
/// register `0x0000`, bytes taken most significant bit first, nothing
/// reflected, no final XOR.
pub open spec fn crc16_xmodem(data: Seq<u8>) -> u16
    decreases data.len(),
{
    if data.len() == 0 {
        0
    } else {
        let high: u16 = (data.last() as u16) << 8;
        crc16_shift(crc16_xmodem(data.drop_last()) ^ high, 8)
    }
}

/// Position of the first occurrence of `byte` in `s` at or after `from`, or
/// `s.len()` when there is none.
pub open spec fn find_from(s: Seq<u8>, byte: u8, from: int) -> int
    decreases s.len() - from,
{
    if from >= s.len() {
        s.len() as int
    } else if s[from] == byte {
        from
    } else {
        find_from(s, byte, from + 1)
    }
}

/// Whether `key` carries a hash tag: a `{`, then a first `}` after it, with
/// at least one byte between the two.
pub open spec fn has_hash_tag(key: Seq<u8>) -> bool {
    let open = find_from(key, TAG_OPEN, 0);
    let close = find_from(key, TAG_CLOSE, open + 1);
    open < key.len() && close < key.len() && open + 1 < close
}

/// The part of `key` that is hashed: the hash tag where there is one, the
/// whole key otherwise.
pub open spec fn hashed_part(key: Seq<u8>) -> Seq<u8> {
    if has_hash_tag(key) {
        let open = find_from(key, TAG_OPEN, 0);
        key.subrange(open + 1, find_from(key, TAG_CLOSE, open + 1))
    } else {
        key
    }
}

/// The slot that owns `key`.
pub open spec fn key_slot(key: Seq<u8>) -> u16 {
    crc16_xmodem(hashed_part(key)) % SLOT_SIZE
}

/// `find_from` returns the least matching position at or after `from`.
pub proof fn lemma_find_from(s: Seq<u8>, byte: u8, from: int)
    requires
        0 <= from <= s.len(),
    ensures
        from <= find_from(s, byte, from) <= s.len(),
        find_from(s, byte, from) < s.len() ==> s[find_from(s, byte, from)] == byte,
        forall|i: int| from <= i < find_from(s, byte, from) ==> s[i] != byte,
    decreases s.len() - from,
{
    if from < s.len() && s[from] != byte {
        lemma_find_from(s, byte, from + 1);
    }
}

/// Where no byte of `s` at or after `from` equals `byte`, the search runs to
/// the end.
pub proof fn lemma_find_from_absent(s: Seq<u8>, byte: u8, from: int)
    requires
        0 <= from <= s.len(),
        forall|i: int| from <= i < s.len() ==> s[i] != byte,
    ensures
        find_from(s, byte, from) == s.len(),
    decreases s.len() - from,
{
    if from < s.len() {
        lemma_find_from_absent(s, byte, from + 1);
    }
}

/// Where `at` is the first position at or after `from` that holds `byte`,
/// the search stops there.
pub proof fn lemma_find_from_first(s: Seq<u8>, byte: u8, from: int, at: int)
    requires
        0 <= from <= at < s.len(),
        s[at] == byte,
        forall|i: int| from <= i < at ==> s[i] != byte,
    ensures
        find_from(s, byte, from) == at,
    decreases at - from,
{
    if from < at {
        lemma_find_from_first(s, byte, from + 1, at);
    }
}

/// A key without any `{` is hashed whole: its slot is the CRC-16/XMODEM of
/// the key, modulo the slot count.
pub proof fn lemma_plain_key_slot(key: Seq<u8>)
    requires
        forall|i: int| 0 <= i < key.len() ==> key[i] != TAG_OPEN,
    ensures
        hashed_part(key) == key,
        key_slot(key) == crc16_xmodem(key) % SLOT_SIZE,
{
    lemma_find_from_absent(key, TAG_OPEN, 0);
}

/// A key of the form `prefix{tag}suffix`, where `prefix` holds no `{` and
/// the non-empty `tag` holds no `}`, lands in the slot of `tag` alone.
pub proof fn lemma_tagged_key_slot(prefix: Seq<u8>, tag: Seq<u8>, suffix: Seq<u8>)
    requires
        forall|i: int| 0 <= i < prefix.len() ==> prefix[i] != TAG_OPEN,
        forall|i: int| 0 <= i < tag.len() ==> tag[i] != TAG_CLOSE,
        tag.len() > 0,
    ensures
        hashed_part(prefix + seq![TAG_OPEN] + tag + seq![TAG_CLOSE] + suffix) == tag,
        key_slot(prefix + seq![TAG_OPEN] + tag + seq![TAG_CLOSE] + suffix) == crc16_xmodem(tag)
            % SLOT_SIZE,
        key_slot(prefix + seq![TAG_OPEN] + tag + seq![TAG_CLOSE] + suffix) == key_slot(tag),
{
    let key = prefix + seq![TAG_OPEN] + tag + seq![TAG_CLOSE] + suffix;
    let open = prefix.len() as int;
    let close = open + 1 + tag.len();
    assert forall|i: int| 0 <= i < open implies key[i] != TAG_OPEN by {}
    lemma_find_from_first(key, TAG_OPEN, 0, open);
    lemma_find_from_first(key, TAG_CLOSE, open + 1, close);
    lemma_closeless_key_slot(tag);
}

/// A key that holds no `}` carries no hash tag and is hashed whole.
pub proof fn lemma_closeless_key_slot(key: Seq<u8>)
    requires
        forall|i: int| 0 <= i < key.len() ==> key[i] != TAG_CLOSE,
    ensures
        hashed_part(key) == key,
        key_slot(key) == crc16_xmodem(key) % SLOT_SIZE,
{
    let open = find_from(key, TAG_OPEN, 0);
    lemma_find_from(key, TAG_OPEN, 0);
    if open < key.len() {
        lemma_find_from_absent(key, TAG_CLOSE, open + 1);
    }
}

/// A key whose first `{` is directly followed by `}` carries no hash tag:
/// the empty span is ignored and the whole key is hashed. This covers
/// `{}x`, with an empty `prefix`.
pub proof fn lemma_empty_tag_key_slot(prefix: Seq<u8>, suffix: Seq<u8>)
    requires
        forall|i: int| 0 <= i < prefix.len() ==> prefix[i] != TAG_OPEN,
    ensures
        hashed_part(prefix + seq![TAG_OPEN, TAG_CLOSE] + suffix) == prefix + seq![
            TAG_OPEN,
            TAG_CLOSE,
        ] + suffix,
        key_slot(prefix + seq![TAG_OPEN, TAG_CLOSE] + suffix) == crc16_xmodem(
            prefix + seq![TAG_OPEN, TAG_CLOSE] + suffix,
        ) % SLOT_SIZE,
{
    let key = prefix + seq![TAG_OPEN, TAG_CLOSE] + suffix;
    let open = prefix.len() as int;
    lemma_find_from_first(key, TAG_OPEN, 0, open);
    lemma_find_from_first(key, TAG_CLOSE, open + 1, open + 1);
}

/// Appending a byte feeds it through the register.
pub proof fn lemma_crc16_push(data: Seq<u8>, byte: u8)
    ensures
        crc16_xmodem(data.push(byte)) == crc16_shift(
            crc16_xmodem(data) ^ ((byte as u16) << 8),
            8,
        ),
{
    assert(data.push(byte).drop_last() =~= data);
}

/// The checksum of the digits `123456789` is `0x31c3`, the check value by
/// which the XMODEM variant is known.
pub proof fn lemma_check_value()
    ensures
        crc16_xmodem(seq![0x31u8, 0x32, 0x33, 0x34, 0x35, 0x36, 0x37, 0x38, 0x39]) == 0x31c3,
{
    let digits = seq![0x31u8, 0x32, 0x33, 0x34, 0x35, 0x36, 0x37, 0x38, 0x39];
    let empty = Seq::<u8>::empty();
    assert(crc16_shift(0x0000u16 ^ ((0x31u8 as u16) << 8), 8) == 0x2672) by (bit_vector);
    assert(crc16_shift(0x2672u16 ^ ((0x32u8 as u16) << 8), 8) == 0x20b5) by (bit_vector);
    assert(crc16_shift(0x20b5u16 ^ ((0x33u8 as u16) << 8), 8) == 0x9752) by (bit_vector);
    assert(crc16_shift(0x9752u16 ^ ((0x34u8 as u16) << 8), 8) == 0xd789) by (bit_vector);
    assert(crc16_shift(0xd789u16 ^ ((0x35u8 as u16) << 8), 8) == 0x546c) by (bit_vector);
    assert(crc16_shift(0x546cu16 ^ ((0x36u8 as u16) << 8), 8) == 0x20e4) by (bit_vector);
    assert(crc16_shift(0x20e4u16 ^ ((0x37u8 as u16) << 8), 8) == 0x86d6) by (bit_vector);
    assert(crc16_shift(0x86d6u16 ^ ((0x38u8 as u16) << 8), 8) == 0x9015) by (bit_vector);
    assert(crc16_shift(0x9015u16 ^ ((0x39u8 as u16) << 8), 8) == 0x31c3) by (bit_vector);
    lemma_crc16_push(empty, 0x31);
    lemma_crc16_push(digits.take(1), 0x32);
    lemma_crc16_push(digits.take(2), 0x33);
    lemma_crc16_push(digits.take(3), 0x34);
    lemma_crc16_push(digits.take(4), 0x35);
    lemma_crc16_push(digits.take(5), 0x36);
    lemma_crc16_push(digits.take(6), 0x37);
    lemma_crc16_push(digits.take(7), 0x38);
    lemma_crc16_push(digits.take(8), 0x39);
    assert(empty.push(0x31) =~= digits.take(1));
    assert(digits.take(1).push(0x32) =~= digits.take(2));
    assert(digits.take(2).push(0x33) =~= digits.take(3));
    assert(digits.take(3).push(0x34) =~= digits.take(4));
    assert(digits.take(4).push(0x35) =~= digits.take(5));
    assert(digits.take(5).push(0x36) =~= digits.take(6));
    assert(digits.take(6).push(0x37) =~= digits.take(7));
    assert(digits.take(7).push(0x38) =~= digits.take(8));
}

/// CRC-16/XMODEM of `data`, computed by the `crc16` crate's
/// `State::<XMODEM>::calculate`. The crate documents this variant by its
/// parameters (polynomial `0x1021`, initial value `0`, no reflection, no
/// final XOR, check value `0x31c3`); the contract restates them as
/// `crc16_xmodem`.
#[verifier::external_body]
fn xmodem_checksum(data: &[u8]) -> (sum: u16)
    ensures
        sum == crc16_xmodem(data@),
{
    crc16::State::<crc16::XMODEM>::calculate(data)
}

/// Finds the first occurrence of `byte` in `s` at or after `from`.
fn position_from(s: &[u8], byte: u8, from: usize) -> (at: usize)
    ensures
        at == find_from(s@, byte, from as int),
        at <= s@.len(),
{
    let mut i: usize = from;
    if i >= s.len() {
        return s.len();
    }
    while i < s.len() && s[i] != byte
        invariant
            from <= i <= s@.len(),
            find_from(s@, byte, from as int) == find_from(s@, byte, i as int),
        decreases s@.len() - i,
    {
        i = i + 1;
    }
    i
}

/// Returns the part of `key` that decides its slot: the bytes between the
/// first `{` and the first `}` after it when that span is not empty, and the
/// whole key otherwise.
pub fn sub_key(key: &[u8]) -> (part: &[u8])
    ensures
        part@ == hashed_part(key@),
{
    let open = position_from(key, TAG_OPEN, 0);
    if open >= key.len() {
        return key;
    }
    let close = position_from(key, TAG_CLOSE, open + 1);
    if close >= key.len() || close == open + 1 {
        return key;
    }
    proof {
        lemma_find_from(key@, TAG_CLOSE, open + 1);
    }
    &key[open + 1..close]
}

/// Computes the slot that owns `key`.
pub fn slot_for_key(key: &[u8]) -> (slot: u16)
    ensures
        slot == key_slot(key@),
        slot < SLOT_SIZE,
{
    let part = sub_key(key);
    xmodem_checksum(part) % SLOT_SIZE
}

/// The slot of a decoded command: that of its first argument, when the
/// value is an array of at least two elements whose second element is a
/// bulk string.
pub open spec fn reply_slot(reply: Option<Reply>) -> Option<u16> {
    match first_argument(reply) {
        Some(key) => Some(key_slot(key)),
        None => None,
    }
}

/// The slot of a packed command: that of what the frame decodes to.
pub open spec fn packed_slot(cmd: Seq<u8>) -> Option<u16> {
    reply_slot(decoded(cmd))
}

/// A command whose first argument holds no `{` is routed by the
/// CRC-16/XMODEM of that argument, modulo the slot count.
pub proof fn lemma_plain_command_slot(cmd: Seq<u8>, key: Seq<u8>)
    requires
        first_argument(decoded(cmd)) == Some(key),
        forall|i: int| 0 <= i < key.len() ==> key[i] != TAG_OPEN,
    ensures
        packed_slot(cmd) == Some((crc16_xmodem(key) % SLOT_SIZE) as u16),
{
    lemma_plain_key_slot(key);
}

/// A command whose first argument is `prefix{tag}suffix`, where `prefix`
/// holds no `{` and the non-empty `tag` holds no `}`, is routed by `tag`
/// alone.
pub proof fn lemma_tagged_command_slot(
    cmd: Seq<u8>,
    prefix: Seq<u8>,
    tag: Seq<u8>,
    suffix: Seq<u8>,
)
    requires
        first_argument(decoded(cmd)) == Some(
            prefix + seq![TAG_OPEN] + tag + seq![TAG_CLOSE] + suffix,
        ),
        forall|i: int| 0 <= i < prefix.len() ==> prefix[i] != TAG_OPEN,
        forall|i: int| 0 <= i < tag.len() ==> tag[i] != TAG_CLOSE,
        tag.len() > 0,
    ensures
        packed_slot(cmd) == Some(key_slot(tag)),
        packed_slot(cmd) == Some((crc16_xmodem(tag) % SLOT_SIZE) as u16),
{
    lemma_tagged_key_slot(prefix, tag, suffix);
}

/// Computes the slot of a decoded command, or `None` when it has no first
/// argument to route by.
pub fn slot_for_reply(reply: Option<Reply>) -> (slot: Option<u16>)
    ensures
        slot == reply_slot(reply),
        slot matches Some(s) ==> s < SLOT_SIZE,
{
    match take_first_argument(reply) {
        Some(key) => Some(slot_for_key(key.as_slice())),
        None => None,
    }
}

/// Extracts the routing key of a packed command: its first argument.
/// Returns `None` when the frame does not decode, is not an array, has
/// fewer than two elements, or its second element is not a bulk string.
pub fn command_key(cmd: &[u8]) -> (key: Option<Vec<u8>>)
    ensures
        match key {
            Some(bytes) => first_argument(decoded(cmd@)) == Some(bytes@),
            None => first_argument(decoded(cmd@)) is None,
        },
{
    take_first_argument(decode(cmd))
}

/// Computes the slot a packed command is routed to, or `None` when the
/// command carries no key.
pub fn slot_for_packed_command(cmd: &[u8]) -> (slot: Option<u16>)
    ensures
        slot == packed_slot(cmd@),
        slot matches Some(s) ==> s < SLOT_SIZE,
{
    slot_for_reply(decode(cmd))
}

} // verus!
