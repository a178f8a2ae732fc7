//! Password encoding: HMAC-SHA256 output stream, rejection sampling into the
//! character set, and retry rounds until every required class appears.
use hmac::{Hmac, Mac};
use sha2::Sha256;
use vstd::prelude::*;

use crate::sensitive::SecretVec;
use crate::text::{decimal, decimal_string};

verus! {

/// Domain separator of the encoding, `b"keyforge-password-encode-v2"`.
pub const DOMAIN: &'static [u8; 27] = &[
    107, 101, 121, 102, 111, 114, 103, 101, 45, 112, 97, 115, 115, 119, 111, 114, 100, 45, 101,
    110, 99, 111, 100, 101, 45, 118, 50,
];

/// `b"abcdefghijklmnopqrstuvwxyz"`.
pub const LOWER: &'static [u8; 26] = &[
    97, 98, 99, 100, 101, 102, 103, 104, 105, 106, 107, 108, 109, 110, 111, 112, 113, 114, 115,
    116, 117, 118, 119, 120, 121, 122,
];

/// `b"ABCDEFGHIJKLMNOPQRSTUVWXYZ"`.
pub const UPPER: &'static [u8; 26] = &[
    65, 66, 67, 68, 69, 70, 71, 72, 73, 74, 75, 76, 77, 78, 79, 80, 81, 82, 83, 84, 85, 86, 87,
    88, 89, 90,
];

/// `b"0123456789"`.
pub const DIGIT: &'static [u8; 10] = &[48, 49, 50, 51, 52, 53, 54, 55, 56, 57];

/// The symbol class used when symbols are switched on.
pub const BUILTIN_SYMBOLS: &'static str = "!@#$%^&*";

/// How many rounds are tried before giving up on covering every class.
pub const MAX_ROUNDS: u64 = 4096;

/// Big-endian bytes of a `u32` (`u32::to_be_bytes`).
pub open spec fn be_u32(n: u32) -> Seq<u8> {
    seq![(n >> 24u32) as u8, (n >> 16u32) as u8, (n >> 8u32) as u8, n as u8]
}

/// Big-endian bytes of a `u64` (`u64::to_be_bytes`).
pub open spec fn be_u64(n: u64) -> Seq<u8> {
    seq![
        (n >> 56u64) as u8,
        (n >> 48u64) as u8,
        (n >> 40u64) as u8,
        (n >> 32u64) as u8,
        (n >> 24u64) as u8,
        (n >> 16u64) as u8,
        (n >> 8u64) as u8,
        n as u8,
    ]
}

fn be_bytes_u32(n: u32) -> (b: [u8; 4])
    ensures
        b@ == be_u32(n),
{
    let b = [(n >> 24u32) as u8, (n >> 16u32) as u8, (n >> 8u32) as u8, n as u8];
    assert(b@ =~= be_u32(n));
    b
}

fn be_bytes_u64(n: u64) -> (b: [u8; 8])
    ensures
        b@ == be_u64(n),
{
    let b = [
        (n >> 56u64) as u8,
        (n >> 48u64) as u8,
        (n >> 40u64) as u8,
        (n >> 32u64) as u8,
        (n >> 24u64) as u8,
        (n >> 16u64) as u8,
        (n >> 8u64) as u8,
        n as u8,
    ];
    assert(b@ =~= be_u64(n));
    b
}

/// Appends the bytes of `s` to `v`.
fn append_bytes(v: &mut Vec<u8>, s: &[u8])
    ensures
        final(v)@ == old(v)@ + s@,
{
    let ghost start = v@;
    let mut i: usize = 0;
    while i < s.len()
        invariant
            0 <= i <= s@.len(),
            v@ == start + s@.take(i as int),
        decreases s@.len() - i,
    {
        v.push(s[i]);
        i = i + 1;
        assert(v@ =~= start + s@.take(i as int));
    }
    assert(s@.take(i as int) =~= s@);
}

/// The message that one output block authenticates: the domain separator,
/// the password length, the character set, the round and the block index.
pub open spec fn expand_message(length: u32, charset: Seq<u8>, round: u64, block_index: u64) -> Seq<
    u8,
> {
    DOMAIN@ + be_u32(length) + charset + be_u64(round) + be_u64(block_index)
}

/// The HMAC-SHA256 tag (RFC 2104 over FIPS 180-4 SHA-256) of `message` under
/// `key`; a function of its two arguments, 32 bytes long.
pub uninterp spec fn hmac_sha256(key: Seq<u8>, message: Seq<u8>) -> Seq<u8>;

/// The 32 bytes that `expand` produces for one block.
pub open spec fn expand_block(
    seed: Seq<u8>,
    length: u32,
    charset: Seq<u8>,
    round: u64,
    block_index: u64,
) -> Seq<u8> {
    hmac_sha256(seed, expand_message(length, charset, round, block_index))
}

/// HMAC-SHA256 of `message` under `key`: `Hmac::<Sha256>::new_from_slice`,
/// `Mac::update` with the whole message, `Mac::finalize` and `into_bytes`.
/// Trusted: the tag is `hmac_sha256(key, message)`; `new_from_slice` of the
/// hmac crate accepts keys of every length (long keys are hashed first), so
/// the result is always `Some`.
#[verifier::external_body]
fn hmac_sha256_tag(key: &[u8], message: &[u8]) -> (tag: Option<[u8; 32]>)
    ensures
        tag is Some,
        tag.unwrap()@ == hmac_sha256(key@, message@),
{
    match <Hmac<Sha256> as Mac>::new_from_slice(key) {
        Ok(mut mac) => {
            mac.update(message);
            Some(mac.finalize().into_bytes().into())
        },
        Err(_) => None,
    }
}

/// One 32-byte block of the HMAC-SHA256 output stream for `seed`.
pub fn expand(seed: &[u8], length: u32, charset: &[u8], round: u64, block_index: u64) -> (r:
    Result<[u8; 32], String>)
    ensures
        r matches Ok(b) && b@ == expand_block(seed@, length, charset@, round, block_index),
{
    let mut message: Vec<u8> = Vec::new();
    append_bytes(&mut message, DOMAIN.as_slice());
    let length_bytes = be_bytes_u32(length);
    append_bytes(&mut message, length_bytes.as_slice());
    append_bytes(&mut message, charset);
    let round_bytes = be_bytes_u64(round);
    append_bytes(&mut message, round_bytes.as_slice());
    let block_bytes = be_bytes_u64(block_index);
    append_bytes(&mut message, block_bytes.as_slice());
    assert(message@ =~= expand_message(length, charset@, round, block_index));
    match hmac_sha256_tag(seed, message.as_slice()) {
        Some(tag) => Ok(tag),
        None => Err(String::from_str("invalid HMAC key length")),
    }
}


/// The classes as byte sequences.
pub open spec fn class_views(classes: Seq<&[u8]>) -> Seq<Seq<u8>> {
    classes.map_values(|c: &[u8]| c@)
}

/// The character set: the classes concatenated in order.
pub open spec fn charset_of(classes: Seq<Seq<u8>>) -> Seq<u8>
    decreases classes.len(),
{
    if classes.len() == 0 {
        Seq::<u8>::empty()
    } else {
        charset_of(classes.drop_last()) + classes.last()
    }
}

/// Bytes below this bound are accepted: the largest multiple of `n` that is
/// at most 256 (all 256 byte values when `n` divides 256).
pub open spec fn accept_limit(n: nat) -> nat {
    (256int - 256int % (n as int)) as nat
}

/// The character that an accepted byte stands for.
pub open spec fn sample(b: u8, charset: Seq<u8>) -> Seq<u8> {
    if (b as nat) < accept_limit(charset.len()) {
        seq![charset[((b as nat) % charset.len()) as int]]
    } else {
        Seq::<u8>::empty()
    }
}

/// Rejection sampling of a byte stream into characters of `charset`.
pub open spec fn accepted(bytes: Seq<u8>, charset: Seq<u8>) -> Seq<u8>
    decreases bytes.len(),
{
    if bytes.len() == 0 {
        Seq::<u8>::empty()
    } else {
        accepted(bytes.drop_last(), charset) + sample(bytes.last(), charset)
    }
}

/// `s` cut to at most `n` elements.
pub open spec fn truncated(s: Seq<u8>, n: nat) -> Seq<u8> {
    if s.len() <= n {
        s
    } else {
        s.take(n as int)
    }
}

/// The candidate password of one round, built from `acc` onwards starting at
/// block `block_index`; `None` where the block counter would overflow.
pub open spec fn fill_password(
    seed: Seq<u8>,
    length: u32,
    charset: Seq<u8>,
    round: u64,
    block_index: u64,
    acc: Seq<u8>,
) -> Option<Seq<u8>>
    decreases u64::MAX - block_index,
{
    if acc.len() >= length {
        Some(acc)
    } else if block_index == u64::MAX {
        None
    } else {
        fill_password(
            seed,
            length,
            charset,
            round,
            (block_index + 1) as u64,
            truncated(
                acc + accepted(expand_block(seed, length, charset, round, block_index), charset),
                length as nat,
            ),
        )
    }
}

/// The candidate password of round `round`.
pub open spec fn round_password(seed: Seq<u8>, length: u32, charset: Seq<u8>, round: u64) -> Option<
    Seq<u8>,
> {
    fill_password(seed, length, charset, round, 0, Seq::<u8>::empty())
}

/// Some character of `password` belongs to `class`.
pub open spec fn uses_class(password: Seq<u8>, class: Seq<u8>) -> bool {
    exists|i: int| 0 <= i < password.len() && #[trigger] class.contains(password[i])
}

/// Every class has at least one character in `password`.
pub open spec fn covers(password: Seq<u8>, classes: Seq<Seq<u8>>) -> bool {
    forall|k: int| 0 <= k < classes.len() ==> uses_class(password, #[trigger] classes[k])
}

/// The error for a length below the number of classes.
pub open spec fn too_short_message(length: u32, classes: nat) -> Seq<char> {
    "password length "@ + decimal(length as nat) + " is too short for "@ + decimal(classes)
        + " required classes"@
}

/// The error when no round covered every class.
pub open spec fn exhausted_message(classes: nat) -> Seq<char> {
    "could not satisfy all "@ + decimal(classes) + " classes after "@ + decimal(MAX_ROUNDS as nat)
        + " rounds"@
}

/// The error when a round runs out of block indices.
pub open spec fn counter_message() -> Seq<char> {
    "block counter overflow"@
}

/// The outcome of the rounds from `round` on.
pub open spec fn search_rounds(
    seed: Seq<u8>,
    length: u32,
    classes: Seq<Seq<u8>>,
    round: u64,
) -> Result<Seq<u8>, Seq<char>>
    decreases MAX_ROUNDS - round,
{
    if round >= MAX_ROUNDS {
        Err(exhausted_message(classes.len()))
    } else {
        match round_password(seed, length, charset_of(classes), round) {
            None => Err(counter_message()),
            Some(p) => if covers(p, classes) {
                Ok(p)
            } else {
                search_rounds(seed, length, classes, (round + 1) as u64)
            },
        }
    }
}

/// What `encode` gives back: an error for too short a length, else the first
/// round's candidate that covers every class.
pub open spec fn encoded(seed: Seq<u8>, length: u32, classes: Seq<Seq<u8>>) -> Result<
    Seq<u8>,
    Seq<char>,
> {
    if length < (classes.len() as u32) {
        Err(too_short_message(length, classes.len()))
    } else {
        search_rounds(seed, length, classes, 0)
    }
}

fn class_contains(class: &[u8], c: u8) -> (b: bool)
    ensures
        b == class@.contains(c),
{
    let mut i: usize = 0;
    while i < class.len()
        invariant
            0 <= i <= class@.len(),
            forall|k: int| 0 <= k < i ==> class@[k] != c,
        decreases class@.len() - i,
    {
        if class[i] == c {
            assert(class@[i as int] == c);
            return true;
        }
        i = i + 1;
    }
    false
}

fn has_char_of(password: &[u8], class: &[u8]) -> (b: bool)
    ensures
        b == uses_class(password@, class@),
{
    let mut i: usize = 0;
    while i < password.len()
        invariant
            0 <= i <= password@.len(),
            forall|k: int| 0 <= k < i ==> !#[trigger] class@.contains(password@[k]),
        decreases password@.len() - i,
    {
        if class_contains(class, password[i]) {
            return true;
        }
        i = i + 1;
    }
    false
}

/// Whether every class has a character in `password`.
pub fn covers_all(password: &[u8], classes: &[&[u8]]) -> (b: bool)
    ensures
        b == covers(password@, class_views(classes@)),
{
    let ghost cv = class_views(classes@);
    let mut k: usize = 0;
    while k < classes.len()
        invariant
            0 <= k <= classes@.len(),
            cv == class_views(classes@),
            forall|j: int| 0 <= j < k ==> uses_class(password@, #[trigger] cv[j]),
        decreases classes@.len() - k,
    {
        if !has_char_of(password, classes[k]) {
            assert(!covers(password@, cv)) by {
                assert(cv[k as int] == classes@[k as int]@);
            }
            return false;
        }
        assert(cv[k as int] == classes@[k as int]@);
        k = k + 1;
    }
    true
}

fn concat_classes(classes: &[&[u8]]) -> (charset: Vec<u8>)
    ensures
        charset@ == charset_of(class_views(classes@)),
{
    let ghost cv = class_views(classes@);
    let mut charset: Vec<u8> = Vec::new();
    let mut k: usize = 0;
    assert(cv.take(0) =~= Seq::<Seq<u8>>::empty());
    while k < classes.len()
        invariant
            0 <= k <= classes@.len(),
            cv == class_views(classes@),
            charset@ == charset_of(cv.take(k as int)),
        decreases classes@.len() - k,
    {
        append_bytes(&mut charset, classes[k]);
        assert(cv.take(k + 1).drop_last() =~= cv.take(k as int));
        k = k + 1;
    }
    assert(cv.take(k as int) =~= cv);
    charset
}


/// Every class is part of the character set, so the set is at least as long
/// as any class.
pub proof fn lemma_charset_holds_class(classes: Seq<Seq<u8>>, k: int)
    requires
        0 <= k < classes.len(),
    ensures
        charset_of(classes).len() >= classes[k].len(),
    decreases classes.len(),
{
    if k < classes.len() - 1 {
        lemma_charset_holds_class(classes.drop_last(), k);
    }
}

/// Sampling a concatenation samples each part in turn.
pub proof fn lemma_accepted_concat(a: Seq<u8>, b: Seq<u8>, charset: Seq<u8>)
    ensures
        accepted(a + b, charset) == accepted(a, charset) + accepted(b, charset),
    decreases b.len(),
{
    if b.len() == 0 {
        assert(a + b =~= a);
        assert(accepted(a, charset) + accepted(b, charset) =~= accepted(a, charset));
    } else {
        lemma_accepted_concat(a, b.drop_last(), charset);
        assert((a + b).drop_last() =~= a + b.drop_last());
        assert((a + b).last() == b.last());
        assert(accepted(a + b, charset) =~= accepted(a, charset) + accepted(b, charset));
    }
}

proof fn lemma_accepted_step(bytes: Seq<u8>, i: int, charset: Seq<u8>)
    requires
        0 <= i < bytes.len(),
    ensures
        accepted(bytes.take(i + 1), charset) == accepted(bytes.take(i), charset) + sample(
            bytes[i],
            charset,
        ),
{
    assert(bytes.take(i + 1).drop_last() =~= bytes.take(i));
    assert(bytes.take(i + 1).last() == bytes[i]);
}

proof fn lemma_truncated_full(x: Seq<u8>, y: Seq<u8>, n: nat)
    requires
        x.len() >= n,
    ensures
        truncated(x + y, n) == truncated(x, n),
{
    assert((x + y).take(n as int) =~= x.take(n as int));
    if x.len() == n {
        assert(x.take(n as int) =~= x);
    }
}

/// Appends to `password` the characters that rejection sampling draws from
/// `block`, stopping once `password` holds `length` characters.
pub fn draw_from_block(password: &mut Vec<u8>, block: &[u8], charset: &[u8], length: u32)
    requires
        charset@.len() > 0,
        old(password)@.len() < length,
    ensures
        final(password)@ == truncated(
            old(password)@ + accepted(block@, charset@),
            length as nat,
        ),
{
    let charset_len = charset.len();
    assert(256usize % charset_len <= 256) by (nonlinear_arith)
        requires
            charset_len > 0,
    ;
    let max_accept: usize = 256 - (256 % charset_len);
    let ghost acc0 = password@;
    let n = block.len();
    let mut i: usize = 0;
    assert(block@.take(0) =~= Seq::<u8>::empty());
    assert(acc0 + accepted(Seq::<u8>::empty(), charset@) =~= acc0);
    while i < n && password.len() < length as usize
        invariant
            charset_len == charset@.len(),
            charset_len > 0,
            max_accept as nat == accept_limit(charset@.len()),
            n == block@.len(),
            0 <= i <= n,
            acc0.len() < length,
            password@ == truncated(acc0 + accepted(block@.take(i as int), charset@), length as nat),
        decreases n - i,
    {
        let byte = block[i];
        let ghost x = acc0 + accepted(block@.take(i as int), charset@);
        proof {
            lemma_accepted_step(block@, i as int, charset@);
            assert(x.len() <= length);
            assert(acc0 + accepted(block@.take(i + 1), charset@) =~= x + sample(byte, charset@));
        }
        if (byte as usize) < max_accept {
            let index = (byte as usize) % charset_len;
            password.push(charset[index]);
        }
        i = i + 1;
    }
    proof {
        let x = acc0 + accepted(block@.take(i as int), charset@);
        let rest = block@.skip(i as int);
        assert(block@ =~= block@.take(i as int) + rest);
        lemma_accepted_concat(block@.take(i as int), rest, charset@);
        assert(acc0 + accepted(block@, charset@) =~= x + accepted(rest, charset@));
        if i < n {
            lemma_truncated_full(x, accepted(rest, charset@), length as nat);
        } else {
            assert(block@.take(i as int) =~= block@);
        }
    }
}

/// The candidate password of one round: the first `length` characters that
/// rejection sampling draws from the blocks `0, 1, 2, ...` of the round.
fn fill_round(seed: &[u8], length: u32, charset: &Vec<u8>, round: u64) -> (r: Result<
    Vec<u8>,
    String,
>)
    requires
        charset@.len() > 0,
    ensures
        match r {
            Ok(p) => round_password(seed@, length, charset@, round) == Some(p@),
            Err(e) => round_password(seed@, length, charset@, round) is None && e@
                == counter_message(),
        },
{
    let mut password: Vec<u8> = Vec::with_capacity(length as usize);
    let mut block_index: u64 = 0;
    while password.len() < length as usize
        invariant
            charset@.len() > 0,
            password@.len() <= length,
            fill_password(seed@, length, charset@, round, block_index, password@)
                == round_password(seed@, length, charset@, round),
        decreases u64::MAX - block_index,
    {
        let block = expand(seed, length, charset.as_slice(), round, block_index)?;
        block_index = match block_index.checked_add(1) {
            Some(next) => next,
            None => {
                return Err(String::from_str("block counter overflow"));
            },
        };
        draw_from_block(&mut password, block.as_slice(), charset.as_slice(), length);
    }
    Ok(password)
}

fn too_short_error(length: u32, classes: usize) -> (e: String)
    ensures
        e@ == too_short_message(length, classes as nat),
{
    let mut e = String::from_str("password length ");
    let l = decimal_string(length as u64);
    e.append(l.as_str());
    e.append(" is too short for ");
    let c = decimal_string(classes as u64);
    e.append(c.as_str());
    e.append(" required classes");
    e
}

fn exhausted_error(classes: usize) -> (e: String)
    ensures
        e@ == exhausted_message(classes as nat),
{
    let mut e = String::from_str("could not satisfy all ");
    let c = decimal_string(classes as u64);
    e.append(c.as_str());
    e.append(" classes after ");
    let r = decimal_string(MAX_ROUNDS);
    e.append(r.as_str());
    e.append(" rounds");
    e
}

/// Encodes `seed` as a password of `length` characters drawn from the
/// concatenation of `classes`, with at least one character of every class.
///
/// Each round draws characters by rejection sampling from the HMAC-SHA256
/// blocks of `expand`; the first round whose candidate covers every class is
/// returned. A length below the number of classes is an error, and so is a
/// run of `MAX_ROUNDS` rounds in which no candidate covers every class.
pub fn encode(seed: &SecretVec, length: u32, classes: &[&[u8]]) -> (r: Result<SecretVec, String>)
    requires
        length < (classes@.len() as u32) || charset_of(class_views(classes@)).len() > 0,
    ensures
        match r {
            Ok(p) => encoded(seed@, length, class_views(classes@)) == Ok::<Seq<u8>, Seq<char>>(
                p@,
            ),
            Err(e) => encoded(seed@, length, class_views(classes@)) == Err::<Seq<u8>, Seq<char>>(
                e@,
            ),
        },
{
    let ghost cv = class_views(classes@);
    if length < classes.len() as u32 {
        return Err(too_short_error(length, classes.len()));
    }
    let charset = concat_classes(classes);
    let mut round: u64 = 0;
    while round < MAX_ROUNDS
        invariant
            cv == class_views(classes@),
            cv.len() == classes@.len(),
            !(length < (classes@.len() as u32)),
            charset@ == charset_of(cv),
            charset@.len() > 0,
            search_rounds(seed@, length, cv, round) == encoded(seed@, length, cv),
        decreases MAX_ROUNDS - round,
    {
        let password = fill_round(seed.as_bytes(), length, &charset, round)?;
        if covers_all(password.as_slice(), classes) {
            return SecretVec::new(password);
        }
        round = round + 1;
    }
    Err(exhausted_error(classes.len()))
}


/// Every character drawn by rejection sampling belongs to the character set.
pub proof fn lemma_accepted_in_charset(bytes: Seq<u8>, charset: Seq<u8>)
    requires
        charset.len() > 0,
    ensures
        forall|i: int|
            0 <= i < accepted(bytes, charset).len() ==> charset.contains(
                #[trigger] accepted(bytes, charset)[i],
            ),
    decreases bytes.len(),
{
    if bytes.len() > 0 {
        lemma_accepted_in_charset(bytes.drop_last(), charset);
        let prev = accepted(bytes.drop_last(), charset);
        let step = sample(bytes.last(), charset);
        assert forall|i: int|
            0 <= i < accepted(bytes, charset).len() implies charset.contains(
            #[trigger] accepted(bytes, charset)[i],
        ) by {
            if i < prev.len() {
                assert(accepted(bytes, charset)[i] == prev[i]);
            } else {
                let idx = ((bytes.last() as nat) % charset.len()) as int;
                assert(accepted(bytes, charset)[i] == step[i - prev.len()]);
                assert(charset[idx] == step[0]);
            }
        }
    }
}

proof fn lemma_fill_shape(
    seed: Seq<u8>,
    length: u32,
    charset: Seq<u8>,
    round: u64,
    block_index: u64,
    acc: Seq<u8>,
)
    requires
        charset.len() > 0,
        acc.len() <= length,
        forall|i: int| 0 <= i < acc.len() ==> charset.contains(#[trigger] acc[i]),
    ensures
        fill_password(seed, length, charset, round, block_index, acc) matches Some(p) ==> {
            &&& p.len() == length
            &&& forall|i: int| 0 <= i < p.len() ==> charset.contains(#[trigger] p[i])
        },
    decreases u64::MAX - block_index,
{
    if acc.len() < length && block_index != u64::MAX {
        let block = expand_block(seed, length, charset, round, block_index);
        let grown = acc + accepted(block, charset);
        let next = truncated(grown, length as nat);
        lemma_accepted_in_charset(block, charset);
        assert forall|i: int| 0 <= i < next.len() implies charset.contains(#[trigger] next[i]) by {
            assert(next[i] == grown[i]);
            if i >= acc.len() {
                assert(grown[i] == accepted(block, charset)[i - acc.len()]);
            }
        }
        lemma_fill_shape(seed, length, charset, round, (block_index + 1) as u64, next);
    }
}

proof fn lemma_search_shape(seed: Seq<u8>, length: u32, classes: Seq<Seq<u8>>, round: u64)
    requires
        charset_of(classes).len() > 0,
    ensures
        search_rounds(seed, length, classes, round) matches Ok(p) ==> {
            &&& p.len() == length
            &&& covers(p, classes)
            &&& forall|i: int| 0 <= i < p.len() ==> charset_of(classes).contains(#[trigger] p[i])
        },
    decreases MAX_ROUNDS - round,
{
    if round < MAX_ROUNDS {
        lemma_fill_shape(seed, length, charset_of(classes), round, 0, Seq::<u8>::empty());
        lemma_search_shape(seed, length, classes, (round + 1) as u64);
    }
}

/// A password that `encode` produces has exactly the requested length, has at
/// least one character of every class, and has only characters of the
/// classes.
pub proof fn lemma_encoded_password_shape(seed: Seq<u8>, length: u32, classes: Seq<Seq<u8>>)
    requires
        length < (classes.len() as u32) || charset_of(classes).len() > 0,
    ensures
        encoded(seed, length, classes) matches Ok(p) ==> {
            &&& p.len() == length
            &&& covers(p, classes)
            &&& forall|i: int| 0 <= i < p.len() ==> charset_of(classes).contains(#[trigger] p[i])
        },
{
    if !(length < (classes.len() as u32)) {
        lemma_search_shape(seed, length, classes, 0);
    }
}

/// A length below the number of classes is refused, whatever the seed.
pub proof fn lemma_encode_rejects_short_length(seed: Seq<u8>, length: u32, classes: Seq<Seq<u8>>)
    requires
        length < (classes.len() as u32),
    ensures
        encoded(seed, length, classes) == Err::<Seq<u8>, Seq<char>>(
            too_short_message(length, classes.len()),
        ),
{
}

/// Rejection sampling has no modulo bias: the accepted bytes `0 .. limit`
/// split into `limit / n` runs of `n`, so every index of the character set is
/// the image of exactly `limit / n` accepted bytes, namely `q * n + i` for
/// `q < limit / n`.
pub proof fn lemma_rejection_sampling_unbiased(n: nat, b: nat, q: nat, i: nat)
    requires
        0 < n <= 256,
    ensures
        accept_limit(n) == 256int - 256int % (n as int),
        accept_limit(n) % n == 0,
        accept_limit(n) + n > 256,
        b < accept_limit(n) ==> b / n < accept_limit(n) / n && b == (b / n) * n + b % n,
        q < accept_limit(n) / n && i < n ==> q * n + i < accept_limit(n) && (q * n + i) % n == i
            && (q * n + i) / n == q,
{
    let limit = accept_limit(n);
    assert(0 <= 256int % (n as int) < n);
    assert(limit == 256int - 256int % (n as int));
    assert(256int == (256int / (n as int)) * n + 256int % (n as int)) by (nonlinear_arith)
        requires
            n > 0,
    ;
    assert(limit == (256int / (n as int)) * n);
    assert(limit % n == 0) by (nonlinear_arith)
        requires
            limit == (256int / (n as int)) * n,
            n > 0,
    ;
    assert(limit / n == 256int / (n as int)) by (nonlinear_arith)
        requires
            limit == (256int / (n as int)) * n,
            n > 0,
    ;
    if b < limit {
        assert(b / n < limit / n && b == (b / n) * n + b % n) by (nonlinear_arith)
            requires
                b < limit,
                limit % n == 0,
                n > 0,
        ;
    }
    if q < limit / n && i < n {
        assert(q * n + i < limit && (q * n + i) % n == i && (q * n + i) / n == q) by (
        nonlinear_arith)
            requires
                q < limit / n,
                i < n,
                limit % n == 0,
                n > 0,
        ;
    }
}


/// When the set size divides 256, no byte is rejected: every byte of the
/// stream yields a character.
pub proof fn lemma_dividing_set_accepts_every_byte(bytes: Seq<u8>, charset: Seq<u8>)
    requires
        0 < charset.len() <= 256,
        256nat % charset.len() == 0,
    ensures
        accepted(bytes, charset).len() == bytes.len(),
    decreases bytes.len(),
{
    if bytes.len() > 0 {
        lemma_dividing_set_accepts_every_byte(bytes.drop_last(), charset);
        assert(accept_limit(charset.len()) == 256);
    }
}


/// The sampling rule, for every character set of 1 to 256 characters: no
/// byte gives nothing, and a byte `b` appended to the stream yields a
/// character exactly when `b < 256 - 256 % n`, namely the character at index
/// `b % n`; otherwise it yields nothing.
pub proof fn lemma_sampling_rule(bytes: Seq<u8>, b: u8, charset: Seq<u8>)
    requires
        0 < charset.len() <= 256,
    ensures
        accepted(Seq::<u8>::empty(), charset) == Seq::<u8>::empty(),
        (b as int) < 256int - 256int % (charset.len() as int) ==> accepted(bytes.push(b), charset)
            == accepted(bytes, charset).push(charset[(b as int) % (charset.len() as int)]),
        (b as int) >= 256int - 256int % (charset.len() as int) ==> accepted(bytes.push(b), charset)
            == accepted(bytes, charset),
{
    assert(bytes.push(b).drop_last() =~= bytes);
    assert(bytes.push(b).last() == b);
    let prev = accepted(bytes, charset);
    if (b as int) < 256int - 256int % (charset.len() as int) {
        assert(prev + seq![charset[(b as int) % (charset.len() as int)]] =~= prev.push(
            charset[(b as int) % (charset.len() as int)],
        ));
    } else {
        assert(prev + Seq::<u8>::empty() =~= prev);
    }
}

} // verus!
