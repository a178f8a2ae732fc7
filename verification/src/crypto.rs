//! Key derivation: the Argon2id salt built from site and username, and the
//! 64-byte key that Argon2id derives from the master password.
use vstd::prelude::*;
use vstd::utf8::*;

use crate::sensitive::SecretVec;
use crate::text::{decimal, decimal_string, digit_char};

verus! {

/// Domain separator of the key derivation.
pub const KDF_DOMAIN: &'static str = "keyforge-argon2-v1";

/// Argon2 memory cost in KiB (64 MiB).
pub const KDF_M_COST: u32 = 65536;

/// Argon2 number of passes.
pub const KDF_T_COST: u32 = 3;

/// Argon2 degree of parallelism.
pub const KDF_P_COST: u32 = 4;

/// Length in bytes of the derived key.
pub const KEY_LEN: usize = 64;

/// The salt as text: `domain|<bytes of site>|site|<bytes of username>|username`,
/// where the lengths count UTF-8 bytes.
pub open spec fn salt_text(site: Seq<char>, username: Seq<char>) -> Seq<char> {
    KDF_DOMAIN@ + "|"@ + decimal(encode_utf8(site).len()) + "|"@ + site + "|"@ + decimal(
        encode_utf8(username).len(),
    ) + "|"@ + username
}

/// The salt bytes: the UTF-8 encoding of `salt_text`.
pub open spec fn salt_bytes(site: Seq<char>, username: Seq<char>) -> Seq<u8> {
    encode_utf8(salt_text(site, username))
}

/// Builds the Argon2 salt for `site` and `username`.
pub fn build_salt(site: &str, username: &str) -> (salt: Vec<u8>)
    ensures
        salt@ == salt_bytes(site@, username@),
{
    let site_bytes = site.as_bytes();
    let user_bytes = username.as_bytes();
    assert(encode_utf8(site@).len() == site_bytes@.len());
    assert(encode_utf8(username@).len() == user_bytes@.len());
    let mut text = String::from_str(KDF_DOMAIN);
    text.append("|");
    let site_len = decimal_string(site_bytes.len() as u64);
    text.append(site_len.as_str());
    text.append("|");
    text.append(site);
    text.append("|");
    let user_len = decimal_string(user_bytes.len() as u64);
    text.append(user_len.as_str());
    text.append("|");
    text.append(username);
    assert(text@ =~= salt_text(site@, username@));
    text.as_str().as_bytes_vec()
}

/// The Argon2 output (RFC 9106) for the given costs, output length, password
/// and salt, with variant Argon2id, version 0x13, no secret and no associated
/// data; a function of its arguments.
pub uninterp spec fn argon2id_v13(
    m_cost: u32,
    t_cost: u32,
    p_cost: u32,
    output_len: nat,
    password: Seq<u8>,
    salt: Seq<u8>,
) -> Seq<u8>;

/// The cost parameters that `argon2::Params::new` accepts.
pub open spec fn argon2_params_valid(m_cost: u32, t_cost: u32, p_cost: u32, output_len: nat) -> bool {
    &&& m_cost >= 8
    &&& m_cost >= 8 * p_cost
    &&& t_cost >= 1
    &&& 1 <= p_cost <= 0xFF_FFFF
    &&& 4 <= output_len <= 0xFFFF_FFFF
}

/// The password and salt lengths that `Argon2::hash_password_into` accepts.
pub open spec fn argon2_inputs_valid(password_len: nat, salt_len: nat) -> bool {
    &&& password_len <= 0xFFFF_FFFF
    &&& 8 <= salt_len <= 0xFFFF_FFFF
}

/// Argon2id (version 0x13) of `password` and `salt`: calls `argon2::Params::new`
/// with the costs and `Some(output_len)`, then `Argon2::new` and
/// `hash_password_into` into a zeroed buffer of `output_len` bytes; errors are
/// rendered with `to_string`.
/// Trusted: per the crate's source, `Params::new` fails exactly outside
/// `argon2_params_valid` and `hash_password_into` exactly outside
/// `argon2_inputs_valid` (the buffer has the configured output length);
/// on success the buffer, of `output_len` bytes, holds `argon2id_v13` of the arguments. The text of an
/// error is not stated. The hash allocates `m_cost` KiB; a failed allocation
/// aborts the process.
#[verifier::external_body]
fn argon2id_v13_hash(
    m_cost: u32,
    t_cost: u32,
    p_cost: u32,
    output_len: usize,
    password: &[u8],
    salt: &[u8],
) -> (r: Result<Vec<u8>, String>)
    requires
        p_cost <= 0x1FFF_FFFF,
    ensures
        r is Ok <==> (argon2_params_valid(m_cost, t_cost, p_cost, output_len as nat) && argon2_inputs_valid(password@.len(), salt@.len())),
        r is Ok ==> r->Ok_0@ == argon2id_v13(m_cost, t_cost, p_cost, output_len as nat, password@, salt@),
        r is Ok ==> r->Ok_0@.len() == output_len,
{
    let params = argon2::Params::new(m_cost, t_cost, p_cost, Some(output_len)).map_err(
        |e| e.to_string(),
    )?;
    let mut output = vec![0u8; output_len];
    argon2::Argon2::new(argon2::Algorithm::Argon2id, argon2::Version::V0x13, params)
        .hash_password_into(password, salt, &mut output)
        .map_err(|e| e.to_string())?;
    Ok(output)
}

/// The key that the master password and salt derive.
pub open spec fn derived_key(password: Seq<u8>, salt: Seq<u8>) -> Seq<u8> {
    argon2id_v13(KDF_M_COST, KDF_T_COST, KDF_P_COST, KEY_LEN as nat, password, salt)
}

/// Derives the 64-byte key from the master password and the salt with
/// Argon2id (m = 64 MiB, t = 3, p = 4). Fails exactly when the salt is shorter
/// than 8 bytes or either input is longer than `u32::MAX` bytes.
pub fn generate_key(password: &SecretVec, salt: &[u8]) -> (r: Result<SecretVec, String>)
    ensures
        r is Ok <==> argon2_inputs_valid(password@.len(), salt@.len()),
        r is Ok ==> r->Ok_0@ == derived_key(password@, salt@),
        r is Ok ==> r->Ok_0@.len() == KEY_LEN,
{
    let output = argon2id_v13_hash(
        KDF_M_COST,
        KDF_T_COST,
        KDF_P_COST,
        KEY_LEN,
        password.as_bytes(),
        salt,
    )?;
    SecretVec::new(output)
}


/// UTF-8 encoding distributes over concatenation.
pub proof fn lemma_encode_utf8_concat(a: Seq<char>, b: Seq<char>)
    ensures
        encode_utf8(a + b) == encode_utf8(a) + encode_utf8(b),
    decreases a.len(),
{
    if a.len() == 0 {
        assert(a + b =~= b);
        assert(encode_utf8(a) + encode_utf8(b) =~= encode_utf8(b));
    } else {
        assert((a + b).drop_first() =~= a.drop_first() + b);
        assert((a + b)[0] == a[0]);
        lemma_encode_utf8_concat(a.drop_first(), b);
        assert(encode_utf8(a + b) =~= encode_utf8(a) + encode_utf8(b));
    }
}

proof fn lemma_decimal_shape(n: nat)
    ensures
        decimal(n).len() >= 1,
        n >= 10 ==> decimal(n).len() >= 2,
        forall|i: int| 0 <= i < decimal(n).len() ==> '0' <= #[trigger] decimal(n)[i] <= '9',
    decreases n,
{
    if n >= 10 {
        lemma_decimal_shape(n / 10);
        let d = decimal(n / 10);
        assert forall|i: int| 0 <= i < decimal(n).len() implies '0' <= #[trigger] decimal(n)[i]
            <= '9' by {
            if i < d.len() {
                assert(decimal(n)[i] == d[i]);
            }
        }
    }
}

proof fn lemma_digit_injective(a: nat, b: nat)
    requires
        a < 10,
        b < 10,
        digit_char(a) == digit_char(b),
    ensures
        a == b,
{
}

proof fn lemma_decimal_injective(a: nat, b: nat)
    requires
        decimal(a) == decimal(b),
    ensures
        a == b,
    decreases a,
{
    lemma_decimal_shape(a);
    lemma_decimal_shape(b);
    if a < 10 && b < 10 {
        assert(decimal(a)[0] == digit_char(a));
        assert(decimal(b)[0] == digit_char(b));
        lemma_digit_injective(a, b);
    } else if a >= 10 && b >= 10 {
        let da = decimal(a / 10);
        let db = decimal(b / 10);
        assert(decimal(a).last() == digit_char(a % 10));
        assert(decimal(b).last() == digit_char(b % 10));
        assert(decimal(a).drop_last() =~= da);
        assert(decimal(b).drop_last() =~= db);
        lemma_digit_injective(a % 10, b % 10);
        lemma_decimal_injective(a / 10, b / 10);
        assert(a == (a / 10) * 10 + a % 10);
        assert(b == (b / 10) * 10 + b % 10);
    }
}

/// The bytes of a decimal numeral: ASCII digits, none of them `b'|'`.
proof fn lemma_decimal_bytes(n: nat)
    ensures
        forall|i: int|
            0 <= i < encode_utf8(decimal(n)).len() ==> #[trigger] encode_utf8(decimal(n))[i]
                != 124u8,
{
    lemma_decimal_shape(n);
    let d = decimal(n);
    assert(is_ascii_chars(d));
    is_ascii_chars_encode_utf8(d);
    assert forall|i: int| 0 <= i < encode_utf8(d).len() implies #[trigger] encode_utf8(d)[i]
        != 124u8 by {
        assert('0' <= d[i] <= '9');
        assert(d[i] as u8 == encode_utf8(d)[i]);
    }
}

proof fn lemma_split_prefix(x1: Seq<u8>, r1: Seq<u8>, x2: Seq<u8>, r2: Seq<u8>)
    requires
        x1.len() == x2.len(),
        x1 + r1 == x2 + r2,
    ensures
        x1 == x2,
        r1 == r2,
{
    assert(x1 =~= (x1 + r1).take(x1.len() as int));
    assert(x2 =~= (x2 + r2).take(x2.len() as int));
    assert(r1 =~= (x1 + r1).skip(x1.len() as int));
    assert(r2 =~= (x2 + r2).skip(x2.len() as int));
}

proof fn lemma_split_at_bar(x1: Seq<u8>, r1: Seq<u8>, x2: Seq<u8>, r2: Seq<u8>)
    requires
        forall|i: int| 0 <= i < x1.len() ==> #[trigger] x1[i] != 124u8,
        forall|i: int| 0 <= i < x2.len() ==> #[trigger] x2[i] != 124u8,
        x1 + (seq![124u8] + r1) == x2 + (seq![124u8] + r2),
    ensures
        x1 == x2,
        r1 == r2,
{
    let whole = x1 + (seq![124u8] + r1);
    if x1.len() < x2.len() {
        assert(whole[x1.len() as int] == 124u8);
        assert(whole[x1.len() as int] == x2[x1.len() as int]);
    } else if x2.len() < x1.len() {
        assert(whole[x2.len() as int] == x1[x2.len() as int]);
        assert((x2 + (seq![124u8] + r2))[x2.len() as int] == 124u8);
    } else {
        lemma_split_prefix(x1, seq![124u8] + r1, x2, seq![124u8] + r2);
        assert(r1 =~= (seq![124u8] + r1).drop_first());
        assert(r2 =~= (seq![124u8] + r2).drop_first());
    }
}

/// The salt bytes laid out field by field.
proof fn lemma_salt_layout(site: Seq<char>, username: Seq<char>)
    ensures
        salt_bytes(site, username) == encode_utf8(KDF_DOMAIN@) + (seq![124u8] + (encode_utf8(
            decimal(encode_utf8(site).len()),
        ) + (seq![124u8] + (encode_utf8(site) + (seq![124u8] + (encode_utf8(
            decimal(encode_utf8(username).len()),
        ) + (seq![124u8] + encode_utf8(username)))))))),
{
    reveal_strlit("|");
    let bar = "|"@;
    assert(bar =~= seq!['|']);
    assert(is_ascii_chars(bar));
    is_ascii_chars_encode_utf8(bar);
    assert(encode_utf8(bar) =~= seq![124u8]);
    let d1 = decimal(encode_utf8(site).len());
    let d2 = decimal(encode_utf8(username).len());
    let t7 = bar + username;
    let t6 = d2 + t7;
    let t5 = bar + t6;
    let t4 = site + t5;
    let t3 = bar + t4;
    let t2 = d1 + t3;
    let t1 = bar + t2;
    assert(salt_text(site, username) =~= KDF_DOMAIN@ + t1);
    lemma_encode_utf8_concat(bar, username);
    lemma_encode_utf8_concat(d2, t7);
    lemma_encode_utf8_concat(bar, t6);
    lemma_encode_utf8_concat(site, t5);
    lemma_encode_utf8_concat(bar, t4);
    lemma_encode_utf8_concat(d1, t3);
    lemma_encode_utf8_concat(bar, t2);
    lemma_encode_utf8_concat(KDF_DOMAIN@, t1);
}

/// Distinct (site, username) pairs give distinct salts: the byte lengths in
/// the salt make the encoding unambiguous even where site or username hold
/// `|` or digits.
pub proof fn lemma_salt_injective(site1: Seq<char>, user1: Seq<char>, site2: Seq<char>, user2: Seq<char>)
    requires
        salt_bytes(site1, user1) == salt_bytes(site2, user2),
    ensures
        site1 == site2,
        user1 == user2,
{
    broadcast use encode_utf8_decode_utf8;

    let bar = seq![124u8];
    let e_s1 = encode_utf8(site1);
    let e_s2 = encode_utf8(site2);
    let e_u1 = encode_utf8(user1);
    let e_u2 = encode_utf8(user2);
    let n1 = encode_utf8(decimal(e_s1.len()));
    let n2 = encode_utf8(decimal(e_s2.len()));
    let m1 = encode_utf8(decimal(e_u1.len()));
    let m2 = encode_utf8(decimal(e_u2.len()));
    lemma_salt_layout(site1, user1);
    lemma_salt_layout(site2, user2);
    let rest1 = bar + (n1 + (bar + (e_s1 + (bar + (m1 + (bar + e_u1))))));
    let rest2 = bar + (n2 + (bar + (e_s2 + (bar + (m2 + (bar + e_u2))))));
    lemma_split_prefix(encode_utf8(KDF_DOMAIN@), rest1, encode_utf8(KDF_DOMAIN@), rest2);
    assert(n1 + (bar + (e_s1 + (bar + (m1 + (bar + e_u1))))) =~= rest1.drop_first());
    assert(n2 + (bar + (e_s2 + (bar + (m2 + (bar + e_u2))))) =~= rest2.drop_first());
    lemma_decimal_bytes(e_s1.len());
    lemma_decimal_bytes(e_s2.len());
    lemma_split_at_bar(
        n1,
        e_s1 + (bar + (m1 + (bar + e_u1))),
        n2,
        e_s2 + (bar + (m2 + (bar + e_u2))),
    );
    assert(decode_utf8(n1) == decimal(e_s1.len()));
    assert(decode_utf8(n2) == decimal(e_s2.len()));
    lemma_decimal_injective(e_s1.len(), e_s2.len());
    lemma_split_prefix(e_s1, bar + (m1 + (bar + e_u1)), e_s2, bar + (m2 + (bar + e_u2)));
    assert(decode_utf8(e_s1) == site1);
    assert(decode_utf8(e_s2) == site2);
    assert(m1 + (bar + e_u1) =~= (bar + (m1 + (bar + e_u1))).drop_first());
    assert(m2 + (bar + e_u2) =~= (bar + (m2 + (bar + e_u2))).drop_first());
    lemma_decimal_bytes(e_u1.len());
    lemma_decimal_bytes(e_u2.len());
    lemma_split_at_bar(m1, e_u1, m2, e_u2);
    assert(decode_utf8(e_u1) == user1);
    assert(decode_utf8(e_u2) == user2);
}

} // verus!
