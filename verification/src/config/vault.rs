//! The vault's master key as the system keychain stores it (hex text), and
//! the random padding that hides the size of the stored hosts.

use vstd::prelude::*;
use rand::RngCore;

verus! {

/// The value of a hexadecimal digit of either case, or -1 for any other
/// character.
pub open spec fn hex_digit_value(c: char) -> int {
    let n = c as int;
    if 48 <= n <= 57 {
        n - 48
    } else if 97 <= n <= 102 {
        n - 87
    } else if 65 <= n <= 70 {
        n - 55
    } else {
        -1
    }
}

/// Text that decodes as hex: an even number of hex digits.
pub open spec fn is_hex_text(s: Seq<char>) -> bool {
    &&& s.len() % 2 == 0
    &&& forall|i: int| 0 <= i < s.len() ==> hex_digit_value(#[trigger] s[i]) >= 0
}

/// The bytes that hex text stands for, two digits per byte, high digit first.
pub open spec fn hex_bytes(s: Seq<char>) -> Seq<u8> {
    Seq::new(s.len() / 2, |i: int| (16 * hex_digit_value(s[2 * i]) + hex_digit_value(s[2 * i + 1])) as u8)
}

/// The lower-case hex digit for a value below 16.
pub open spec fn lower_hex_digit(n: int) -> char {
    if n < 10 {
        (48 + n) as char
    } else {
        (87 + n) as char
    }
}

/// The lower-case hex text of some bytes, two digits per byte, high digit
/// first.
pub open spec fn hex_text(b: Seq<u8>) -> Seq<char> {
    Seq::new(2 * b.len(), |i: int|
        if i % 2 == 0 { lower_hex_digit(b[i / 2] as int / 16) } else { lower_hex_digit(b[i / 2] as int % 16) })
}

/// Hex text decodes back to the bytes it was made from.
pub proof fn lemma_hex_round_trip(b: Seq<u8>)
    ensures
        is_hex_text(hex_text(b)),
        hex_bytes(hex_text(b)) == b,
{
    let t = hex_text(b);
    assert forall|i: int| 0 <= i < t.len() implies hex_digit_value(#[trigger] t[i]) >= 0 by {
        let k = i / 2;
        assert(0 <= k < b.len());
    }
    assert forall|k: int| 0 <= k < b.len() implies #[trigger] hex_bytes(t)[k] == b[k] by {
        assert(t[2 * k] == lower_hex_digit(b[k] as int / 16));
        assert(t[2 * k + 1] == lower_hex_digit(b[k] as int % 16));
        assert(hex_digit_value(t[2 * k]) == b[k] / 16);
        assert(hex_digit_value(t[2 * k + 1]) == b[k] % 16);
    }
    assert(hex_bytes(t) =~= b);
}

/// Calls `hex::decode`: an even number of hex digits of either case gives
/// the bytes they stand for, two digits per byte; anything else (an odd
/// length, or any other byte of the text) is refused.
#[verifier::external_body]
fn hex_decode(s: &str) -> (r: Option<Vec<u8>>)
    ensures
        r is Some <==> is_hex_text(s@),
        r matches Some(v) ==> v@ == hex_bytes(s@),
{
    hex::decode(s).ok()
}

/// Calls `hex::encode`: two lower-case hex digits per byte, high digit first.
#[verifier::external_body]
fn hex_encode(b: &[u8]) -> (r: String)
    ensures
        r@ == hex_text(b@),
{
    hex::encode(b)
}

/// Fills 32 bytes from `rand::rngs::OsRng` (`RngCore::fill_bytes`).  The
/// bytes are random: nothing is stated of them.  The call panics only where
/// the operating system gives no random bytes at all.
#[verifier::external_body]
fn random_key() -> (k: [u8; 32]) {
    let mut k = [0u8; 32];
    rand::rngs::OsRng.fill_bytes(&mut k);
    k
}

/// Fills `n` bytes from `rand::rngs::OsRng` (`RngCore::fill_bytes`): `n`
/// random bytes.
#[verifier::external_body]
fn random_bytes(n: usize) -> (v: Vec<u8>)
    ensures
        v@.len() == n,
{
    let mut v = vec![0u8; n];
    rand::rngs::OsRng.fill_bytes(&mut v);
    v
}

/// Calls `RngCore::next_u32` on `rand::rngs::OsRng`: a random number.
#[verifier::external_body]
fn random_u32() -> (r: u32) {
    rand::rngs::OsRng.next_u32()
}

/// The master key stored in the keychain as hex text: its first 32 bytes.
/// Text that is not hex, or that holds fewer than 32 bytes, is a corrupt
/// key.
pub fn master_key_from_hex(stored: &str) -> (r: Result<[u8; 32], String>)
    ensures
        r is Ok <==> is_hex_text(stored@) && stored@.len() >= 64,
        r matches Ok(k) ==> k@ == hex_bytes(stored@).take(32),
        !is_hex_text(stored@) ==> (r matches Err(e) && e@ == "Chave corrompida no cofre do sistema"@),
        is_hex_text(stored@) && stored@.len() < 64
            ==> (r matches Err(e) && e@ == "Chave mestra com menos de 32 bytes no cofre do sistema"@),
{
    match hex_decode(stored) {
        None => Err("Chave corrompida no cofre do sistema".to_owned()),
        Some(bytes) => {
            if bytes.len() < 32 {
                return Err("Chave mestra com menos de 32 bytes no cofre do sistema".to_owned());
            }
            let mut key = [0u8; 32];
            let mut i: usize = 0;
            while i < 32
                invariant
                    i <= 32,
                    32 <= bytes@.len(),
                    forall|j: int| 0 <= j < i ==> key@[j] == bytes@[j],
                decreases 32 - i,
            {
                key[i] = bytes[i];
                i = i + 1;
            }
            assert(key@ =~= bytes@.take(32));
            Ok(key)
        },
    }
}

/// A new random master key, with the hex text under which the keychain
/// keeps it.  That text gives the key back (`master_key_from_hex`).
pub fn generate_master_key() -> (r: ([u8; 32], String))
    ensures
        r.1@ == hex_text(r.0@),
        is_hex_text(r.1@),
        r.1@.len() == 64,
        hex_bytes(r.1@).take(32) == r.0@,
{
    let key = random_key();
    let text = hex_encode(&key);
    proof {
        lemma_hex_round_trip(key@);
        assert(hex_bytes(text@).take(32) =~= key@);
    }
    (key, text)
}

/// How many bytes of padding go with a save, from a random number: between
/// 512 and 4095.
pub fn noise_length(r: u32) -> (n: u32)
    ensures
        n == r % 3584 + 512,
        512 <= n < 4096,
{
    r % 3584 + 512
}

/// Random padding for a save, as hex text: between 512 and 4095 random
/// bytes.
pub fn make_noise() -> (s: String)
    ensures
        is_hex_text(s@),
        1024 <= s@.len() < 8192,
{
    let n = noise_length(random_u32());
    let bytes = random_bytes(n as usize);
    let s = hex_encode(bytes.as_slice());
    proof {
        lemma_hex_round_trip(bytes@);
    }
    s
}

} // verus!
