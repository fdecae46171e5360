//! Passwords held in memory only inside a padded private buffer.

use vstd::prelude::*;
use vstd::utf8::{decode_utf8, encode_utf8, valid_utf8};

verus! {

/// Calls `String::from_utf8`: `Some` exactly when `bytes` are valid UTF-8,
/// holding the text they encode.
#[verifier::external_body]
fn string_from_utf8(bytes: Vec<u8>) -> (r: Option<String>)
    ensures
        r is Some <==> valid_utf8(bytes@),
        r matches Some(s) ==> s@ == decode_utf8(bytes@),
{
    String::from_utf8(bytes).ok()
}

/// Calls `zeroize::Zeroize::zeroize` on a byte vector: its bytes are
/// overwritten with zeros and it is left empty.
#[verifier::external_body]
fn zeroize_bytes(v: &mut Vec<u8>)
    ensures
        final(v)@.len() == 0,
{
    zeroize::Zeroize::zeroize(v);
}

/// The buffer size for a secret of `len` bytes: the smallest multiple of 16
/// that holds it, and at least 16.
pub open spec fn padded_len(len: nat) -> nat {
    if len == 0 { 16 } else if len % 16 == 0 { len } else { len + (16 - len % 16) as nat }
}

/// Secret text kept in a buffer padded to a multiple of 16 bytes (the block
/// size that the Windows memory-protection API works on).
pub struct ProtectedMemory {
    padded_buffer: Vec<u8>,
    original_len: usize,
}

impl ProtectedMemory {
    #[verifier::type_invariant]
    spec fn well_formed(self) -> bool {
        &&& self.original_len <= self.padded_buffer@.len()
        &&& self.padded_buffer@.len() == padded_len(self.original_len as nat)
    }

    /// The secret's bytes.
    pub closed spec fn secret(self) -> Seq<u8> {
        self.padded_buffer@.take(self.original_len as int)
    }

    /// The size of the padded buffer.
    pub closed spec fn buffer_len(self) -> nat {
        self.padded_buffer@.len()
    }

    /// The text that `unprotect` gives back, if the secret is valid UTF-8.
    pub open spec fn text(self) -> Option<Seq<char>> {
        if valid_utf8(self.secret()) { Some(decode_utf8(self.secret())) } else { None }
    }

    /// Stores `plaintext` in a buffer padded with zeros to `padded_len`.
    pub fn new(plaintext: &str) -> (r: Result<ProtectedMemory, String>)
        requires
            encode_utf8(plaintext@).len() + 16 <= usize::MAX,
        ensures
            r matches Ok(m) && m.secret() == encode_utf8(plaintext@)
                && m.buffer_len() == padded_len(encode_utf8(plaintext@).len())
                && m.text() == Some(plaintext@),
    {
        let bytes = plaintext.as_bytes();
        let original_len = bytes.len();
        proof {
            assert(bytes@ == encode_utf8(plaintext@));
            vstd::utf8::encode_utf8_valid_utf8(plaintext@);
            vstd::utf8::encode_utf8_decode_utf8(plaintext@);
        }
        let rem = original_len % 16;
        let padded: usize = if original_len == 0 {
            16
        } else if rem == 0 {
            original_len
        } else {
            original_len + (16 - rem)
        };
        let mut buffer: Vec<u8> = Vec::new();
        let mut i: usize = 0;
        while i < padded
            invariant
                i <= padded,
                original_len == bytes@.len(),
                original_len <= padded,
                buffer@.len() == i,
                forall|j: int| 0 <= j < i && j < original_len ==> buffer@[j] == bytes@[j],
            decreases padded - i,
        {
            if i < original_len {
                buffer.push(bytes[i]);
            } else {
                buffer.push(0u8);
            }
            i = i + 1;
        }
        let m = ProtectedMemory { padded_buffer: buffer, original_len };
        assert(m.secret() =~= bytes@);
        Ok(m)
    }

    /// The secret text: empty for an empty secret, an error when the bytes
    /// are not UTF-8.  The copy of the buffer used to decode is wiped before
    /// returning.
    pub fn unprotect(&self) -> (r: Result<String, String>)
        ensures
            match r {
                Ok(s) => self.text() == Some(s@),
                Err(e) => self.text() is None && e@ == "Falha ao decodificar UTF-8 no buffer protegido"@,
            },
    {
        proof { use_type_invariant(self); }
        if self.original_len == 0 {
            proof {
                assert(self.secret() =~= Seq::<u8>::empty());
                vstd::utf8::encode_utf8_valid_utf8(Seq::<char>::empty());
                assert(encode_utf8(Seq::<char>::empty()) =~= Seq::<u8>::empty());
                vstd::utf8::encode_utf8_decode_utf8(Seq::<char>::empty());
            }
            return Ok(String::new());
        }
        let mut temp_buffer = self.padded_buffer.clone();
        let mut plain: Vec<u8> = Vec::new();
        let mut i: usize = 0;
        while i < self.original_len
            invariant
                i <= self.original_len <= temp_buffer@.len(),
                temp_buffer@ == self.padded_buffer@,
                plain@ == temp_buffer@.take(i as int),
            decreases self.original_len - i,
        {
            plain.push(temp_buffer[i]);
            i = i + 1;
            assert(plain@ =~= temp_buffer@.take(i as int));
        }
        let decoded = string_from_utf8(plain);
        zeroize_bytes(&mut temp_buffer);
        match decoded {
            Some(text) => Ok(text),
            None => Err("Falha ao decodificar UTF-8 no buffer protegido".to_owned()),
        }
    }
}

impl Clone for ProtectedMemory {
    /// A copy holding the same buffer.
    fn clone(&self) -> (r: ProtectedMemory)
        ensures
            r.secret() == self.secret(),
            r.buffer_len() == self.buffer_len(),
    {
        proof { use_type_invariant(self); }
        ProtectedMemory { padded_buffer: self.padded_buffer.clone(), original_len: self.original_len }
    }
}

} // verus!
