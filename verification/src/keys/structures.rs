//! The public and private key types.
use crate::coeffs::CoeffVector;
use crate::keys::armor::{
    armor_is_ordered, armored, find_chars, lemma_armor_body, public_key_from_armor, remove_breaks,
    trim_chars, KEY_FOOTER, KEY_HEADER,
};
use crate::keys::encoding::{
    lemma_coeffs_le_layout, lemma_public_key_bytes_roundtrip, public_key_bytes, public_key_from_bytes, public_key_to_bytes,
};
use crate::text::{base64_decode, base64_encode, base64_standard_encode, text_chars};
use vstd::prelude::*;

verus! {

/// A public key: the 32-byte seed from which the public matrix `A` is
/// expanded, and the vector `b = A s + e (mod q)`.
#[derive(Clone)]
pub struct PublicKey {
    pub public_seed: [u8; 32],
    pub b: Vec<i64>,
}

/// A private key: the secret binary vector `s`.
pub struct PrivateKey {
    pub sec_s: CoeffVector,
}

impl PublicKey {
    /// The key as values: `(public_seed, b)`.
    pub open spec fn model(&self) -> (Seq<u8>, Seq<i64>) {
        (self.public_seed@, self.b@)
    }

    /// The armored text of the key, for sharing: its binary form in base64
    /// between the header and footer lines. Reading the text back gives the
    /// key. Its length is that of the two lines around the base64 text of
    /// `40 + 8 * len` bytes: 11042 characters for `n` coefficients.
    pub fn to_text(&self) -> (text: String)
        requires
            40 + 8 * self.b@.len() <= usize::MAX / 2,
        ensures
            text@ == armored(base64_standard_encode(public_key_bytes(self.public_seed@, self.b@))),
            armor_is_ordered(text@),
            text@.len() == 66 + 4 * ((42 + 8 * self.b@.len()) / 3),
            public_key_from_armor(text@) == Ok::<(Seq<u8>, Seq<i64>), Seq<char>>(self.model()),
    {
        let encoded = public_key_to_bytes(&self.public_seed, &self.b);
        proof {
            lemma_coeffs_le_layout(self.b@);
        }
        let base64_data = base64_encode(encoded.as_slice());
        let mut text = String::from_str(KEY_HEADER);
        text.append("\n");
        text.append(base64_data.as_str());
        text.append("\n");
        text.append(KEY_FOOTER);
        proof {
            reveal_strlit("\n");
            reveal_strlit("-----BEGIN DIEGOX PUBLIC KEY-----");
            reveal_strlit("-----END DIEGOX PUBLIC KEY-----");
            assert(encoded@.len() == 40 + 8 * self.b@.len());
            assert(text@ =~= armored(base64_data@));
            lemma_armor_body(base64_data@);
            lemma_public_key_bytes_roundtrip(self.public_seed@, self.b@);
        }
        text
    }

    /// Reads a public key from its armored text: the text between the first
    /// header and the first footer, trimmed and without line breaks or
    /// spaces, is decoded from base64 and read as a key's binary form.
    pub fn from_text(text: &str) -> (key: Result<PublicKey, String>)
        requires
            armor_is_ordered(text@),
        ensures
            match key {
                Ok(pk) => public_key_from_armor(text@) == Ok::<(Seq<u8>, Seq<i64>), Seq<char>>(pk.model()),
                Err(msg) => public_key_from_armor(text@) == Err::<(Seq<u8>, Seq<i64>), Seq<char>>(msg@),
            },
    {
        let chars = text_chars(text);
        let header = text_chars(KEY_HEADER);
        let footer = text_chars(KEY_FOOTER);
        let start = find_chars(&chars, &header);
        let end = find_chars(&chars, &footer);
        if start.is_none() || end.is_none() {
            return Err(String::from_str("Invalid armored format: missing headers"));
        }
        let start = start.unwrap() + header.len();
        let end = end.unwrap();
        let mut middle: Vec<char> = Vec::new();
        let mut k = start;
        while k < end
            invariant
                start <= k <= end,
                end <= chars@.len(),
                middle@ == chars@.subrange(start as int, k as int),
            decreases end - k,
        {
            middle.push(chars[k]);
            k = k + 1;
            assert(middle@ =~= chars@.subrange(start as int, k as int));
        }
        let clean = remove_breaks(&trim_chars(&middle));
        let decoded = match base64_decode(clean.as_slice()) {
            Some(bytes) => bytes,
            None => {
                return Err(String::from_str("Invalid or corrupted Base64"));
            },
        };
        match public_key_from_bytes(decoded.as_slice()) {
            Some((public_seed, b)) => Ok(PublicKey { public_seed, b }),
            None => Err(String::from_str("Invalid public key structure")),
        }
    }
}

impl PrivateKey {
    /// The secret vector, for the engine's use.
    pub fn reveal_secret(&self) -> (s: &CoeffVector)
        ensures
            s@ == self.sec_s@,
    {
        &self.sec_s
    }

    /// Overwrites every coefficient of the secret vector with zero.
    fn wipe(&mut self)
        ensures
            final(self).sec_s@.len() == old(self).sec_s@.len(),
            forall|k: int| 0 <= k < final(self).sec_s@.len() ==> #[trigger] final(self).sec_s@[k] == 0,
        opens_invariants none
        no_unwind
    {
        self.sec_s.fill_zero();
    }
}

impl Drop for PrivateKey {
    /// Overwrites the secret vector with zeros when the key goes out of
    /// scope, so no copy of it stays behind in memory.
    fn drop(&mut self)
        ensures
            final(self).sec_s@.len() == old(self).sec_s@.len(),
            forall|k: int| 0 <= k < final(self).sec_s@.len() ==> #[trigger] final(self).sec_s@[k] == 0,
        opens_invariants none
        no_unwind
    {
        self.wipe();
    }
}

} // verus!
