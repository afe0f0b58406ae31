//! What the background workers of the interface compute: the keys and
//! payloads of a sealing request, the container, and the reports sent back.
use crate::chacha::{draws_as_bytes, lemma_range_draws_len, RngModel};
use crate::config::DIMENSION;
use crate::engine::crypto_core::{encrypt_dual_spec, is_encryptable, QuantumEngine};
use crate::engine::file_handler::QuantumCapsule;
use crate::gui::state::{InputMode, SessionState, TargetMode, WorkerResult};
use crate::keys::armor::{armor_is_ordered, public_key_from_armor};
use crate::keys::derivation::{derive_keypair_from_passphrase, identity_of_key, passphrase_key};
use crate::keys::structures::PublicKey;
use vstd::prelude::*;
use vstd::slice::slice_to_vec;
use vstd::utf8::encode_utf8;

verus! {

/// A part read from a file name (its extension or stem), or `fallback`
/// where the name has none.
pub open spec fn name_or(part: Option<String>, fallback: Seq<char>) -> Seq<char> {
    match part {
        Some(p) => p@,
        None => fallback,
    }
}

/// The decoy slot gets a key pair of its own: the decoy is on and has a
/// passphrase.
pub open spec fn decoy_wanted(use_decoy: bool, decoy_passphrase: Seq<char>) -> bool {
    use_decoy && decoy_passphrase.len() > 0
}

/// What a sealing request seals, `(real payload, its extension, decoy
/// payload, its extension)`, and the generator state after it. Typed text
/// is sealed as its UTF-8 bytes with the extension `txt`; a file as its
/// bytes with its own extension, or `bin` (real) and `txt` (decoy) where
/// its name has none. Only the extension of a file is kept: its name is not
/// sealed. Without a decoy passphrase the decoy slot carries uniform random
/// noise, as many bytes as the real payload, drawn from the generator;
/// otherwise the generator is left as it was.
pub open spec fn sealing_payloads_of(
    mode: InputMode,
    wanted: bool,
    input_real: Seq<char>,
    input_decoy: Seq<char>,
    real_file: Seq<u8>,
    real_ext: Option<String>,
    decoy_file: Seq<u8>,
    decoy_ext: Option<String>,
    st: RngModel,
) -> ((Seq<u8>, Seq<char>, Seq<u8>, Seq<char>), RngModel) {
    let payload = match mode {
        InputMode::Text => encode_utf8(input_real),
        InputMode::File => real_file,
    };
    let noise = st.range_draws(0, 256, payload.len());
    let decoy = if wanted {
        match mode {
            InputMode::Text => encode_utf8(input_decoy),
            InputMode::File => decoy_file,
        }
    } else {
        draws_as_bytes(noise.0)
    };
    let after = if wanted {
        st
    } else {
        noise.1
    };
    let exts = match mode {
        InputMode::Text => ("txt"@, "txt"@),
        InputMode::File => (name_or(real_ext, "bin"@), name_or(decoy_ext, "txt"@)),
    };
    ((payload, exts.0, decoy, exts.1), after)
}

/// The real slot carries what was given as the real payload, whatever the
/// decoy settings and the generator: the typed text's UTF-8 bytes, or the
/// real file's bytes. With a decoy passphrase the decoy slot carries the
/// decoy text or file and no randomness is drawn; without one it carries
/// noise of the real payload's length. Typed text is always `txt`, and a
/// file keeps its own extension where its name has one.
pub proof fn lemma_sealed_payloads_are_the_inputs(
    mode: InputMode,
    wanted: bool,
    input_real: Seq<char>,
    input_decoy: Seq<char>,
    real_file: Seq<u8>,
    real_ext: Option<String>,
    decoy_file: Seq<u8>,
    decoy_ext: Option<String>,
    st: RngModel,
)
    ensures
        ({
            let r = sealing_payloads_of(
                mode,
                wanted,
                input_real,
                input_decoy,
                real_file,
                real_ext,
                decoy_file,
                decoy_ext,
                st,
            );
            &&& mode == InputMode::File ==> r.0.0 == real_file
            &&& mode == InputMode::Text ==> r.0.0 == encode_utf8(input_real)
            &&& wanted && mode == InputMode::File ==> r.0.2 == decoy_file
            &&& wanted && mode == InputMode::Text ==> r.0.2 == encode_utf8(input_decoy)
            &&& wanted ==> r.1 == st
            &&& !wanted ==> r.0.2.len() == r.0.0.len()
            &&& mode == InputMode::Text ==> r.0.1 == "txt"@ && r.0.3 == "txt"@
            &&& mode == InputMode::File && real_ext is Some ==> r.0.1 == real_ext->0@
            &&& mode == InputMode::File && decoy_ext is Some ==> r.0.3 == decoy_ext->0@
        }),
{
    let payload = match mode {
        InputMode::Text => encode_utf8(input_real),
        InputMode::File => real_file,
    };
    lemma_range_draws_len(st, 0, 256, payload.len());
}

/// The key the real slot is sealed to, as values: the key pair of the real
/// passphrase, or the contact key read from its armored text, with one
/// message for any fault in that text.
pub open spec fn target_key_of(
    target: TargetMode,
    real_passphrase: Seq<char>,
    contact_key: Seq<char>,
) -> Result<(Seq<u8>, Seq<i64>), Seq<char>> {
    match target {
        TargetMode::Me => {
            let id = identity_of_key(passphrase_key(real_passphrase));
            Ok((id.0, id.1))
        },
        TargetMode::Contact => match public_key_from_armor(contact_key) {
            Ok(m) => Ok(m),
            Err(_) => Err("ERROR: Corrupted contact key."@),
        },
    }
}

/// The key the decoy slot is sealed to, as values: that of the decoy
/// passphrase where one is wanted, otherwise none (a ghost identity).
pub open spec fn decoy_key_of(wanted: bool, decoy_passphrase: Seq<char>) -> Option<
    (Seq<u8>, Seq<i64>),
> {
    if wanted {
        let id = identity_of_key(passphrase_key(decoy_passphrase));
        Some((id.0, id.1))
    } else {
        None
    }
}

/// The report of writing a file: `success` followed by the path, or
/// `failure` followed by the error.
pub open spec fn save_report(
    success: Seq<char>,
    failure: Seq<char>,
    path: Seq<char>,
    outcome: Result<(), String>,
    res: WorkerResult,
) -> bool {
    match outcome {
        Ok(()) => res matches WorkerResult::EncryptionSuccess(m) && m@ == success + path,
        Err(e) => res matches WorkerResult::Failure(m) && m@ == failure + e@,
    }
}

/// `prefix` followed by `tail`.
fn joined(prefix: &str, tail: &str) -> (s: String)
    ensures
        s@ == prefix@ + tail@,
{
    let mut s = String::from_str(prefix);
    s.append(tail);
    s
}

/// What a sealing worker reports once the container was written to `path`,
/// or failed to be.
pub fn capsule_save_report(path: &str, outcome: Result<(), String>) -> (res: WorkerResult)
    ensures
        save_report(
            "SUCCESS: CAPSULE SAVED TO "@,
            "ERROR WRITING CAPSULE: "@,
            path@,
            outcome,
            res,
        ),
{
    match outcome {
        Ok(()) => WorkerResult::EncryptionSuccess(joined("SUCCESS: CAPSULE SAVED TO ", path)),
        Err(e) => WorkerResult::Failure(joined("ERROR WRITING CAPSULE: ", e.as_str())),
    }
}

/// What an export worker reports once the extracted payload was written to
/// `path`, or failed to be.
pub fn extracted_save_report(path: &str, outcome: Result<(), String>) -> (res: WorkerResult)
    ensures
        save_report(
            "SUCCESS: EXTRACTED FILE SAVED TO "@,
            "ERROR WRITING EXTRACTED FILE: "@,
            path@,
            outcome,
            res,
        ),
{
    match outcome {
        Ok(()) => WorkerResult::EncryptionSuccess(joined("SUCCESS: EXTRACTED FILE SAVED TO ", path)),
        Err(e) => WorkerResult::Failure(joined("ERROR WRITING EXTRACTED FILE: ", e.as_str())),
    }
}

impl SessionState {
    /// The key the real slot is sealed to: derived from the real passphrase,
    /// or read from the contact's armored key text.
    pub fn target_key(&self) -> (key: Result<PublicKey, String>)
        requires
            self.target_mode == TargetMode::Me ==> encode_utf8(self.real_passphrase@).len()
                <= 0xFFFF_FFFF,
            self.target_mode == TargetMode::Contact ==> armor_is_ordered(
                self.contact_pub_key_bytes@,
            ),
        ensures
            match key {
                Ok(pk) => target_key_of(
                    self.target_mode,
                    self.real_passphrase@,
                    self.contact_pub_key_bytes@,
                ) == Ok::<(Seq<u8>, Seq<i64>), Seq<char>>(pk.model()),
                Err(msg) => target_key_of(
                    self.target_mode,
                    self.real_passphrase@,
                    self.contact_pub_key_bytes@,
                ) == Err::<(Seq<u8>, Seq<i64>), Seq<char>>(msg@),
            },
    {
        match self.target_mode {
            TargetMode::Me => Ok(derive_keypair_from_passphrase(self.real_passphrase.as_str()).0),
            TargetMode::Contact => match PublicKey::from_text(self.contact_pub_key_bytes.as_str()) {
                Ok(pk) => Ok(pk),
                Err(_) => Err(String::from_str("ERROR: Corrupted contact key.")),
            },
        }
    }

    /// The payloads and extensions that a sealing request seals, from the
    /// typed texts or, in file mode, from the bytes and extensions of the
    /// chosen files (`real_file`, `decoy_file`; an extension is `None` where
    /// the file name has none). Without a decoy passphrase the decoy payload
    /// is random noise drawn from the engine's generator.
    pub fn sealing_payloads(
        &self,
        engine: &mut QuantumEngine,
        real_file: Vec<u8>,
        real_ext: Option<String>,
        decoy_file: Vec<u8>,
        decoy_ext: Option<String>,
    ) -> (r: (Vec<u8>, String, Vec<u8>, String))
        ensures
            ((r.0@, r.1@, r.2@, r.3@), final(engine).chacha_rng@) == sealing_payloads_of(
                self.input_mode,
                decoy_wanted(self.use_decoy, self.decoy_passphrase@),
                self.input_real@,
                self.input_decoy_text@,
                real_file@,
                real_ext,
                decoy_file@,
                decoy_ext,
                old(engine).chacha_rng@,
            ),
            self.input_mode == InputMode::File ==> r.0@ == real_file@,
            self.input_mode == InputMode::Text ==> r.0@ == encode_utf8(self.input_real@),
    {
        let ghost st = engine.chacha_rng@;
        let payload = match self.input_mode {
            InputMode::Text => slice_to_vec(self.input_real.as_str().as_bytes()),
            InputMode::File => real_file,
        };
        let decoy = if self.wants_decoy_key() {
            match self.input_mode {
                InputMode::Text => slice_to_vec(self.input_decoy_text.as_str().as_bytes()),
                InputMode::File => decoy_file,
            }
        } else {
            engine.chacha_rng.gen_bytes(payload.len())
        };
        match self.input_mode {
            InputMode::Text => (payload, String::from_str("txt"), decoy, String::from_str("txt")),
            InputMode::File => {
                let ext_real = match real_ext {
                    Some(e) => e,
                    None => String::from_str("bin"),
                };
                let ext_decoy = match decoy_ext {
                    Some(e) => e,
                    None => String::from_str("txt"),
                };
                (payload, ext_real, decoy, ext_decoy)
            },
        }
    }

    /// Seals a request into a container with `engine`: the real payload to
    /// `pub_real` in slot alpha, the decoy payload in slot beta to the key
    /// pair of the decoy passphrase, or without one to a ghost identity.
    pub fn seal_request(
        &self,
        engine: &mut QuantumEngine,
        pub_real: &PublicKey,
        real_file: Vec<u8>,
        real_ext: Option<String>,
        decoy_file: Vec<u8>,
        decoy_ext: Option<String>,
    ) -> (capsule: QuantumCapsule)
        requires
            is_encryptable(pub_real),
            decoy_wanted(self.use_decoy, self.decoy_passphrase@) ==> encode_utf8(
                self.decoy_passphrase@,
            ).len() <= 0xFFFF_FFFF,
        ensures
            ({
                let p = sealing_payloads_of(
                    self.input_mode,
                    decoy_wanted(self.use_decoy, self.decoy_passphrase@),
                    self.input_real@,
                    self.input_decoy_text@,
                    real_file@,
                    real_ext,
                    decoy_file@,
                    decoy_ext,
                    old(engine).chacha_rng@,
                );
                (capsule.alpha(), capsule.beta(), final(engine).chacha_rng@) == encrypt_dual_spec(
                    p.1,
                    pub_real.model(),
                    p.0.0,
                    encode_utf8(p.0.1),
                    decoy_key_of(
                        decoy_wanted(self.use_decoy, self.decoy_passphrase@),
                        self.decoy_passphrase@,
                    ),
                    p.0.2,
                    encode_utf8(p.0.3),
                )
            }),
            capsule.is_well_formed(),
    {
        let decoy_key = if self.wants_decoy_key() {
            let pk = derive_keypair_from_passphrase(self.decoy_passphrase.as_str()).0;
            proof {
                assert(pk.b@.len() == DIMENSION);
            }
            Some(pk)
        } else {
            None
        };
        let (payload, ext_real, decoy, ext_decoy) = self.sealing_payloads(
            engine,
            real_file,
            real_ext,
            decoy_file,
            decoy_ext,
        );
        engine.encrypt_dual(
            pub_real,
            payload.as_slice(),
            ext_real.as_str(),
            decoy_key.as_ref(),
            decoy.as_slice(),
            ext_decoy.as_str(),
        )
    }

    /// The file name an extracted payload is exported under: the stem of
    /// the container's file name (`extracted_payload` where it has none),
    /// `_unsealed`, and the recovered extension.
    pub fn extracted_file_name(&self, stem: Option<String>) -> (name: String)
        ensures
            name@ == name_or(stem, "extracted_payload"@) + "_unsealed."@
                + self.decrypted_ext_output@,
    {
        let mut name = match stem {
            Some(s) => s,
            None => String::from_str("extracted_payload"),
        };
        name.append("_unsealed.");
        name.append(self.decrypted_ext_output.as_str());
        name
    }
}

} // verus!
