//! Integration tests of the lattice core against the public API: passphrase
//! derivation, public seed expansion, dual encryption and blind decryption.

use ndarray::Array1;
use rand::SeedableRng;
use rand_chacha::ChaCha20Rng;

use diegox::coeffs::CoeffVector;
use diegox::config::{DIMENSION, MODULUS};
use diegox::engine::{QuantumCapsule, QuantumEngine};
use diegox::keys::{derive_keypair_from_passphrase, expand_matrix_a};

/// A seeded engine, so that runs are reproducible.
fn deterministic_engine(seed_byte: u8) -> QuantumEngine {
    let mut seed = [0u8; 32];
    seed[0] = seed_byte;
    QuantumEngine::new(ChaCha20Rng::from_seed(seed))
}

/// The `.diegox` file layout: bincode of the four fields in order.
type CapsuleLayout = (
    (Array1<i64>, Array1<i64>),
    Vec<u8>,
    (Array1<i64>, Array1<i64>),
    Vec<u8>,
);

/// The bytes of the `.diegox` file that holds `c`.
fn capsule_file_bytes(c: &QuantumCapsule) -> Result<Vec<u8>, String> {
    let layout: CapsuleLayout = (
        (Array1::from_vec(c.kem_alpha.0.to_vec()), Array1::from_vec(c.kem_alpha.1.to_vec())),
        c.block_alpha.clone(),
        (Array1::from_vec(c.kem_beta.0.to_vec()), Array1::from_vec(c.kem_beta.1.to_vec())),
        c.block_beta.clone(),
    );
    bincode::serialize(&layout).map_err(|e| e.to_string())
}

/// The container that the `.diegox` file bytes `bytes` hold.
fn capsule_from_file_bytes(bytes: &[u8]) -> Result<QuantumCapsule, String> {
    let (ka, ba, kb, bb): CapsuleLayout =
        bincode::deserialize(&bytes).map_err(|e| e.to_string())?;
    Ok(QuantumCapsule {
        kem_alpha: (CoeffVector::from_vec(&ka.0.to_vec()), CoeffVector::from_vec(&ka.1.to_vec())),
        block_alpha: ba,
        kem_beta: (CoeffVector::from_vec(&kb.0.to_vec()), CoeffVector::from_vec(&kb.1.to_vec())),
        block_beta: bb,
    })
}

/// The same passphrase rebuilds identical key material; another one does not.
#[test]
fn test_argon2id_passphrase_determinism() {
    let passphrase = "CorrectHorseBatteryStaple2026!";
    let wrong_passphrase = "WrongHorseBatteryStaple2026!";

    let (pub_a, priv_a) = derive_keypair_from_passphrase(passphrase);
    let snapshot_a = (pub_a.public_seed, pub_a.b.clone(), priv_a.reveal_secret().to_vec());

    let (pub_b, priv_b) = derive_keypair_from_passphrase(passphrase);
    let snapshot_b = (pub_b.public_seed, pub_b.b.clone(), priv_b.reveal_secret().to_vec());

    let (pub_wrong, priv_wrong) = derive_keypair_from_passphrase(wrong_passphrase);
    let snapshot_wrong = (
        pub_wrong.public_seed,
        pub_wrong.b.clone(),
        priv_wrong.reveal_secret().to_vec(),
    );

    assert_eq!(
        snapshot_a.1.len(),
        DIMENSION,
        "public vector b must have DIMENSION coefficients"
    );
    assert_eq!(
        snapshot_a.2.len(),
        DIMENSION,
        "secret vector s must have DIMENSION coefficients"
    );
    assert_eq!(
        snapshot_a, snapshot_b,
        "Identical passphrases MUST produce identical key matrices in RAM"
    );
    assert_ne!(
        snapshot_a.2, snapshot_wrong.2,
        "Different passphrases MUST produce different secret key vectors"
    );
    assert_ne!(
        snapshot_a.0, snapshot_wrong.0,
        "Different passphrases MUST produce different public seeds"
    );
}

/// Seed expansion is deterministic, square, reduced, and seed-dependent.
#[test]
fn test_public_seed_expansion() {
    let public_seed = [0x42u8; 32];

    let matrix_1 = expand_matrix_a(&public_seed);
    let matrix_2 = expand_matrix_a(&public_seed);

    assert_eq!(
        matrix_1.dim(),
        (DIMENSION, DIMENSION),
        "Expanded matrix must be DIMENSION x DIMENSION"
    );
    let (r1, c1) = matrix_1.dim();
    let (r2, c2) = matrix_2.dim();
    assert_eq!(
        r1 * c1,
        r2 * c2,
        "Expanded public matrix dimensions must be consistent"
    );

    let rows_1 = matrix_1.to_rows();
    let rows_2 = matrix_2.to_rows();
    assert_eq!(
        rows_1, rows_2,
        "Public matrix expansion from 32-byte seed must be 100% deterministic"
    );

    for (idx, &coeff) in rows_1.iter().flatten().enumerate() {
        assert!(
            (0..MODULUS).contains(&coeff),
            "Coefficient at flat index {} out of bounds [0, {}): {}",
            idx,
            MODULUS,
            coeff
        );
    }

    let matrix_other = expand_matrix_a(&[0x43u8; 32]);
    assert_ne!(
        rows_1,
        matrix_other.to_rows(),
        "Distinct seeds MUST expand to distinct matrices"
    );
}

/// Encrypting to a passphrase-derived key and blind-decrypting with the
/// passphrase restores the payload and its extension.
#[test]
fn test_lwe_encryption_decryption_roundtrip() {
    let secret_payload = b"Top Secret Post-Quantum File Content 2026";
    let passphrase = "MyUltraSecurePassphrase#2026";
    let ext = "txt";

    let (pub_real, _priv_real) = derive_keypair_from_passphrase(passphrase);

    let mut engine = deterministic_engine(0x01);
    let capsule = engine.encrypt_dual(&pub_real, secret_payload, ext, None, b"decoy", ext);

    // Container format: the bytes a .diegox file holds, and back (the file
    // itself is written and read by the front end).
    let file_bytes =
        capsule_file_bytes(&capsule).expect("Failed to save .diegox capsule to disk");
    let reloaded =
        capsule_from_file_bytes(&file_bytes).expect("Failed to reload .diegox capsule from disk");

    let (decrypted, decrypted_ext) = engine
        .decrypt_blind(&reloaded, passphrase)
        .expect("Decryption with the valid passphrase failed");

    assert_eq!(
        decrypted.as_slice(),
        &secret_payload[..],
        "Decrypted payload must match original secret payload exactly"
    );
    assert_eq!(
        decrypted_ext, ext,
        "Restored extension must match the sealed one"
    );
}

/// Each of two passphrases opens only its own slot.
#[test]
fn test_chameleon_dual_kem_isolation() {
    let real_payload = b"REAL SECRET DATA";
    let decoy_payload = b"DECOY COAXIAL DATA";

    let passphrase_alpha = "RealPassphraseAlpha2026!";
    let passphrase_beta = "DecoyPassphraseBeta2026!";

    let (pub_alpha, _priv_alpha) = derive_keypair_from_passphrase(passphrase_alpha);
    let (pub_beta, _priv_beta) = derive_keypair_from_passphrase(passphrase_beta);

    let mut engine = deterministic_engine(0x02);
    let capsule = engine.encrypt_dual(
        &pub_alpha,
        real_payload,
        "txt",
        Some(&pub_beta),
        decoy_payload,
        "txt",
    );

    let (alpha_result, _) = engine
        .decrypt_blind(&capsule, passphrase_alpha)
        .expect("Alpha passphrase must decrypt the capsule");
    assert_eq!(
        alpha_result.as_slice(),
        &real_payload[..],
        "Passphrase Alpha must recover the real payload"
    );

    let (beta_result, _) = engine
        .decrypt_blind(&capsule, passphrase_beta)
        .expect("Beta passphrase must decrypt the capsule");
    assert_eq!(
        beta_result.as_slice(),
        &decoy_payload[..],
        "Passphrase Beta must recover the decoy payload"
    );

    assert_ne!(
        alpha_result, beta_result,
        "Alpha and Beta blocks must be cryptographically isolated"
    );
}

/// A wrong passphrase gets the generic refusal.
#[test]
fn test_invalid_passphrase_failure() {
    let secret_payload = b"Confidential Data";
    let correct_passphrase = "ValidPassphrase123!";
    let attacker_passphrase = "AttackerGuess456!";

    let (pub_real, _priv_real) = derive_keypair_from_passphrase(correct_passphrase);

    let mut engine = deterministic_engine(0x03);
    let capsule = engine.encrypt_dual(&pub_real, secret_payload, "txt", None, b"decoy", "txt");

    let result = engine.decrypt_blind(&capsule, attacker_passphrase);

    assert!(
        result.is_err(),
        "Decryption with an invalid passphrase MUST return an Error"
    );
    let err = result.unwrap_err();
    assert!(
        err.contains("ACCESS DENIED"),
        "Expected the Chameleon access-denied error, got: {}",
        err
    );
}
