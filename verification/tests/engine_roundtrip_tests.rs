//! Key text round trip and engine round trip with a generator seeded from
//! the operating system.

use rand::SeedableRng;
use rand_chacha::ChaCha20Rng;

use diegox::chacha::RngState;
use diegox::config::DIMENSION;
use diegox::engine::QuantumEngine;
use diegox::keys::{derive_keypair_from_passphrase, generate_identity, PublicKey};

#[test]
fn test_public_key_size_and_text_roundtrip() {
    let rng = ChaCha20Rng::from_entropy();
    let mut state = RngState::of_generator(&rng);
    let (pub_k, _) = generate_identity(&mut state);

    assert_eq!(pub_k.public_seed.len(), 32);
    assert_eq!(pub_k.b.len(), DIMENSION);

    let armored_text = pub_k.to_text();

    assert!(
        armored_text.len() < 300 * 1024,
        "Public key text is {} bytes, exceeds 300KB",
        armored_text.len()
    );
    println!(
        "Public key armored text size: {} bytes (~{:.1} KB)",
        armored_text.len(),
        armored_text.len() as f64 / 1024.0
    );

    let recovered_pub = PublicKey::from_text(&armored_text)
        .expect("Failed to deserialize public key from armored text");
    assert_eq!(pub_k.public_seed, recovered_pub.public_seed);
    assert_eq!(pub_k.b, recovered_pub.b);
}

#[test]
fn test_encryption_and_decryption_roundtrip() {
    let passphrase_real = "super_secret_master_quantum_key_2026";
    let (pub_real, _) = derive_keypair_from_passphrase(passphrase_real);

    let message =
        b"Confidential quantum message to be encapsulated with post-quantum security.";
    let ext = "txt";

    let mut engine = QuantumEngine::new(ChaCha20Rng::from_entropy());
    let capsule = engine.encrypt_dual(&pub_real, message, ext, None, b"decoy", "txt");

    let (decrypted_bytes, decrypted_ext) = engine
        .decrypt_blind(&capsule, passphrase_real)
        .expect("Decryption failed!");

    assert_eq!(decrypted_bytes, message);
    assert_eq!(decrypted_ext, ext);
}
