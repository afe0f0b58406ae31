//! Tests of the library's parts on concrete values: sealing, key encodings,
//! the generator model, the matrices, the engine, and the interface state.

use base64::Engine;
use rand::{Rng, SeedableRng};
use rand_chacha::ChaCha20Rng;

use diegox::chacha::RngState;
use diegox::coeffs::CoeffVector;
use diegox::config::{DIMENSION, MODULUS};
use diegox::engine::payload_builder::{build_sealed_payload, open_sealed_payload};
use diegox::engine::QuantumEngine;
use diegox::gui::state::{
    IdentityItem, InputMode, SessionState, Tab, TargetMode, WorkerResult,
};
use diegox::gui::worker::{capsule_save_report, extracted_save_report};
use diegox::keys::encoding::{public_key_from_bytes, public_key_to_bytes};
use diegox::keys::{
    build_negacyclic_matrix, derive_keypair_from_passphrase, generate_identity, PublicKey,
};

const SHA256_ABC: [u8; 32] = [
    0xba, 0x78, 0x16, 0xbf, 0x8f, 0x01, 0xcf, 0xea, 0x41, 0x41, 0x40, 0xde, 0x5d, 0xae, 0x22, 0x23,
    0xb0, 0x03, 0x61, 0xa3, 0x96, 0x17, 0x7a, 0x9c, 0xb4, 0x10, 0xff, 0x61, 0xf2, 0x00, 0x15, 0xad,
];

#[test]
fn sealed_payload_layout() {
    let sealed = build_sealed_payload(b"abc", "txt");
    let mut expected = SHA256_ABC.to_vec();
    expected.push(3);
    expected.extend_from_slice(b"txt");
    expected.extend_from_slice(b"abc");
    assert_eq!(sealed, expected);
}

#[test]
fn sealed_payload_opens_back() {
    let sealed = build_sealed_payload(b"hello world", "pdf");
    let (data, ext) = open_sealed_payload(&sealed).expect("a sealed payload opens");
    assert_eq!(data, b"hello world");
    assert_eq!(ext, "pdf");
    let empty = build_sealed_payload(b"", "");
    assert_eq!(open_sealed_payload(&empty), Some((Vec::new(), String::new())));
}

#[test]
fn sealed_payload_with_long_extension_does_not_open() {
    let ext = "e".repeat(256);
    let sealed = build_sealed_payload(b"abc", &ext);
    assert_eq!(sealed[32], 0);
    assert_eq!(open_sealed_payload(&sealed), None);
}

#[test]
fn open_rejects_short_or_corrupt_blocks() {
    assert_eq!(open_sealed_payload(&[0u8; 32]), None);
    let mut truncated = SHA256_ABC.to_vec();
    truncated.push(5);
    truncated.extend_from_slice(b"ab");
    assert_eq!(open_sealed_payload(&truncated), None);
    let mut tampered = build_sealed_payload(b"abc", "txt");
    let last = tampered.len() - 1;
    tampered[last] ^= 1;
    assert_eq!(open_sealed_payload(&tampered), None);
}

#[test]
fn open_falls_back_to_txt_for_invalid_utf8_extension() {
    let mut block = SHA256_ABC.to_vec();
    block.push(1);
    block.push(0xff);
    block.extend_from_slice(b"abc");
    assert_eq!(
        open_sealed_payload(&block),
        Some((b"abc".to_vec(), "txt".to_string()))
    );
}

#[test]
fn negacyclic_matrix_of_small_polynomial() {
    let m = build_negacyclic_matrix(&[1, 2, 3]);
    let q = MODULUS;
    assert_eq!(m.dim(), (3, 3));
    assert_eq!(
        m.to_rows(),
        vec![
            vec![1, q - 3, q - 2],
            vec![2, 1, q - 3],
            vec![3, 2, 1],
        ]
    );
    let neg = build_negacyclic_matrix(&[0, -5]);
    assert_eq!(neg.to_rows(), vec![vec![0, 5], vec![-5, 0]]);
}

#[test]
fn coefficient_vector_round_trip() {
    let v = vec![3, -1, 12288, i64::MIN, i64::MAX];
    let cv = CoeffVector::from_vec(&v);
    assert_eq!(cv.len(), 5);
    assert_eq!(cv.to_vec(), v);
}

#[test]
fn generator_model_matches_chacha() {
    let seed = [7u8; 32];
    let mut state = RngState::from_seed(seed);
    let mut rng = ChaCha20Rng::from_seed(seed);
    let bytes = state.fill_32();
    let mut expected = [0u8; 32];
    rng.fill(&mut expected);
    assert_eq!(bytes, expected);
    for _ in 0..50 {
        assert_eq!(state.gen_range(0, MODULUS), rng.gen_range(0..MODULUS));
        assert_eq!(state.gen_range(-1, 2), rng.gen_range(-1..=1));
    }
    assert_eq!(state.word_pos, rng.get_word_pos());
    let many = RngState::from_seed(seed).gen_range_many(0, 2, 10);
    assert_eq!(many.len(), 10);
    assert!(many.iter().all(|&x| x == 0 || x == 1));
}

#[test]
fn derivation_is_argon2_then_generator() {
    let phrase = "correct horse";
    let mut seed = [0u8; 32];
    argon2::Argon2::default()
        .hash_password_into(phrase.as_bytes(), b"diegox_quantum_salt_v1__", &mut seed)
        .unwrap();
    let mut state = RngState::from_seed(seed);
    let (pk_manual, sk_manual) = generate_identity(&mut state);
    let (pk, sk) = derive_keypair_from_passphrase(phrase);
    assert_eq!(pk.public_seed, pk_manual.public_seed);
    assert_eq!(pk.b, pk_manual.b);
    assert_eq!(sk.reveal_secret().to_vec(), sk_manual.reveal_secret().to_vec());
    assert!(sk.reveal_secret().to_vec().iter().all(|&x| x == 0 || x == 1));
    assert!(pk.b.iter().all(|&x| (0..MODULUS).contains(&x)));
}

#[test]
fn public_key_bytes_match_bincode_layout() {
    let seed = [9u8; 32];
    let b = vec![1i64, -2, 12288];
    let bytes = public_key_to_bytes(&seed, &b);
    assert_eq!(bytes, bincode::serialize(&(seed, b.clone())).unwrap());
    assert_eq!(bytes.len(), 32 + 8 + 3 * 8);
    let mut with_tail = bytes.clone();
    with_tail.extend_from_slice(&[1, 2, 3]);
    assert_eq!(public_key_from_bytes(&with_tail), Some((seed, b)));
    assert_eq!(public_key_from_bytes(&bytes[..39]), None);
    assert_eq!(public_key_from_bytes(&bytes[..bytes.len() - 1]), None);
}

#[test]
fn public_key_text_form() {
    let pk = PublicKey { public_seed: [1u8; 32], b: vec![5, 6] };
    let text = pk.to_text();
    let bytes = public_key_to_bytes(&pk.public_seed, &pk.b);
    let b64 = base64::engine::general_purpose::STANDARD.encode(&bytes);
    assert_eq!(
        text,
        format!(
            "-----BEGIN DIEGOX PUBLIC KEY-----\n{}\n-----END DIEGOX PUBLIC KEY-----",
            b64
        )
    );
    let back = PublicKey::from_text(&text).unwrap();
    assert_eq!(back.public_seed, pk.public_seed);
    assert_eq!(back.b, pk.b);
    let spaced = format!(
        "junk -----BEGIN DIEGOX PUBLIC KEY-----\r\n  {} {}\n\t-----END DIEGOX PUBLIC KEY----- tail",
        &b64[..10],
        &b64[10..]
    );
    let back = PublicKey::from_text(&spaced).unwrap();
    assert_eq!(back.b, pk.b);
}

#[test]
fn public_key_text_errors() {
    assert_eq!(
        PublicKey::from_text("no armor here").err(),
        Some("Invalid armored format: missing headers".to_string())
    );
    assert_eq!(
        PublicKey::from_text("-----BEGIN DIEGOX PUBLIC KEY-----\n%%%\n-----END DIEGOX PUBLIC KEY-----")
            .err(),
        Some("Invalid or corrupted Base64".to_string())
    );
    assert_eq!(
        PublicKey::from_text("-----BEGIN DIEGOX PUBLIC KEY-----\nAAAA\n-----END DIEGOX PUBLIC KEY-----")
            .err(),
        Some("Invalid public key structure".to_string())
    );
}

#[test]
fn engine_is_deterministic_for_a_seeded_generator() {
    let (pk, _) = derive_keypair_from_passphrase("determinism");
    let mut e1 = QuantumEngine::new(ChaCha20Rng::from_seed([4u8; 32]));
    let mut e2 = QuantumEngine::new(ChaCha20Rng::from_seed([4u8; 32]));
    let c1 = e1.encrypt_dual(&pk, b"data", "bin", None, b"noise", "txt");
    let c2 = e2.encrypt_dual(&pk, b"data", "bin", None, b"noise", "txt");
    assert_eq!(c1.kem_alpha.0.to_vec(), c2.kem_alpha.0.to_vec());
    assert_eq!(c1.kem_alpha.1.to_vec(), c2.kem_alpha.1.to_vec());
    assert_eq!(c1.block_alpha, c2.block_alpha);
    assert_eq!(c1.block_beta, c2.block_beta);
    assert_eq!(c1.kem_alpha.0.len(), DIMENSION);
    assert_eq!(c1.block_alpha.len(), 32 + 1 + 3 + 4);
    assert_ne!(&c1.block_alpha[36..], b"data");
    assert_eq!(e1.chacha_rng.word_pos, e2.chacha_rng.word_pos);
}

#[test]
fn tampered_container_is_refused() {
    let phrase = "tamper test";
    let (pk, _) = derive_keypair_from_passphrase(phrase);
    let mut engine = QuantumEngine::new(ChaCha20Rng::from_seed([5u8; 32]));
    let mut capsule = engine.encrypt_dual(&pk, b"payload", "txt", None, b"noise", "txt");
    let last = capsule.block_alpha.len() - 1;
    capsule.block_alpha[last] ^= 0x80;
    let err = engine.decrypt_blind(&capsule, phrase).unwrap_err();
    assert_eq!(
        err,
        "ACCESS DENIED: Collapsed Quantum Fluctuation or Invalid Passphrase."
    );
}

#[test]
fn contact_key_from_text_encrypts() {
    let phrase = "contact phrase";
    let (pk, _) = derive_keypair_from_passphrase(phrase);
    let received = PublicKey::from_text(&pk.to_text()).unwrap();
    let mut engine = QuantumEngine::new(ChaCha20Rng::from_seed([6u8; 32]));
    let capsule = engine.encrypt_dual(&received, b"for you", "md", None, b"x", "txt");
    let (data, ext) = engine.decrypt_blind(&capsule, phrase).unwrap();
    assert_eq!(data, b"for you");
    assert_eq!(ext, "md");
}

#[test]
fn session_starts_on_shield_tab() {
    let st = SessionState::new();
    assert!(st.current_tab == Tab::Shield);
    assert!(st.input_mode == InputMode::Text);
    assert!(st.target_mode == TargetMode::Me);
    assert_eq!(st.decrypted_ext_output, "txt");
    assert_eq!(st.status, "CSRP SYSTEM INITIALIZED. SECURE ENVIRONMENT.");
    assert!(!st.is_loading);
}

#[test]
fn session_takes_worker_results() {
    let mut st = SessionState::new();
    st.is_loading = true;
    st.real_passphrase = "secret".to_string();
    st.output_name = "out".to_string();
    st.apply_worker_result(WorkerResult::EncryptionSuccess("SAVED".to_string()));
    assert!(!st.is_loading);
    assert_eq!(st.status, "SAVED");
    assert!(st.real_passphrase.is_empty());
    assert!(st.output_name.is_empty());

    st.unlock_passphrase = "p".to_string();
    st.apply_worker_result(WorkerResult::DecryptionSuccess(vec![1, 2], "zip".to_string()));
    assert_eq!(st.decrypted_bytes_output, Some(vec![1, 2]));
    assert_eq!(st.decrypted_ext_output, "zip");
    assert_eq!(st.status, "SUCCESS: BLIND CONTAINER EXTRACTED CORRECTLY.");
    assert!(st.unlock_passphrase.is_empty());

    st.alias_vault = "alice".to_string();
    st.apply_worker_result(WorkerResult::IdentitySuccess(IdentityItem {
        alias: "alice".to_string(),
        public_key_text: "KEY-A".to_string(),
        public_key_display: "KEY-A".to_string(),
    }));
    assert_eq!(st.identities.len(), 1);
    assert_eq!(st.selected_identity_idx, Some(0));
    assert_eq!(st.selected_identity_pub_key, "KEY-A");
    assert_eq!(st.status, "NEW IDENTITY BOUND TO EPHEMERAL KEYRING.");
    assert!(st.alias_vault.is_empty());

    st.unlock_passphrase = "q".to_string();
    st.apply_worker_result(WorkerResult::Failure("ERROR".to_string()));
    assert_eq!(st.status, "ERROR");
    assert!(st.unlock_passphrase.is_empty());
    assert_eq!(st.identities.len(), 1);
}

fn identity(alias: &str) -> IdentityItem {
    IdentityItem {
        alias: alias.to_string(),
        public_key_text: format!("KEY-{}", alias),
        public_key_display: format!("KEY-{}", alias),
    }
}

#[test]
fn removing_identities_keeps_the_selection() {
    let mut st = SessionState::new();
    for a in ["a", "b", "c"] {
        st.apply_worker_result(WorkerResult::IdentitySuccess(identity(a)));
    }
    assert_eq!(st.selected_identity_idx, Some(2));
    st.remove_identity(0);
    assert_eq!(st.selected_identity_idx, Some(1));
    assert_eq!(st.identities[1].alias, "c");
    assert_eq!(st.selected_identity_pub_key, "KEY-c");
    assert_eq!(st.status, "IDENTITY DELETED FROM EPHEMERAL KEYRING.");
    st.remove_identity(1);
    assert_eq!(st.selected_identity_idx, None);
    assert!(st.selected_identity_pub_key.is_empty());
    assert_eq!(st.identities.len(), 1);
}

#[test]
fn shield_requests_are_checked_in_order() {
    let mut st = SessionState::new();
    st.output_name = " \t ".to_string();
    assert_eq!(
        st.validate_shield_request(),
        Err("ERROR: Please specify an output container name.".to_string())
    );
    st.output_name = "archive".to_string();
    assert_eq!(
        st.validate_shield_request(),
        Err("ERROR: Real passphrase cannot be empty.".to_string())
    );
    st.real_passphrase = "p".to_string();
    assert_eq!(st.validate_shield_request(), Ok(()));
    st.target_mode = TargetMode::Contact;
    st.contact_pub_key_bytes = "\n ".to_string();
    assert_eq!(
        st.validate_shield_request(),
        Err("ERROR: Contact public key cannot be empty.".to_string())
    );
    st.contact_pub_key_bytes = "KEY".to_string();
    assert_eq!(st.validate_shield_request(), Ok(()));
}

#[test]
fn starting_a_shield_request() {
    let mut st = SessionState::new();
    assert!(!st.start_shield_request());
    assert_eq!(st.status, "ERROR: Please specify an output container name.");
    assert!(!st.is_loading);
    st.output_name = "  vault ".to_string();
    st.real_passphrase = "p".to_string();
    assert!(st.start_shield_request());
    assert!(st.is_loading);
    assert_eq!(
        st.status,
        "Calculating matrices and deriving entropy in background thread..."
    );
    assert_eq!(st.real_passphrase, "p");
}

#[test]
fn starting_an_unlock_request() {
    let mut st = SessionState::new();
    assert!(!st.start_unlock_request());
    assert_eq!(st.status, "ERROR: Please select a .diegox container to decrypt.");
    st.file_to_decrypt = "box.diegox".to_string();
    assert!(!st.start_unlock_request());
    assert_eq!(st.status, "ERROR: Extraction passphrase cannot be empty.");
    assert!(!st.is_loading);
    st.unlock_passphrase = "p".to_string();
    st.decrypted_bytes_output = Some(vec![7]);
    assert!(st.start_unlock_request());
    assert!(st.is_loading);
    assert_eq!(
        st.status,
        "Executing constant time (XOR) operations in background thread..."
    );
    assert_eq!(st.decrypted_bytes_output, None);
}

#[test]
fn starting_an_identity_request() {
    let mut st = SessionState::new();
    st.alias_vault = "alice".to_string();
    assert!(!st.start_identity_request());
    assert!(!st.is_loading);
    assert_eq!(st.status, "CSRP SYSTEM INITIALIZED. SECURE ENVIRONMENT.");
    st.passphrase_vault = "p".to_string();
    assert!(st.start_identity_request());
    assert!(st.is_loading);
    assert_eq!(
        st.status,
        "Deriving post-quantum polynomial matrices in background..."
    );
}

#[test]
fn selecting_an_identity_shows_its_key() {
    let mut st = SessionState::new();
    for a in ["a", "b"] {
        st.apply_worker_result(WorkerResult::IdentitySuccess(identity(a)));
    }
    st.select_identity(0);
    assert_eq!(st.selected_identity_idx, Some(0));
    assert_eq!(st.selected_identity_pub_key, "KEY-a");
}

#[test]
fn decoy_key_needs_switch_and_passphrase() {
    let mut st = SessionState::new();
    st.decoy_passphrase = "d".to_string();
    assert!(!st.wants_decoy_key());
    st.use_decoy = true;
    assert!(st.wants_decoy_key());
    st.decoy_passphrase.clear();
    assert!(!st.wants_decoy_key());
}

#[test]
fn container_file_name_is_trimmed() {
    let mut st = SessionState::new();
    assert_eq!(st.container_file_name(), "output_filename.diegox");
    st.output_name = " \u{3000}\t".to_string();
    assert_eq!(st.container_file_name(), "output_filename.diegox");
    st.output_name = "  my archive\n".to_string();
    assert_eq!(st.container_file_name(), "my archive.diegox");
    st.output_name = "é".to_string();
    assert_eq!(st.container_file_name(), "é.diegox");
}

#[test]
fn public_key_text_length_for_full_key() {
    let (pk, _) = derive_keypair_from_passphrase("length");
    assert_eq!(pk.b.len(), DIMENSION);
    assert_eq!(pk.to_text().len(), 11042);
    let small = PublicKey { public_seed: [0u8; 32], b: vec![1, 2] };
    // 56 bytes give 76 base64 characters, plus 66 of framing.
    assert_eq!(small.to_text().len(), 66 + 76);
}

#[test]
fn base64_text_outside_alphabet_is_refused() {
    assert_eq!(
        PublicKey::from_text("-----BEGIN DIEGOX PUBLIC KEY-----\nAAAA\u{e9}AAA\n-----END DIEGOX PUBLIC KEY-----")
            .err(),
        Some("Invalid or corrupted Base64".to_string())
    );
}

#[test]
fn engine_starts_at_the_generator_state() {
    let mut rng = ChaCha20Rng::from_seed([3u8; 32]);
    rng.set_stream(5);
    rng.set_word_pos(77);
    let e = QuantumEngine::new(rng.clone());
    assert_eq!(e.chacha_rng.seed, [3u8; 32]);
    assert_eq!(e.chacha_rng.stream, 5);
    assert_eq!(e.chacha_rng.word_pos, 77);
    let st = RngState::of_generator(&rng);
    assert_eq!(st.word_pos, rng.get_word_pos());
}

fn ring_product(p: &[i64], r: &[i64]) -> Vec<i64> {
    let rows = build_negacyclic_matrix(p).to_rows();
    rows.iter()
        .map(|row| {
            let s: i128 = row.iter().zip(r).map(|(a, b)| *a as i128 * *b as i128).sum();
            (s.rem_euclid(MODULUS as i128)) as i64
        })
        .collect()
}

#[test]
fn negacyclic_products_commute() {
    let p = vec![3i64, 0, 12288, 7];
    let r = vec![1i64, 5, 2, 12000];
    assert_eq!(ring_product(&p, &r), ring_product(&r, &p));
    // (1 + X) * X^3 = X^3 + X^4 = X^3 - 1 in Z_q[X]/(X^4 + 1).
    assert_eq!(ring_product(&[1, 1, 0, 0], &[0, 0, 0, 1]), vec![MODULUS - 1, 0, 0, 1]);
}

fn seeded_engine(b: u8) -> QuantumEngine {
    QuantumEngine::new(ChaCha20Rng::from_seed([b; 32]))
}

#[test]
fn sealing_payloads_in_text_mode() {
    let mut st = SessionState::new();
    st.input_real = "héllo".to_string();
    st.input_decoy_text = "cover".to_string();
    let mut engine = seeded_engine(11);
    let (real, ext, decoy, dext) =
        st.sealing_payloads(&mut engine, vec![9], Some("pdf".to_string()), vec![8], None);
    assert_eq!(real, "héllo".as_bytes());
    assert_eq!(ext, "txt");
    assert_eq!(dext, "txt");
    // No decoy passphrase: the decoy is noise drawn from the generator,
    // as long as the real payload.
    let mut rng = ChaCha20Rng::from_seed([11u8; 32]);
    let expected: Vec<u8> = (0..real.len()).map(|_| rng.gen_range(0..256i64) as u8).collect();
    assert_eq!(decoy, expected);
    assert_eq!(engine.chacha_rng.word_pos, rng.get_word_pos());
    // The decoy switch alone, without a passphrase, still seals noise.
    st.use_decoy = true;
    let (_, _, decoy2, _) = st.sealing_payloads(&mut engine, Vec::new(), None, Vec::new(), None);
    assert_eq!(decoy2.len(), real.len());
    assert_ne!(decoy2, b"cover");
    st.decoy_passphrase = "d".to_string();
    let before = engine.chacha_rng.word_pos;
    let (_, _, decoy3, _) = st.sealing_payloads(&mut engine, Vec::new(), None, Vec::new(), None);
    assert_eq!(decoy3, b"cover");
    assert_eq!(engine.chacha_rng.word_pos, before);
}

#[test]
fn sealing_payloads_in_file_mode() {
    let mut st = SessionState::new();
    st.input_mode = InputMode::File;
    let mut engine = seeded_engine(12);
    let (real, ext, decoy, dext) = st.sealing_payloads(
        &mut engine,
        vec![1, 2, 3],
        Some("pdf".to_string()),
        vec![4],
        Some("zip".to_string()),
    );
    assert_eq!(real, vec![1, 2, 3]);
    assert_eq!(ext, "pdf");
    assert_eq!(decoy.len(), 3);
    assert_eq!(dext, "zip");
    st.use_decoy = true;
    st.decoy_passphrase = "d".to_string();
    let (_, ext, decoy, dext) = st.sealing_payloads(&mut engine, vec![1], None, vec![4], None);
    assert_eq!(ext, "bin");
    assert_eq!(decoy, vec![4]);
    assert_eq!(dext, "txt");
}

#[test]
fn target_key_by_mode() {
    let mut st = SessionState::new();
    st.real_passphrase = "mine".to_string();
    let pk = st.target_key().unwrap();
    let (expected, _) = derive_keypair_from_passphrase("mine");
    assert_eq!(pk.public_seed, expected.public_seed);
    st.target_mode = TargetMode::Contact;
    st.contact_pub_key_bytes = "garbage".to_string();
    assert_eq!(st.target_key().err(), Some("ERROR: Corrupted contact key.".to_string()));
    st.contact_pub_key_bytes = expected.to_text();
    assert_eq!(st.target_key().unwrap().b, expected.b);
}

#[test]
fn sealed_request_opens_to_real_and_decoy() {
    let mut st = SessionState::new();
    st.real_passphrase = "real phrase".to_string();
    st.input_real = "the real thing".to_string();
    st.input_decoy_text = "nothing here".to_string();
    st.use_decoy = true;
    st.decoy_passphrase = "decoy phrase".to_string();
    let pk = st.target_key().unwrap();
    let mut engine = seeded_engine(13);
    let capsule = st.seal_request(&mut engine, &pk, Vec::new(), None, Vec::new(), None);
    let (data, ext) = engine.decrypt_blind(&capsule, "real phrase").unwrap();
    assert_eq!(data, b"the real thing");
    assert_eq!(ext, "txt");
    let (data, _) = engine.decrypt_blind(&capsule, "decoy phrase").unwrap();
    assert_eq!(data, b"nothing here");
    // Without a decoy passphrase slot beta holds noise for a ghost identity.
    st.decoy_passphrase.clear();
    let capsule = st.seal_request(&mut engine, &pk, Vec::new(), None, Vec::new(), None);
    assert_eq!(capsule.block_alpha.len(), capsule.block_beta.len());
    assert!(engine.decrypt_blind(&capsule, "decoy phrase").is_err());
}

#[test]
fn worker_reports_and_export_name() {
    match capsule_save_report("/out/a.diegox", Ok(())) {
        WorkerResult::EncryptionSuccess(m) => assert_eq!(m, "SUCCESS: CAPSULE SAVED TO /out/a.diegox"),
        _ => panic!("expected a success report"),
    }
    match capsule_save_report("/out/a.diegox", Err("disk full".to_string())) {
        WorkerResult::Failure(m) => assert_eq!(m, "ERROR WRITING CAPSULE: disk full"),
        _ => panic!("expected a failure report"),
    }
    match extracted_save_report("/out/b.txt", Ok(())) {
        WorkerResult::EncryptionSuccess(m) => assert_eq!(m, "SUCCESS: EXTRACTED FILE SAVED TO /out/b.txt"),
        _ => panic!("expected a success report"),
    }
    match extracted_save_report("/out/b.txt", Err("denied".to_string())) {
        WorkerResult::Failure(m) => assert_eq!(m, "ERROR WRITING EXTRACTED FILE: denied"),
        _ => panic!("expected a failure report"),
    }
    let mut st = SessionState::new();
    st.decrypted_ext_output = "pdf".to_string();
    assert_eq!(st.extracted_file_name(Some("vault".to_string())), "vault_unsealed.pdf");
    assert_eq!(st.extracted_file_name(None), "extracted_payload_unsealed.pdf");
}

#[test]
fn decoy_key_equal_to_real_key_opens_the_real_slot() {
    let phrase = "one key for both";
    let (pk, _) = derive_keypair_from_passphrase(phrase);
    let mut engine = QuantumEngine::new(ChaCha20Rng::from_seed([8u8; 32]));
    let capsule = engine.encrypt_dual(&pk, b"real", "txt", Some(&pk), b"decoy", "txt");
    let (data, _) = engine.decrypt_blind(&capsule, phrase).unwrap();
    assert_eq!(data, b"real");
}
