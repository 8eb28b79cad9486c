use phase1_coordinator::initialization::blank_hash;
use phase1_coordinator::initialization::Initialization;
use phase1_coordinator::keys::decode_ciphertext;
use phase1_coordinator::keys::hex_decode;
use phase1_coordinator::keys::DecryptError;
use phase1_coordinator::objects::AleoSetupKeys;
use phase1_coordinator::params::ceremony_size;
use phase1_coordinator::params::curve_from_str;
use phase1_coordinator::params::log_2;
use phase1_coordinator::params::CurveKind;
use phase1_coordinator::storage::Locator;
use phase1_coordinator::storage::MemoryStorage;
use phase1_coordinator::objects::ContributionLocator;

fn blake2b(bytes: &[u8]) -> Vec<u8> {
    let mut hasher = <blake2::Blake2b512 as blake2::Digest>::new();
    blake2::Digest::update(&mut hasher, bytes);
    blake2::Digest::finalize(hasher).to_vec()
}

#[test]
fn curve_names_are_case_insensitive() {
    assert_eq!(curve_from_str("bls12_377").unwrap(), CurveKind::Bls12_377);
    assert_eq!(curve_from_str("BLS12_377").unwrap(), CurveKind::Bls12_377);
    assert_eq!(curve_from_str("bw6").unwrap(), CurveKind::BW6);
    assert_eq!(curve_from_str("Bw6").unwrap(), CurveKind::BW6);
    assert_eq!(curve_from_str("bn254").unwrap_err(), "unsupported curve.");
}

#[test]
fn log_2_is_the_bit_length() {
    assert_eq!(log_2(1), 1);
    assert_eq!(log_2(2), 2);
    assert_eq!(log_2(3), 2);
    assert_eq!(log_2(8), 4);
    assert_eq!(log_2(255), 8);
}

#[test]
fn ceremony_size_rounds_past_the_next_power() {
    // variables dominate: 1 public + 2 private + 1 = 4; constraints 5
    // win; bit length of 5 is 3, so the size rounds to 2^4
    assert_eq!(ceremony_size(1, 2, 5), 16);
    // the variable count wins here: 7 + 1 = 8, bit length 4, 2^5
    assert_eq!(ceremony_size(3, 4, 2), 32);
    assert_eq!(ceremony_size(0, 0, 1), 4);
}

#[test]
fn hex_decoding_is_exact() {
    assert_eq!(hex_decode("deadBEEF").unwrap(), vec![0xde, 0xad, 0xbe, 0xef]);
    assert_eq!(hex_decode("").unwrap(), Vec::<u8>::new());
    assert!(hex_decode("abc").is_none());
    assert!(hex_decode("zz").is_none());
    // the library's decoder agrees with the transport encoding in use
    assert_eq!(hex_decode("0a0b0c").unwrap(), hex::decode("0a0b0c").unwrap());
}

#[test]
fn ciphertext_must_be_hex() {
    assert_eq!(decode_ciphertext("00ff").unwrap(), vec![0, 255]);
    assert_eq!(
        decode_ciphertext("not hex").unwrap_err(),
        DecryptError::InvalidCiphertextEncoding
    );
}

#[test]
fn setup_keys_hold_their_fields() {
    let keys = AleoSetupKeys {
        encrypted_seed: String::from("00aa"),
        encrypted_private_key: String::from("11bb"),
    };
    assert_eq!(hex_decode(&keys.encrypted_seed).unwrap(), vec![0x00, 0xaa]);
    assert_eq!(hex_decode(&keys.encrypted_private_key).unwrap(), vec![0x11, 0xbb]);
}

#[test]
fn initialization_writes_and_copies_the_challenge() {
    let mut storage = MemoryStorage::new();
    let params = vec![1u8, 2, 3];
    let hash = Initialization::run(&mut storage, 1, 0, &params).expect("initialization succeeds");

    let mut expected = blank_hash();
    expected.extend_from_slice(&params);

    let current = Locator::ContributionFile(ContributionLocator::new(1, 0, 0, true));
    let next = Locator::ContributionFile(ContributionLocator::new(2, 0, 0, true));
    assert_eq!(storage.reader(&current).unwrap(), &expected);
    assert_eq!(storage.reader(&next).unwrap(), &expected);
    // the returned digest is the transcript digest of the challenge
    assert_eq!(hash, blake2b(&expected));
    // and the blank hash really is the digest of nothing
    assert_eq!(blank_hash(), blake2b(b""));
}

#[test]
fn storage_round_trip_is_byte_identical() {
    let mut storage = MemoryStorage::new();
    let loc = Locator::ContributionFile(ContributionLocator::new(3, 1, 2, false));
    storage.write(loc, vec![9, 8, 7]);
    assert_eq!(storage.reader(&loc).unwrap(), &vec![9, 8, 7]);
    // a second write replaces the object
    storage.write(loc, vec![1]);
    assert_eq!(storage.reader(&loc).unwrap(), &vec![1]);
    // other locators are untouched
    let other = Locator::ContributionFile(ContributionLocator::new(3, 1, 2, true));
    assert!(storage.reader(&other).is_none());
    // copy overwrites the destination with the source
    assert!(storage.copy(&loc, other).is_ok());
    assert_eq!(storage.reader(&other).unwrap(), &vec![1]);
}

/// Initialization across every chunk: each generated challenge starts
/// with the blank hash, and every chunk's challenge digest matches the
/// digest the run reported — and, with identical parameters, each
/// other's.
#[test]
fn test_initialization_run() {
    let round_height = 0u64;
    let number_of_chunks = 2u64;
    let mut storage = MemoryStorage::new();
    let params = vec![255u8; 64];

    let mut previous_contribution_hash: Option<Vec<u8>> = None;
    for chunk_id in 0..number_of_chunks {
        let candidate_hash =
            Initialization::run(&mut storage, round_height, chunk_id, &params).unwrap();

        let locator =
            Locator::ContributionFile(ContributionLocator::new(round_height, chunk_id, 0, true));
        let reader = storage.reader(&locator).unwrap();

        // the contribution chunk was generated based on the blank hash
        let hash = blank_hash();
        for (expected, candidate) in hash.iter().zip(reader.iter().take(64)) {
            assert_eq!(expected, candidate);
        }

        // the challenge digest matches what the run reported
        let contribution_hash = blake2b(reader);
        assert_eq!(contribution_hash, candidate_hash);
        // with identical parameters every chunk digests identically
        match &previous_contribution_hash {
            None => previous_contribution_hash = Some(contribution_hash),
            Some(previous) => {
                assert_eq!(previous, &contribution_hash);
                previous_contribution_hash = Some(contribution_hash);
            },
        }
    }
}
