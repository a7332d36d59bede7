use quickex::commitment::create_amount_commitment;
use quickex::commitment::verify_amount_commitment;
use quickex::commitment::CommitmentError;
use quickex::commitment::MAX_SALT_LENGTH;
use quickex::encoding::bytes_equal;
use quickex::encoding::encode;
use soroban_sdk::testutils::Address as _;
use soroban_sdk::testutils::EnvTestConfig;
use soroban_sdk::xdr::ToXdr;
use soroban_sdk::Address;
use soroban_sdk::Bytes;
use soroban_sdk::Env;

fn setup() -> Env {
    Env::new_with_config(EnvTestConfig { capture_snapshot_at_drop: false })
}

fn new_owner(env: &Env) -> Vec<u8> {
    Address::generate(env).to_xdr(env).iter().collect()
}

#[test]
fn commitment_test_create_and_verify_commitment_success() {
    let env = setup();
    let owner = new_owner(&env);
    let amount = 1_000_000i128;
    let salt = [1u8, 2, 3, 4, 5];

    let commitment = create_amount_commitment(&env, &owner, amount, &salt).unwrap();

    assert_eq!(commitment.len(), 32);
    assert!(verify_amount_commitment(&env, &commitment, &owner, amount, &salt));
}

#[test]
fn test_verify_with_tampered_amount() {
    let env = setup();
    let owner = new_owner(&env);
    let amount = 1_000_000i128;
    let salt = [1u8, 2, 3, 4, 5];

    let commitment = create_amount_commitment(&env, &owner, amount, &salt).unwrap();

    assert!(!verify_amount_commitment(&env, &commitment, &owner, amount + 1, &salt));
    assert!(!verify_amount_commitment(&env, &commitment, &owner, amount - 1, &salt));
}

#[test]
fn test_verify_with_tampered_salt() {
    let env = setup();
    let owner = new_owner(&env);
    let amount = 1_000_000i128;
    let salt = [1u8, 2, 3, 4, 5];

    let commitment = create_amount_commitment(&env, &owner, amount, &salt).unwrap();

    let tampered_salt = [1u8, 2, 3, 4, 6];
    assert!(!verify_amount_commitment(&env, &commitment, &owner, amount, &tampered_salt));

    let empty_salt: [u8; 0] = [];
    assert!(!verify_amount_commitment(&env, &commitment, &owner, amount, &empty_salt));
}

#[test]
fn test_verify_with_different_owner() {
    let env = setup();
    let owner1 = new_owner(&env);
    let owner2 = new_owner(&env);
    let amount = 1_000_000i128;
    let salt = [1u8, 2, 3, 4, 5];

    let commitment = create_amount_commitment(&env, &owner1, amount, &salt).unwrap();

    assert!(!verify_amount_commitment(&env, &commitment, &owner2, amount, &salt));
}

#[test]
fn test_zero_amount() {
    let env = setup();
    let owner = new_owner(&env);
    let amount = 0i128;
    let salt = [42u8];

    let commitment = create_amount_commitment(&env, &owner, amount, &salt).unwrap();

    assert_eq!(commitment.len(), 32);
    assert!(verify_amount_commitment(&env, &commitment, &owner, amount, &salt));
}

#[test]
fn test_empty_salt() {
    let env = setup();
    let owner = new_owner(&env);
    let amount = 500i128;
    let salt: [u8; 0] = [];

    let commitment = create_amount_commitment(&env, &owner, amount, &salt).unwrap();

    assert_eq!(commitment.len(), 32);
    assert!(verify_amount_commitment(&env, &commitment, &owner, amount, &salt));
}

#[test]
fn test_large_amount() {
    let env = setup();
    let owner = new_owner(&env);
    let amount = i128::MAX;
    let salt = [99u8, 88, 77];

    let commitment = create_amount_commitment(&env, &owner, amount, &salt).unwrap();

    assert_eq!(commitment.len(), 32);
    assert!(verify_amount_commitment(&env, &commitment, &owner, amount, &salt));
}

#[test]
fn test_deterministic_hashing() {
    let env = setup();
    let owner = new_owner(&env);
    let amount = 2_500_000i128;
    let salt = [11u8, 22, 33, 44];

    let commitment1 = create_amount_commitment(&env, &owner, amount, &salt).unwrap();
    let commitment2 = create_amount_commitment(&env, &owner, amount, &salt).unwrap();

    assert_eq!(commitment1, commitment2);
}

#[test]
fn test_salt_length_exceeds_max() {
    let env = setup();
    let owner = new_owner(&env);
    let amount = 1_000i128;
    let oversized_salt = [42u8; 257];

    let r = create_amount_commitment(&env, &owner, amount, &oversized_salt);
    assert_eq!(r, Err(CommitmentError::SaltTooLong));
}

#[test]
fn test_negative_amount() {
    let env = setup();
    let owner = new_owner(&env);
    let amount = -1i128;
    let salt = [1u8, 2, 3];

    let r = create_amount_commitment(&env, &owner, amount, &salt);
    assert_eq!(r, Err(CommitmentError::InvalidAmount));
}

#[test]
fn negative_amount_is_checked_before_salt_length() {
    let env = setup();
    let owner = new_owner(&env);
    let r = create_amount_commitment(&env, &owner, -5, &[0u8; 300]);
    assert_eq!(r, Err(CommitmentError::InvalidAmount));
}

#[test]
fn salt_of_the_largest_length_is_accepted() {
    let env = setup();
    let owner = new_owner(&env);
    let salt = [7u8; 256];
    assert_eq!(MAX_SALT_LENGTH, 256);
    let commitment = create_amount_commitment(&env, &owner, 10, &salt).unwrap();
    assert_eq!(commitment.len(), 32);
    assert!(verify_amount_commitment(&env, &commitment, &owner, 10, &salt));
}

#[test]
fn smallest_and_largest_amounts_are_accepted() {
    let env = setup();
    let owner = new_owner(&env);
    let salt = [1u8];
    assert!(create_amount_commitment(&env, &owner, 0, &salt).is_ok());
    assert!(create_amount_commitment(&env, &owner, i128::MAX, &salt).is_ok());
    assert!(create_amount_commitment(&env, &owner, i128::MIN, &salt).is_err());
}

#[test]
fn verify_rejects_invalid_claims() {
    let env = setup();
    let owner = new_owner(&env);
    let commitment = create_amount_commitment(&env, &owner, 0, &[1u8]).unwrap();
    assert!(!verify_amount_commitment(&env, &commitment, &owner, -1, &[1u8]));
    assert!(!verify_amount_commitment(&env, &commitment, &owner, 0, &[1u8; 257]));
}

#[test]
fn verify_rejects_tampered_digest() {
    let env = setup();
    let owner = new_owner(&env);
    let salt = [9u8, 8, 7];
    let mut commitment = create_amount_commitment(&env, &owner, 77, &salt).unwrap();
    commitment[31] ^= 1;
    assert!(!verify_amount_commitment(&env, &commitment, &owner, 77, &salt));
    assert!(!verify_amount_commitment(&env, &commitment[..31], &owner, 77, &salt));
}

#[test]
fn digest_is_sha256_of_the_encoding() {
    let env = setup();
    let owner = new_owner(&env);
    let salt = [1u8, 2, 3, 4, 5];
    let commitment = create_amount_commitment(&env, &owner, 1_000_000, &salt).unwrap();
    let data = encode(&owner, 1_000_000, &salt);
    let expected = env.crypto().sha256(&Bytes::from_slice(&env, &data)).to_array();
    assert_eq!(commitment, expected.to_vec());
    assert_ne!(commitment, data);
}

#[test]
fn encoding_places_identity_amount_and_salt_in_order() {
    let data = encode(&[0xAA, 0xAB], 1, &[0xBB]);
    let mut expected = vec![0xAA, 0xAB];
    expected.extend_from_slice(&[0u8; 15]);
    expected.push(1);
    expected.push(0xBB);
    assert_eq!(data, expected);

    let big = encode(&[], 0x0102_0304_0506_0708_090A_0B0C_0D0E_0F10, &[]);
    assert_eq!(big, (1u8..=16).collect::<Vec<u8>>());

    let negative = encode(&[], -1, &[]);
    assert_eq!(negative, vec![0xFF; 16]);
}

#[test]
fn bytes_equal_compares_whole_sequences() {
    assert!(bytes_equal(&[], &[]));
    assert!(bytes_equal(&[1, 2, 3], &[1, 2, 3]));
    assert!(!bytes_equal(&[1, 2, 3], &[1, 2, 4]));
    assert!(!bytes_equal(&[1, 2, 3], &[1, 2]));
    assert!(!bytes_equal(&[0, 2, 3], &[1, 2, 3]));
}

#[test]
fn each_input_changes_the_digest() {
    let env = setup();
    let owner1 = new_owner(&env);
    let owner2 = new_owner(&env);
    let base = create_amount_commitment(&env, &owner1, 1_000, &[3, 4, 5, 6]).unwrap();
    let other_owner = create_amount_commitment(&env, &owner2, 1_000, &[3, 4, 5, 6]).unwrap();
    let other_amount = create_amount_commitment(&env, &owner1, 1_001, &[3, 4, 5, 6]).unwrap();
    let other_salt = create_amount_commitment(&env, &owner1, 1_000, &[3, 4, 5, 7]).unwrap();
    let longer_salt = create_amount_commitment(&env, &owner1, 1_000, &[3, 4, 5, 6, 0]).unwrap();
    assert_ne!(base, other_owner);
    assert_ne!(base, other_amount);
    assert_ne!(base, other_salt);
    assert_ne!(base, longer_salt);
}

#[test]
fn end_to_end_commitment_scenario() {
    let env = setup();
    let owner_x = new_owner(&env);
    let owner_y = new_owner(&env);
    let salt = [1u8, 2, 3, 4, 5];
    let d = create_amount_commitment(&env, &owner_x, 1_000_000, &salt).unwrap();
    assert_eq!(d.len(), 32);
    assert!(verify_amount_commitment(&env, &d, &owner_x, 1_000_000, &salt));
    assert!(!verify_amount_commitment(&env, &d, &owner_x, 1_000_001, &salt));
    assert!(!verify_amount_commitment(&env, &d, &owner_y, 1_000_000, &salt));
}
