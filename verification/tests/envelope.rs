use secure_storage_backend::envelope::{
    plaintext_or_failure, DecryptError, KeyEncryptionKey, SealError, SealMaterial, IV_LENGTH,
    KEY_LENGTH, TAG_LENGTH, WRAPPED_KEY_LENGTH,
};
use secure_storage_backend::models::File;

fn kek(fill: u8) -> KeyEncryptionKey {
    KeyEncryptionKey::new(vec![fill; KEY_LENGTH]).unwrap()
}

#[test]
fn cipher_lengths() {
    assert_eq!(KEY_LENGTH, 32);
    assert_eq!(IV_LENGTH, 12);
    assert_eq!(TAG_LENGTH, 16);
    assert_eq!(WRAPPED_KEY_LENGTH, 60);
}

#[test]
fn key_encryption_key_must_be_thirty_two_bytes() {
    assert!(KeyEncryptionKey::new(vec![0; 32]).is_some());
    assert!(KeyEncryptionKey::new(vec![0; 31]).is_none());
    assert!(KeyEncryptionKey::new(vec![0; 33]).is_none());
    assert!(KeyEncryptionKey::new(Vec::new()).is_none());
}

#[test]
fn seal_material_checks_its_lengths() {
    assert!(SealMaterial::new(vec![0; 32], vec![0; 12], vec![0; 12]).is_some());
    assert!(SealMaterial::new(vec![0; 31], vec![0; 12], vec![0; 12]).is_none());
    assert!(SealMaterial::new(vec![0; 32], vec![0; 11], vec![0; 12]).is_none());
    assert!(SealMaterial::new(vec![0; 32], vec![0; 12], vec![0; 13]).is_none());
    assert!(SealMaterial::generate().is_some());
}

#[test]
fn open_returns_what_was_sealed() {
    let kek = kek(7);
    for plaintext in [&b""[..], &b"x"[..], &b"attack at dawn"[..], &[0u8; 4096][..]] {
        let file = File::seal(plaintext, String::from("notes.txt"), Some(42), &kek).unwrap();
        assert_eq!(file.open(&kek), Ok(plaintext.to_vec()));
    }
}

#[test]
fn seal_records_the_metadata() {
    let kek = kek(7);
    let file = File::seal(b"attack at dawn", String::from("notes.txt"), Some(42), &kek).unwrap();
    assert_eq!(file.file_name, "notes.txt");
    assert_eq!(file.user_id, Some(42));
    assert_eq!(file.file_size, 14);
    assert_eq!(file.iv.len(), IV_LENGTH);
    assert_eq!(file.encrypted_aes_key.len(), WRAPPED_KEY_LENGTH);
    assert_eq!(file.encrypted_file.len(), 14 + TAG_LENGTH);
    assert!(file.is_complete());
    let orphan = File::seal(b"", String::new(), None, &kek).unwrap();
    assert_eq!(orphan.user_id, None);
    assert_eq!(orphan.file_size, 0);
    assert_eq!(orphan.encrypted_file.len(), TAG_LENGTH);
    assert!(orphan.is_complete());
}

#[test]
fn seal_does_not_store_the_plaintext() {
    let kek = kek(7);
    let plaintext = b"attack at dawn, attack at dawn, attack at dawn";
    let file = File::seal(plaintext, String::from("notes.txt"), None, &kek).unwrap();
    assert_ne!(&file.encrypted_file[..plaintext.len()], &plaintext[..]);
}

#[test]
fn two_seals_of_one_plaintext_differ() {
    let kek = kek(7);
    let first = File::seal(b"same bytes", String::from("a"), Some(1), &kek).unwrap();
    let second = File::seal(b"same bytes", String::from("a"), Some(1), &kek).unwrap();
    assert_ne!(first.iv, second.iv);
    assert_ne!(first.encrypted_aes_key, second.encrypted_aes_key);
    assert_ne!(first.encrypted_file, second.encrypted_file);
    assert_ne!(first.id, second.id);
    assert_eq!(first.open(&kek), Ok(b"same bytes".to_vec()));
    assert_eq!(second.open(&kek), Ok(b"same bytes".to_vec()));
}

#[test]
fn name_and_size_take_no_part_in_the_encryption() {
    let kek = kek(7);
    let make = || SealMaterial::new(vec![1; 32], vec![2; 12], vec![3; 12]).unwrap();
    let a = File::seal_with(b"payload", String::from("a.txt"), Some(1), &kek, 10, 100, make())
        .unwrap();
    let b = File::seal_with(b"payload", String::from("b.bin"), None, &kek, 11, 200, make())
        .unwrap();
    assert_eq!(a.encrypted_file, b.encrypted_file);
    assert_eq!(a.encrypted_aes_key, b.encrypted_aes_key);
    assert_eq!(a.iv, b.iv);
    let mut renamed = a.clone();
    renamed.file_name = String::from("other");
    renamed.file_size = 0;
    assert_eq!(renamed.open(&kek), Ok(b"payload".to_vec()));
}

#[test]
fn seal_with_uses_the_identifier_instant_and_iv_given() {
    let kek = kek(7);
    let material = SealMaterial::new(vec![1; 32], vec![2; 12], vec![3; 12]).unwrap();
    let file =
        File::seal_with(b"payload", String::from("a.txt"), Some(1), &kek, 10, 100, material)
            .unwrap();
    assert_eq!(file.id, 10);
    assert_eq!(file.created_at, 100);
    assert_eq!(file.iv, vec![2; 12]);
    assert_eq!(&file.encrypted_aes_key[..12], &[3u8; 12][..]);
    assert_eq!(file.file_size, 7);
    assert_eq!(file.open(&kek), Ok(b"payload".to_vec()));
}

#[test]
fn aes_256_gcm_known_answers() {
    // Zero key, zero IV: the empty plaintext gives the bare tag, and one
    // block of zeros gives one block of ciphertext and its tag.
    let zero_kek = kek(0);
    let material = SealMaterial::new(vec![0; 32], vec![0; 12], vec![0; 12]).unwrap();
    let empty = File::seal_with(b"", String::new(), None, &zero_kek, 1, 0, material).unwrap();
    assert_eq!(
        empty.encrypted_file,
        vec![
            0x53, 0x0f, 0x8a, 0xfb, 0xc7, 0x45, 0x36, 0xb9, 0xa9, 0x63, 0xb4, 0xf1, 0xc4, 0xcb,
            0x73, 0x8b
        ]
    );
    let material = SealMaterial::new(vec![0; 32], vec![0; 12], vec![0; 12]).unwrap();
    let block = File::seal_with(&[0u8; 16], String::new(), None, &zero_kek, 2, 0, material)
        .unwrap();
    assert_eq!(
        block.encrypted_file,
        vec![
            0xce, 0xa7, 0x40, 0x3d, 0x4d, 0x60, 0x6b, 0x6e, 0x07, 0x4e, 0xc5, 0xd3, 0xba, 0xf3,
            0x9d, 0x18, 0xd0, 0xd1, 0xc8, 0xa7, 0x99, 0x99, 0x6b, 0xf0, 0x26, 0x5b, 0x98, 0xb5,
            0xd4, 0x8a, 0xb9, 0x19
        ]
    );
}

#[test]
fn open_under_another_key_fails_to_unwrap() {
    let file = File::seal(b"attack at dawn", String::from("n"), None, &kek(7)).unwrap();
    assert_eq!(file.open(&kek(8)), Err(DecryptError::KeyUnwrapFailure));
}

#[test]
fn open_with_a_tampered_wrapped_key_fails_to_unwrap() {
    let kek = kek(7);
    let mut file = File::seal(b"attack at dawn", String::from("n"), None, &kek).unwrap();
    file.encrypted_aes_key[20] ^= 1;
    assert_eq!(file.open(&kek), Err(DecryptError::KeyUnwrapFailure));
    file.encrypted_aes_key.truncate(5);
    assert_eq!(file.open(&kek), Err(DecryptError::KeyUnwrapFailure));
    file.encrypted_aes_key.clear();
    assert_eq!(file.open(&kek), Err(DecryptError::KeyUnwrapFailure));
}

#[test]
fn open_with_a_tampered_ciphertext_fails_to_decrypt() {
    let kek = kek(7);
    let mut file = File::seal(b"attack at dawn", String::from("n"), None, &kek).unwrap();
    file.encrypted_file[0] ^= 1;
    assert_eq!(file.open(&kek), Err(DecryptError::DecryptionFailure));
    file.encrypted_file.clear();
    assert_eq!(file.open(&kek), Err(DecryptError::DecryptionFailure));
}

#[test]
fn open_with_a_tampered_iv_fails_to_decrypt() {
    let kek = kek(7);
    let mut file = File::seal(b"attack at dawn", String::from("n"), None, &kek).unwrap();
    file.iv[0] ^= 1;
    assert_eq!(file.open(&kek), Err(DecryptError::DecryptionFailure));
    file.iv.pop();
    assert_eq!(file.open(&kek), Err(DecryptError::DecryptionFailure));
}

#[test]
fn open_with_key_takes_the_unwrapped_key() {
    let kek = kek(7);
    let material = SealMaterial::new(vec![1; 32], vec![2; 12], vec![3; 12]).unwrap();
    let file =
        File::seal_with(b"payload", String::from("a"), None, &kek, 1, 0, material).unwrap();
    assert_eq!(file.open_with_key(Some(vec![1; 32])), Ok(b"payload".to_vec()));
    assert_eq!(file.open_with_key(None), Err(DecryptError::KeyUnwrapFailure));
    assert_eq!(file.open_with_key(Some(vec![1; 31])), Err(DecryptError::KeyUnwrapFailure));
    assert_eq!(file.open_with_key(Some(vec![9; 32])), Err(DecryptError::DecryptionFailure));
}

#[test]
fn wrap_then_unwrap_returns_the_key() {
    let kek = kek(7);
    let key = vec![5u8; 32];
    let wrapped = kek.wrap_key(&key, &[9u8; 12]).unwrap();
    assert_eq!(wrapped.len(), WRAPPED_KEY_LENGTH);
    assert_eq!(&wrapped[..12], &[9u8; 12][..]);
    assert_ne!(&wrapped[12..44], &key[..]);
    assert_eq!(kek.unwrap_key(&wrapped), Some(key));
    assert_eq!(kek.wrap_key(&[5u8; 31], &[9u8; 12]), None);
    assert_eq!(kek.wrap_key(&[5u8; 32], &[9u8; 11]), None);
    assert_eq!(kek.unwrap_key(&[0u8; 11]), None);
    assert_eq!(kek.unwrap_key(&[0u8; 60]), None);
}

#[test]
fn unwrap_refuses_a_wrapped_value_that_is_no_key() {
    // Sixteen bytes wrapped under the key-encryption key authenticate, but
    // are not a file key.
    let kek = kek(7);
    let material = SealMaterial::new(vec![7; 32], vec![4; 12], vec![4; 12]).unwrap();
    let other = KeyEncryptionKey::new(vec![1; 32]).unwrap();
    let file = File::seal_with(&[5u8; 16], String::new(), None, &other, 1, 0, material).unwrap();
    let mut blob = file.iv.clone();
    blob.extend_from_slice(&file.encrypted_file);
    assert_eq!(kek.unwrap_key(&blob), None);
}

#[test]
fn a_failed_decryption_hands_out_nothing() {
    assert_eq!(plaintext_or_failure(None), Err(DecryptError::DecryptionFailure));
    assert_eq!(plaintext_or_failure(Some(vec![1, 2, 3])), Ok(vec![1, 2, 3]));
}

#[test]
fn seal_errors_are_distinct() {
    assert_ne!(SealError::RandomnessUnavailable, SealError::EncryptionFailure);
}

#[test]
fn material_needs_every_draw() {
    let draw = |n: usize| Some(vec![9u8; n]);
    assert!(SealMaterial::from_draws(draw(32), draw(12), draw(12)).is_some());
    assert!(SealMaterial::from_draws(None, draw(12), draw(12)).is_none());
    assert!(SealMaterial::from_draws(draw(32), None, draw(12)).is_none());
    assert!(SealMaterial::from_draws(draw(32), draw(12), None).is_none());
    assert!(SealMaterial::from_draws(None, None, None).is_none());
    assert!(SealMaterial::from_draws(draw(31), draw(12), draw(12)).is_none());
    assert!(SealMaterial::from_draws(draw(32), draw(13), draw(12)).is_none());
    assert!(SealMaterial::from_draws(draw(32), draw(12), draw(11)).is_none());
}

#[test]
fn material_holds_the_bytes_that_were_drawn() {
    let kek = kek(7);
    let drawn =
        SealMaterial::from_draws(Some(vec![1; 32]), Some(vec![2; 12]), Some(vec![3; 12])).unwrap();
    let given = SealMaterial::new(vec![1; 32], vec![2; 12], vec![3; 12]).unwrap();
    let a = File::seal_with(b"payload", String::from("a"), None, &kek, 1, 0, drawn).unwrap();
    let b = File::seal_with(b"payload", String::from("a"), None, &kek, 1, 0, given).unwrap();
    assert_eq!(a.iv, vec![2; 12]);
    assert_eq!(a.encrypted_file, b.encrypted_file);
    assert_eq!(a.encrypted_aes_key, b.encrypted_aes_key);
    assert_eq!(a.open_with_key(Some(vec![1; 32])), Ok(b"payload".to_vec()));
}

#[test]
fn generated_material_differs_from_draw_to_draw() {
    let kek = kek(7);
    let first = SealMaterial::generate().unwrap();
    let second = SealMaterial::generate().unwrap();
    let a = File::seal_with(b"payload", String::from("a"), None, &kek, 1, 0, first).unwrap();
    let b = File::seal_with(b"payload", String::from("a"), None, &kek, 1, 0, second).unwrap();
    assert_ne!(a.iv, b.iv);
    assert_ne!(a.encrypted_aes_key, b.encrypted_aes_key);
    assert_ne!(&a.encrypted_aes_key[..12], &a.iv[..]);
    assert_eq!(a.open(&kek), Ok(b"payload".to_vec()));
    assert_eq!(b.open(&kek), Ok(b"payload".to_vec()));
}
