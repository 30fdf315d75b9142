use crypt_core::encryption::{compress, compute_hash, decompress, decrypt, encrypt, generate_seeds};
use crypt_core::error::{CoreError, EncryptionError, FcError};
use crypt_core::filecrypt::{
    create_file_crypt, crypt_file_name, decrypt_contents, numbered_file, decrypt_file, do_file_encryption, encrypt_file, generate_uuid,
    get_file_info, get_uuid, prepend_uuid, prepend_uuid_to_contents, split_file_name, FileCrypt, UUID_LEN,
};

#[test]
fn test_get_uuid() {
    let contents: Vec<u8> = vec![
        1, 2, 3, 4, 5, 1, 2, 3, 4, 5, 1, 2, 3, 4, 5, 1, 2, 3, 4, 5, 1, 2, 3, 4, 5, 1, 2, 3, 4,
        5, 1, 2, 3, 4, 5, 1, 2, 3, 4, 5,
    ];
    let uuid_test: String = String::from_utf8(vec![
        1, 2, 3, 4, 5, 1, 2, 3, 4, 5, 1, 2, 3, 4, 5, 1, 2, 3, 4, 5, 1, 2, 3, 4, 5, 1, 2, 3, 4,
        5, 1, 2, 3, 4, 5, 1,
    ])
    .unwrap();
    let (uuid, _) = get_uuid(&contents).unwrap();
    assert_eq!(uuid, uuid_test);
}

#[test]
fn get_uuid_returns_the_rest() {
    let mut contents: Vec<u8> = b"550e8400-e29b-41d4-a716-446655440000".to_vec();
    contents.extend_from_slice(&[9, 8, 7]);
    let (uuid, rest) = get_uuid(&contents).unwrap();
    assert_eq!(uuid, "550e8400-e29b-41d4-a716-446655440000");
    assert_eq!(rest, vec![9, 8, 7]);
}

#[test]
fn get_uuid_rejects_short_contents() {
    let contents = vec![0u8; 35];
    assert!(matches!(get_uuid(&contents), Err(FcError::UuidError)));
}

#[test]
fn get_uuid_replaces_invalid_utf8() {
    let mut contents = vec![0xffu8];
    contents.extend_from_slice(&[b'a'; 35]);
    let (uuid, rest) = get_uuid(&contents).unwrap();
    let mut expected = String::from("\u{fffd}");
    expected.push_str(&"a".repeat(35));
    assert_eq!(uuid, expected);
    assert!(rest.is_empty());
}

#[test]
fn prepend_uuid_frames_and_keeps_contents() {
    let mut encrypted_data = vec![1u8, 2, 3];
    let uuid = "550e8400-e29b-41d4-a716-446655440000";
    let result = prepend_uuid(uuid, &mut encrypted_data);
    assert_eq!(result.len(), encrypted_data.len() + 36);
    assert_eq!(&result[0..36], uuid.as_bytes());
    assert_eq!(&result[36..], encrypted_data.as_slice());
}

#[test]
fn prepend_then_get_uuid_round_trips() {
    let uuid = generate_uuid();
    let mut contents = vec![42u8; 100];
    prepend_uuid_to_contents(&uuid, &mut contents);
    let (read, rest) = get_uuid(&contents).unwrap();
    assert_eq!(read, uuid);
    assert_eq!(rest, vec![42u8; 100]);
}

#[test]
fn generated_uuid_is_hyphenated_text() {
    let uuid = generate_uuid();
    assert_eq!(uuid.len(), UUID_LEN);
    assert_eq!(uuid.as_bytes()[8], b'-');
    assert_eq!(uuid.as_bytes()[14], b'7');
    for (i, c) in uuid.bytes().enumerate() {
        if i == 8 || i == 13 || i == 18 || i == 23 {
            assert_eq!(c, b'-');
        } else {
            assert!(c.is_ascii_digit() || (b'a'..=b'f').contains(&c));
        }
    }
    assert!(matches!(uuid.as_bytes()[19], b'8' | b'9' | b'a' | b'b'));
    let stamp = u64::from_str_radix(&format!("{}{}", &uuid[0..8], &uuid[9..13]), 16).unwrap();
    assert!(stamp > 1_600_000_000_000);
}

#[test]
fn compute_hash_of_empty_is_blake2s_256() {
    let hash = compute_hash(&[]);
    let hex: String = hash.iter().map(|b| format!("{:02x}", b)).collect();
    assert_eq!(hex, "69217a3079908094e11121d042354a7c1f55b6482ca1a51e1b250dfd1ed0eef9");
}

#[test]
fn compress_decompress_round_trips() {
    let data = b"The Project Gutenberg eBook of Dracula, The Project Gutenberg eBook of Dracula".to_vec();
    let compressed = compress(&data, 3);
    assert_ne!(compressed, data);
    assert_eq!(decompress(&compressed).unwrap(), data);
}

#[test]
fn decompress_rejects_garbage() {
    assert!(matches!(decompress(b"not a zstd frame"), Err(EncryptionError::DecompressionError(_))));
}

#[test]
fn encrypt_decrypt_round_trips() {
    let fc = create_file_crypt("a".to_string(), ".txt".to_string(), "/tmp/a.txt".to_string(), b"hello");
    let sealed = encrypt(&fc, b"hello").unwrap();
    assert_eq!(sealed.len(), 5 + 16);
    assert_ne!(&sealed[..5], b"hello");
    assert_eq!(decrypt(fc.clone(), &sealed).unwrap(), b"hello".to_vec());
}

#[test]
fn decrypt_rejects_tampered_ciphertext() {
    let fc = create_file_crypt("a".to_string(), ".txt".to_string(), "/tmp/a.txt".to_string(), b"hello");
    let mut sealed = encrypt(&fc, b"hello").unwrap();
    sealed[0] ^= 1;
    assert!(matches!(decrypt(fc, &sealed), Err(EncryptionError::ChaChaError(_))));
}

#[test]
fn seeds_differ_between_calls() {
    let (k1, n1) = generate_seeds();
    let (k2, n2) = generate_seeds();
    assert!(k1 != k2 || n1 != n2);
}

#[test]
fn create_file_crypt_records_the_file() {
    let fc = create_file_crypt("notes".to_string(), ".md".to_string(), "/home/u/notes.md".to_string(), b"abc");
    assert_eq!(fc.filename, "notes");
    assert_eq!(fc.ext, ".md");
    assert_eq!(fc.full_path, "/home/u/notes.md");
    assert_eq!(fc.drive_id, "");
    assert_eq!(fc.hash, compute_hash(b"abc"));
    assert_eq!(fc.uuid.len(), 36);
}

#[test]
fn encrypt_file_then_decrypt_contents_round_trips() {
    let contents = b"some secret contents, some secret contents".to_vec();
    let (fc, encrypted) = encrypt_file("/x/f.txt".to_string(), "f".to_string(), ".txt".to_string(), &contents, 3);
    assert_eq!(&encrypted[..36], fc.uuid.as_bytes());
    let decrypted = decrypt_contents(fc.clone(), encrypted.clone()).unwrap();
    assert_eq!(decrypted, contents);
    let again = decrypt_file(fc, &encrypted).unwrap();
    assert_eq!(again, contents);
}

#[test]
fn do_file_encryption_round_trips() {
    let contents = vec![7u8; 1000];
    let (fc, encrypted) =
        do_file_encryption("/x/g.bin".to_string(), "g".to_string(), ".bin".to_string(), &contents, -7).unwrap();
    assert_eq!(decrypt_file(fc, &encrypted).unwrap(), contents);
}

#[test]
fn decrypt_file_reports_a_hash_mismatch() {
    let contents = b"payload".to_vec();
    let (mut fc, encrypted) = encrypt_file("/p".to_string(), "p".to_string(), ".x".to_string(), &contents, 3);
    let recorded = fc.hash;
    fc.hash = [0u8; 32];
    match decrypt_file(fc, &encrypted) {
        Err(CoreError::FcError(FcError::HashFail(expected, computed))) => {
            assert_eq!(expected, [0u8; 32]);
            assert_eq!(computed, recorded);
        }
        _ => panic!("expected a hash failure"),
    }
}

#[test]
fn decrypt_file_rejects_a_short_file() {
    let fc = create_file_crypt("a".to_string(), ".b".to_string(), "/a.b".to_string(), b"");
    assert!(matches!(decrypt_file(fc, &[1, 2, 3]), Err(CoreError::FcError(FcError::UuidError))));
}

#[test]
fn decrypt_file_rejects_a_foreign_key() {
    let contents = b"payload".to_vec();
    let (_, encrypted) = encrypt_file("/p".to_string(), "p".to_string(), ".x".to_string(), &contents, 3);
    let other: FileCrypt = create_file_crypt("p".to_string(), ".x".to_string(), "/p".to_string(), &contents);
    assert!(matches!(decrypt_file(other, &encrypted), Err(CoreError::EncryptionError(EncryptionError::ChaChaError(_)))));
}

#[test]
fn split_file_name_splits_at_the_first_dot() {
    let (name, ext) = split_file_name("archive.tar.gz");
    assert_eq!(name, "archive");
    assert_eq!(ext, ".tar.gz");
    let (name, ext) = split_file_name(".hidden");
    assert_eq!(name, "");
    assert_eq!(ext, ".hidden");
}

#[test]
fn get_file_info_keeps_the_paths() {
    let (fp, parent, name, ext) = get_file_info("/a/b/file.txt".to_string(), "/a/b".to_string(), "file.txt");
    assert_eq!(fp, "/a/b/file.txt");
    assert_eq!(parent, "/a/b");
    assert_eq!(name, "file");
    assert_eq!(ext, ".txt");
}

#[test]
fn crypt_file_names() {
    assert_eq!(crypt_file_name("notes", &None), "notes.crypt");
    assert_eq!(crypt_file_name("notes", &Some("docs".to_string())), "docs/notes.crypt");
}

#[test]
fn default_record_is_empty() {
    let fc = FileCrypt::default();
    assert_eq!(fc.uuid, "");
    assert_eq!(fc.full_path, "");
    assert_eq!(fc.key, [0u8; 32]);
    assert_eq!(fc.nonce, [0u8; 12]);
    assert_eq!(fc.hash, [0u8; 32]);
}

#[test]
fn numbered_files() {
    assert_eq!(numbered_file("/home/u/crypt/decrypted", "notes", 0, ".md"), "/home/u/crypt/decrypted/notes-decrypted.md");
    assert_eq!(numbered_file("/home/u/crypt/decrypted", "notes", 12, ".md"), "/home/u/crypt/decrypted/notes-decrypted(12).md");
}
