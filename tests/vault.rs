use vessel::common::{check_token, database_path};
use vessel::crypto::wipe_keys;
use vessel::error::Error;
use vessel::vault::{
    copy_pass, create_file, create_file_with, del_pass, open_records, upsert_content,
    upsert_content_with, HEADER_LEN,
};

#[test]
fn create_database_is_76_bytes() {
    let file = create_file("vault", "hunter2", false).unwrap();
    assert_eq!(file.len(), 76);
    assert_ne!(&file[HEADER_LEN..HEADER_LEN + 9], b"veas file");
    assert_eq!(open_records(&file, "hunter2").unwrap(), b"veas file".to_vec());
}

#[test]
fn create_collision_is_refused() {
    assert_eq!(
        create_file("vault", "hunter2", true),
        Err(Error::AlreadyExists("vault".to_string()))
    );
}

#[test]
fn create_with_fixed_header_is_deterministic() {
    let a = create_file_with("vault", "hunter2", false, vec![7u8; 32], vec![9u8; 19]).unwrap();
    let b = create_file_with("vault", "hunter2", false, vec![7u8; 32], vec![9u8; 19]).unwrap();
    assert_eq!(a, b);
    assert_eq!(&a[..32], &[7u8; 32][..]);
    assert_eq!(&a[32..51], &[9u8; 19][..]);
}

#[test]
fn set_then_get_gives_generated_secret() {
    let file = create_file("vault", "hunter2", false).unwrap();
    let file = upsert_content(&file, "hunter2", "alice", 12).unwrap();
    assert_eq!(file.len(), 95);
    let secret = copy_pass(&file, "alice", "hunter2").unwrap().unwrap();
    assert_eq!(secret.len(), 12);
    assert!(secret.iter().all(|b| b.is_ascii_alphanumeric()));
}

#[test]
fn upsert_twice_keeps_one_record() {
    let file = create_file_with("vault", "hunter2", false, vec![1u8; 32], vec![2u8; 19]).unwrap();
    let file = upsert_content_with(&file, "hunter2", "alice", "one").unwrap();
    let file = upsert_content_with(&file, "hunter2", "alice", "two").unwrap();
    assert_eq!(open_records(&file, "hunter2").unwrap(), b"veas file\nalice|two".to_vec());
}

#[test]
fn wrong_passphrase_on_get() {
    let file = create_file("vault", "hunter2", false).unwrap();
    assert_eq!(copy_pass(&file, "alice", "wrong-pass"), Err(Error::Authentication));
}

#[test]
fn wrong_passphrase_on_set_and_delete() {
    let file = create_file("vault", "hunter2", false).unwrap();
    assert_eq!(upsert_content(&file, "wrong-pass", "alice", 12), Err(Error::Authentication));
    assert_eq!(del_pass(&file, "bob", "wrong-pass"), Err(Error::Authentication));
}

#[test]
fn delete_missing_leaves_file_unchanged() {
    let file = create_file("vault", "hunter2", false).unwrap();
    let (once, found1) = del_pass(&file, "bob", "hunter2").unwrap();
    assert!(!found1);
    assert_eq!(once, file);
    let (twice, found2) = del_pass(&once, "bob", "hunter2").unwrap();
    assert!(!found2);
    assert_eq!(twice, file);
}

#[test]
fn delete_existing_record() {
    let file = create_file_with("vault", "hunter2", false, vec![3u8; 32], vec![4u8; 19]).unwrap();
    let file = upsert_content_with(&file, "hunter2", "alice", "pw").unwrap();
    let (file, found) = del_pass(&file, "alice", "hunter2").unwrap();
    assert!(found);
    assert_eq!(copy_pass(&file, "alice", "hunter2"), Ok(None));
}

#[test]
fn short_file_has_no_salt() {
    assert_eq!(open_records(&[0u8; 31], "hunter2"), Err(Error::Salt));
}

#[test]
fn short_file_has_no_nonce() {
    assert_eq!(open_records(&[0u8; 50], "hunter2"), Err(Error::Nonce));
    assert_eq!(copy_pass(&[0u8; 40], "alice", "hunter2"), Err(Error::Nonce));
}

#[test]
fn damaged_body_fails_authentication() {
    let mut file = create_file("vault", "hunter2", false).unwrap();
    file[60] ^= 1;
    assert_eq!(open_records(&file, "hunter2"), Err(Error::Authentication));
}

#[test]
fn wipe_keys_empties_buffers() {
    let (mut salt, mut nonce, mut key) = (vec![1u8; 32], vec![2u8; 19], vec![3u8; 32]);
    wipe_keys(&mut salt, &mut nonce, &mut key);
    assert_eq!(salt, vec![0u8; 32]);
    assert_eq!(nonce, vec![0u8; 19]);
    assert_eq!(key, vec![0u8; 32]);
}

#[test]
fn error_messages() {
    assert_eq!(Error::Authentication.message(), "Incorrect password");
    assert_eq!(Error::Salt.message(), "Error reading salt");
    assert_eq!(Error::Nonce.message(), "Error reading nonce");
    assert_eq!(
        Error::AlreadyExists("vault".to_string()).message(),
        "That database already exists: vault"
    );
}

#[test]
fn storage_directory_and_path() {
    assert_eq!(check_token(Some("/data/"), "/home/u"), "/data/");
    assert_eq!(check_token(None, "/home/u"), "/home/u/.local/share/vessel/");
    assert_eq!(database_path("/data/", "vault"), "/data/vault.veas");
}
