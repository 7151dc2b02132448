use file_tools::encrypt::{
    age_decrypt, age_decrypt_multi, age_decrypt_passphrase, age_encrypt, age_encrypt_multi,
    age_encrypt_passphrase, age_keygen, age_keygen_secret, is_secret_name, keygen_secret_sql,
    split_csv_trimmed, AgeError,
};

#[test]
fn generated_keys_have_the_documented_prefixes() {
    let (public_key, private_key) = age_keygen();
    assert!(public_key.starts_with("age1"));
    assert!(private_key.starts_with("AGE-SECRET-KEY-1"));
    assert!(!is_secret_name(&public_key));
    assert!(!is_secret_name(&private_key));
    assert!(is_secret_name("my_stored_secret"));
}

#[test]
fn public_key_round_trip_recovers_the_plaintext() {
    let (public_key, private_key) = age_keygen();
    let data = b"attack at dawn".to_vec();
    let encrypted = age_encrypt(&data, &public_key).unwrap();
    let decrypted = age_decrypt(&encrypted, &private_key).unwrap();
    assert_eq!(decrypted, data);
}

#[test]
fn multi_recipient_ciphertext_opens_for_each_identity() {
    let (pk1, sk1) = age_keygen();
    let (pk2, sk2) = age_keygen();
    let data = b"shared message".to_vec();
    let recipients = vec![pk1, pk2];
    let encrypted = age_encrypt_multi(&data, &recipients).unwrap();
    assert_eq!(age_decrypt_multi(&encrypted, &vec![sk1]).unwrap(), data);
    assert_eq!(age_decrypt_multi(&encrypted, &vec![sk2]).unwrap(), data);
}

#[test]
fn empty_and_malformed_key_lists_are_misuse() {
    let data = b"x".to_vec();
    assert_eq!(
        age_encrypt_multi(&data, &Vec::new()),
        Err(AgeError::NoRecipients)
    );
    assert_eq!(
        age_encrypt_multi(&data, &vec!["age1notakey".to_string()]),
        Err(AgeError::InvalidRecipient)
    );
    assert_eq!(
        age_decrypt_multi(&data, &Vec::new()),
        Err(AgeError::NoIdentities)
    );
    assert_eq!(
        age_decrypt_multi(&data, &vec!["AGE-SECRET-KEY-1BAD".to_string()]),
        Err(AgeError::InvalidIdentity)
    );
    // a field that names a stored secret is reported before anything else
    assert_eq!(
        age_encrypt(&data, "stored_secret_name"),
        Err(AgeError::SecretName)
    );
    assert_eq!(age_encrypt(&data, ""), Err(AgeError::NoRecipients));
}

#[test]
fn passphrase_round_trip_and_rejection() {
    let data = b"locked with a phrase".to_vec();
    let encrypted = age_encrypt_passphrase(&data, "correct horse");
    assert_eq!(
        age_decrypt_passphrase(&encrypted, "correct horse").unwrap(),
        data
    );
    assert_eq!(
        age_decrypt_passphrase(&encrypted, "wrong phrase"),
        Err(AgeError::DecryptFailed)
    );
}

#[test]
fn csv_key_lists_are_trimmed_and_filtered() {
    assert_eq!(
        split_csv_trimmed(" a , ,b ,, c"),
        vec!["a".to_string(), "b".to_string(), "c".to_string()]
    );
    assert_eq!(split_csv_trimmed(""), Vec::<String>::new());
    assert_eq!(split_csv_trimmed(" , ,"), Vec::<String>::new());
}

#[test]
fn secret_statement_carries_both_keys() {
    let sql = keygen_secret_sql("backup_key", "age1abc", "AGE-SECRET-KEY-1XYZ");
    assert_eq!(
        sql,
        "CREATE SECRET backup_key (TYPE age, PUBLIC_KEY 'age1abc', \
         PRIVATE_KEY 'AGE-SECRET-KEY-1XYZ');"
    );
    let generated = age_keygen_secret("backup_key");
    assert!(generated.starts_with("CREATE SECRET backup_key"));
    assert!(generated.contains("PUBLIC_KEY 'age1"));
    assert!(generated.contains("PRIVATE_KEY 'AGE-SECRET-KEY-1"));
}
