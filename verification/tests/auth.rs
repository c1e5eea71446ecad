use smarthb::auth::{
    after_key_stored, after_salt_stored, auth_status, begin_change_pin, begin_set_password, cache_credentials,
    cached_salt, delete_key_from_keyring, derive_key, get_cached_or_load_key, invalidate_credential_cache,
    is_salt_corrupted, key_from_keyring_entry, keyring_value, salt_from_file, salt_from_legacy_entry,
    validate_pin, verify_password, AuthStatus, CredentialCache, DerivedKey, SetPasswordLatch, SetPasswordGuard,
    KEY_LEN, SALT_LEN,
};
use smarthb::auth::{entry_from_open, legacy_delete_result, read_result, store_result, KeyringFailure};
use smarthb::error::AppError;

fn varied_salt(seed: u8) -> [u8; SALT_LEN] {
    let mut s = [0u8; SALT_LEN];
    for (i, b) in s.iter_mut().enumerate() {
        *b = seed ^ (i as u8).wrapping_mul(7);
    }
    s
}

fn auth_message(e: &AppError) -> String {
    match e {
        AppError::Auth(m) => m.clone(),
        other => panic!("not an authentication error: {:?}", other),
    }
}

#[test]
fn derive_key_produces_consistent_output() {
    let salt = [42u8; SALT_LEN];
    let key1 = derive_key("test_password", &salt);
    let key2 = derive_key("test_password", &salt);
    assert_eq!(key1.as_bytes(), key2.as_bytes());
}

#[test]
fn validate_pin_accepts_six_digits() {
    assert!(validate_pin("123456").is_ok());
    assert!(validate_pin("000000").is_ok());
}

#[test]
fn validate_pin_rejects_invalid() {
    assert!(validate_pin("12345").is_err(), "5자리 거부");
    assert!(validate_pin("1234567").is_err(), "7자리 거부");
    assert!(validate_pin("").is_err(), "빈 입력 거부");
    assert!(validate_pin("12a456").is_err(), "숫자 외 문자 거부");
    assert!(validate_pin("12 456").is_err(), "공백 거부");
}

#[test]
fn validate_pin_error_message() {
    let e = validate_pin("12a456").unwrap_err();
    assert_eq!(auth_message(&e), "PIN 번호는 6자리 숫자여야 합니다.");
    assert!(validate_pin("１２３４５６").is_err(), "full-width digits are not ASCII digits");
}

#[test]
fn derive_key_different_salts_produce_different_keys() {
    let salt1 = [1u8; SALT_LEN];
    let salt2 = [2u8; SALT_LEN];
    let key1 = derive_key("test_password", &salt1);
    let key2 = derive_key("test_password", &salt2);
    assert_ne!(key1.as_bytes(), key2.as_bytes());
}

#[test]
fn derive_key_different_passwords_produce_different_keys() {
    let salt = [0u8; SALT_LEN];
    let key1 = derive_key("password1", &salt);
    let key2 = derive_key("password2", &salt);
    assert_ne!(key1.as_bytes(), key2.as_bytes());
}

#[test]
fn derive_key_matches_pbkdf2_reference() {
    let salt = varied_salt(9);
    let mut expected = [0u8; KEY_LEN];
    pbkdf2::pbkdf2::<hmac::Hmac<sha2::Sha256>>(b"pw", &salt, 600_000, &mut expected).unwrap();
    assert_eq!(derive_key("pw", &salt).as_bytes(), &expected);
}

#[test]
fn derived_key_debug_does_not_leak_bytes() {
    let key = derive_key("test", &[0u8; SALT_LEN]);
    let debug_str = key.redacted_debug();
    assert!(debug_str.contains("REDACTED"), "Debug 출력에 REDACTED 마커 누락: {}", debug_str);
    let hex = key.to_hex();
    assert!(!debug_str.contains(&hex.as_str()[..16]), "Debug 출력에 키 hex 일부 누출: {}", debug_str);
}

#[test]
fn derived_key_hex_format_is_64_chars() {
    let key = derive_key("test", &[0u8; SALT_LEN]);
    let hex = key.to_hex();
    assert_eq!(hex.len(), KEY_LEN * 2, "32바이트 키는 64자 hex");
    assert!(hex.chars().all(|c| c.is_ascii_hexdigit()));
}

#[test]
fn to_hex_writes_lower_case_pairs() {
    let mut bytes = [0u8; 32];
    bytes[0] = 0xAB;
    bytes[1] = 0x01;
    bytes[31] = 0xFF;
    let key = DerivedKey::from_bytes(bytes);
    let hex = key.to_hex();
    assert!(hex.starts_with("ab01"));
    assert!(hex.ends_with("ff"));
    assert_eq!(keyring_value(&key), hex);
}

#[test]
fn generate_salt_produces_unique_values() {
    let s1 = smarthb::auth::generate_salt().expect("random source");
    let s2 = smarthb::auth::generate_salt().expect("random source");
    assert_ne!(s1, s2);
}

#[test]
fn generate_salt_returns_correct_length() {
    let salt = smarthb::auth::generate_salt().expect("random source");
    assert_eq!(salt.len(), SALT_LEN);
}

#[test]
fn matches_returns_true_for_identical_keys() {
    let salt = [7u8; SALT_LEN];
    let key1 = derive_key("password", &salt);
    let key2 = derive_key("password", &salt);
    assert!(key1.matches(&key2));
}

#[test]
fn matches_returns_false_for_different_keys() {
    let salt = [7u8; SALT_LEN];
    let key1 = derive_key("password1", &salt);
    let key2 = derive_key("password2", &salt);
    assert!(!key1.matches(&key2));
}

#[test]
fn matches_returns_false_for_different_salts() {
    let key1 = derive_key("password", &[1u8; SALT_LEN]);
    let key2 = derive_key("password", &[2u8; SALT_LEN]);
    assert!(!key1.matches(&key2));
}

#[test]
fn matches_detects_single_byte_difference() {
    let a = DerivedKey::from_bytes([5u8; 32]);
    let mut b_bytes = [5u8; 32];
    b_bytes[31] = 6;
    let b = DerivedKey::from_bytes(b_bytes);
    assert!(!a.matches(&b));
    assert!(a.matches(&a.duplicate()));
}

#[test]
fn wipe_zeroes_the_key() {
    let mut k = DerivedKey::from_bytes([9u8; 32]);
    k.wipe();
    assert_eq!(k.as_bytes(), &[0u8; 32]);
}

#[test]
fn cache_miss_returns_none() {
    let cache = CredentialCache::new();
    assert!(cached_salt(&cache).is_none());
}

#[test]
fn cache_credentials_then_read_salt() {
    let mut cache = CredentialCache::new();
    let salt = [99u8; SALT_LEN];
    let key = derive_key("test", &salt);
    cache_credentials(&mut cache, salt, key);
    assert_eq!(cached_salt(&cache), Some(salt));
}

#[test]
fn invalidate_clears_cache() {
    let mut cache = CredentialCache::new();
    let salt = [11u8; SALT_LEN];
    let key = derive_key("p", &salt);
    cache_credentials(&mut cache, salt, key);
    assert!(cached_salt(&cache).is_some());
    invalidate_credential_cache(&mut cache);
    assert!(cached_salt(&cache).is_none());
}

#[test]
fn cache_credentials_overwrites_previous() {
    let mut cache = CredentialCache::new();
    let salt_a = [1u8; SALT_LEN];
    cache_credentials(&mut cache, salt_a, derive_key("a", &salt_a));
    let salt_b = [2u8; SALT_LEN];
    cache_credentials(&mut cache, salt_b, derive_key("b", &salt_b));
    assert_eq!(cached_salt(&cache), Some(salt_b));
}

#[test]
fn get_cached_or_load_key_hits_cache() {
    let mut cache = CredentialCache::new();
    let salt = [42u8; SALT_LEN];
    let first_key = derive_key("pw", &salt);
    let first_bytes = *first_key.as_bytes();
    cache_credentials(&mut cache, salt, first_key);
    let retrieved = get_cached_or_load_key(&mut cache, || -> Result<([u8; 32], DerivedKey), AppError> {
        panic!("a cache hit must not load")
    })
    .expect("cache hit must succeed");
    assert_eq!(retrieved.as_bytes(), &first_bytes);
}

#[test]
fn get_cached_or_load_key_loads_once_on_miss() {
    let mut cache = CredentialCache::new();
    let salt = varied_salt(3);
    let k = get_cached_or_load_key(&mut cache, || Ok((salt, DerivedKey::from_bytes([4u8; 32])))).unwrap();
    assert_eq!(k.as_bytes(), &[4u8; 32]);
    assert_eq!(cached_salt(&cache), Some(salt));
}

#[test]
fn get_cached_or_load_key_failed_load_leaves_cache_empty() {
    let mut cache = CredentialCache::new();
    let r = get_cached_or_load_key(&mut cache, || Err(AppError::Auth("load failed".to_string())));
    assert_eq!(r.err(), Some(AppError::Auth("load failed".to_string())));
    assert!(cached_salt(&cache).is_none());
}

#[test]
fn verify_password_accepts_matching_password() {
    let mut cache = CredentialCache::new();
    let salt = varied_salt(21);
    let stored = derive_key("123456", &salt);
    cache_credentials(&mut cache, salt, stored);
    assert!(verify_password(&mut cache, "123456", || panic!("cached")).is_ok());
}

#[test]
fn verify_password_refuses_wrong_password() {
    let mut cache = CredentialCache::new();
    let salt = varied_salt(22);
    let stored = derive_key("123456", &salt);
    let r = verify_password(&mut cache, "654321", move || Ok((salt, stored)));
    assert_eq!(auth_message(&r.unwrap_err()), "비밀번호가 일치하지 않습니다.");
    assert_eq!(cached_salt(&cache), Some(salt), "the load fills the cache even when the password is wrong");
}

#[test]
fn verify_password_refuses_empty_password() {
    let mut cache = CredentialCache::new();
    let r = verify_password(&mut cache, "", || panic!("an empty password is refused before loading"));
    assert_eq!(auth_message(&r.unwrap_err()), "비밀번호를 입력해주세요.");
}

#[test]
fn is_salt_corrupted_detects_all_zeros() {
    assert!(is_salt_corrupted(&[0u8; SALT_LEN]), "32바이트 NULL 은 손상");
    assert!(is_salt_corrupted(&[0u8; 0]), "빈 파일은 손상");
    assert!(is_salt_corrupted(&[1u8; 31]), "31바이트는 손상 (길이 불일치)");
    assert!(is_salt_corrupted(&[1u8; 33]), "33바이트는 손상");
    assert!(!is_salt_corrupted(&varied_salt(42)), "다양한 바이트 salt 는 정상");
}

#[test]
fn is_salt_corrupted_detects_partial_null_patterns() {
    assert!(is_salt_corrupted(&[0xFFu8; SALT_LEN]), "0xFF 32바이트 도배는 손상");
    assert!(is_salt_corrupted(&[0x42u8; SALT_LEN]), "임의 단일 바이트 32 도배는 손상");
    let mut partial = [0u8; SALT_LEN];
    partial[..8].fill(0x55);
    for (i, b) in partial.iter_mut().enumerate().skip(8) {
        *b = (i as u8).wrapping_mul(13);
    }
    assert!(is_salt_corrupted(&partial), "첫 8바이트 단일 바이트 도배는 손상");
    let mut head_diverse = [0u8; SALT_LEN];
    for (i, b) in head_diverse.iter_mut().enumerate().take(8) {
        *b = (i as u8).wrapping_mul(31).wrapping_add(7);
    }
    assert!(!is_salt_corrupted(&head_diverse), "첫 8바이트 다양하면 뒤가 NULL 이어도 정상 판정");
}

#[test]
fn salt_from_file_keeps_only_sound_salts() {
    let good = varied_salt(5);
    assert_eq!(salt_from_file(&good), Some(good));
    assert_eq!(salt_from_file(&[0u8; 32]), None);
    assert_eq!(salt_from_file(&good[..31]), None);
}

#[test]
fn legacy_salt_entry_reads_hex() {
    let salt = varied_salt(77);
    let text = hex::encode(salt);
    assert_eq!(salt_from_legacy_entry(Some(&text)).unwrap(), salt);
    let missing = salt_from_legacy_entry(None).unwrap_err();
    assert_eq!(auth_message(&missing), "salt 가 설정되지 않았습니다 (최초 설정 필요).");
    let short = salt_from_legacy_entry(Some("abcd")).unwrap_err();
    assert_eq!(auth_message(&short), "Salt 길이 불일치");
    let bad = salt_from_legacy_entry(Some("zz")).unwrap_err();
    assert!(auth_message(&bad).starts_with("Salt hex 디코딩 실패: "));
}

#[test]
fn keyring_entry_round_trips_the_key() {
    let key = DerivedKey::from_bytes(varied_salt(12));
    let stored = keyring_value(&key);
    let back = key_from_keyring_entry(Some(&stored)).unwrap();
    assert!(back.matches(&key));
    let none = key_from_keyring_entry(None).err().unwrap();
    assert!(auth_message(&none).starts_with("이 PC 에는 인증 정보(키)가 없습니다."));
    let short = key_from_keyring_entry(Some("00ff")).err().unwrap();
    assert_eq!(auth_message(&short), "DB 키 길이 불일치");
}

#[test]
fn delete_key_from_keyring_is_exported() {
    let _f: fn(&mut CredentialCache) -> Result<(), AppError> = delete_key_from_keyring;
}

#[test]
fn set_password_guard_blocks_concurrent_entry() {
    let mut latch = SetPasswordLatch::new();
    let first = SetPasswordGuard::try_acquire(&mut latch).expect("첫 진입 성공");
    assert!(SetPasswordGuard::try_acquire(&mut latch).is_none(), "두 번째 진입은 즉시 차단");
    first.release(&mut latch);
    let _second = SetPasswordGuard::try_acquire(&mut latch).expect("해제 후 재진입 성공");
}

#[test]
fn set_password_guard_releases_on_drop() {
    let mut latch = SetPasswordLatch::new();
    {
        let g = SetPasswordGuard::try_acquire(&mut latch).expect("진입");
        assert!(latch.is_busy());
        g.release(&mut latch);
    }
    assert!(!latch.is_busy(), "해제 후 자유");
}

#[test]
fn auth_status_reports_locked_or_not_initialized() {
    let mut cache = CredentialCache::new();
    assert_eq!(auth_status(&cache, false), AuthStatus::NotInitialized);
    assert_eq!(auth_status(&cache, true), AuthStatus::Locked);
    cache_credentials(&mut cache, varied_salt(1), DerivedKey::from_bytes([1u8; 32]));
    assert_eq!(auth_status(&cache, false), AuthStatus::Locked);
}

#[test]
fn begin_set_password_checks_in_order() {
    let mut latch = SetPasswordLatch::new();
    let e = begin_set_password(&mut latch, "12ab56", false).err().unwrap();
    assert_eq!(auth_message(&e), "PIN 번호는 6자리 숫자여야 합니다.");
    assert!(!latch.is_busy());
    let e = begin_set_password(&mut latch, "123456", true).err().unwrap();
    assert_eq!(auth_message(&e), "이미 설정된 비밀번호가 있습니다. 비밀번호 변경 또는 다른 PC 로그인 기능을 사용하세요.");
    assert!(!latch.is_busy());
    let g = begin_set_password(&mut latch, "123456", false).ok().unwrap();
    assert!(latch.is_busy());
    let e = begin_set_password(&mut latch, "123456", false).err().unwrap();
    assert_eq!(auth_message(&e), "비밀번호 설정이 이미 진행 중입니다. 잠시 후 다시 시도하세요.");
    g.release(&mut latch);
}

#[test]
fn password_change_commits_or_rolls_back() {
    let mut cache = CredentialCache::new();
    let mut latch = SetPasswordLatch::new();
    let salt = varied_salt(8);
    let key = derive_key("111111", &salt);
    let g = begin_change_pin(&mut latch, "111111").ok().unwrap();
    let g = after_key_stored(&mut latch, g, Ok(())).ok().unwrap();
    let commit = after_salt_stored(&mut cache, &mut latch, g, salt, key, Err(AppError::Config("disk full".into())));
    assert_eq!(commit.result, Err(AppError::Config("disk full".into())));
    assert!(commit.rollback_key);
    assert!(cached_salt(&cache).is_none());
    assert!(!latch.is_busy());

    let g = begin_change_pin(&mut latch, "111111").ok().unwrap();
    let e = after_key_stored(&mut latch, g, Err(AppError::Auth("DB 키 저장 실패: x".into()))).err().unwrap();
    assert_eq!(auth_message(&e), "DB 키 저장 실패: x");
    assert!(!latch.is_busy());

    let g = begin_change_pin(&mut latch, "222222").ok().unwrap();
    let g = after_key_stored(&mut latch, g, Ok(())).ok().unwrap();
    let key2 = derive_key("222222", &salt);
    let commit = after_salt_stored(&mut cache, &mut latch, g, salt, key2, Ok(()));
    assert!(commit.result.is_ok() && !commit.rollback_key);
    assert_eq!(cached_salt(&cache), Some(salt));
    assert!(verify_password(&mut cache, "222222", || panic!("cached")).is_ok());
}

#[test]
fn entry_open_failure_is_config_error_with_head() {
    let r = entry_from_open(Err("boom".to_string()));
    assert!(matches!(r, Err(AppError::Config(ref m)) if m == "Keychain 항목 생성 실패: boom"));
}

#[test]
fn read_result_maps_each_outcome() {
    assert_eq!(read_result(Ok("abc".to_string())), Ok(Some("abc".to_string())));
    assert_eq!(read_result(Err(KeyringFailure::NoEntry)), Ok(None));
    assert_eq!(
        read_result(Err(KeyringFailure::Failed("locked".to_string()))),
        Err(AppError::Auth("Keychain 조회 실패: locked".to_string()))
    );
}

#[test]
fn store_result_reports_every_failure() {
    assert_eq!(store_result(Ok(())), Ok(()));
    assert_eq!(
        store_result(Err(KeyringFailure::NoEntry)),
        Err(AppError::Auth("DB 키 저장 실패: No matching entry found in secure storage".to_string()))
    );
    assert_eq!(
        store_result(Err(KeyringFailure::Failed("denied".to_string()))),
        Err(AppError::Auth("DB 키 저장 실패: denied".to_string()))
    );
}

#[test]
fn legacy_delete_result_treats_missing_entry_as_deleted() {
    assert_eq!(legacy_delete_result(Ok(())), Ok(()));
    assert_eq!(legacy_delete_result(Err(KeyringFailure::NoEntry)), Ok(()));
    assert_eq!(
        legacy_delete_result(Err(KeyringFailure::Failed("denied".to_string()))),
        Err(AppError::Auth("Keychain salt 삭제 실패: denied".to_string()))
    );
}

#[test]
fn load_credentials_stops_at_the_salt_failure() {
    let r = smarthb::auth::load_credentials(|| Err(AppError::Auth("salt 가 설정되지 않았습니다 (최초 설정 필요).".to_string())));
    assert!(matches!(r, Err(AppError::Auth(ref m)) if m == "salt 가 설정되지 않았습니다 (최초 설정 필요)."));
}
