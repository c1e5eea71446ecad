//! Credential rules: the app PIN format, key derivation and comparison, the
//! in-memory credential cache, the guard that serialises password setting,
//! and the checks on stored salts and keys.

use vstd::prelude::*;
use vstd::string::*;
use vstd::utf8::encode_utf8;
use hmac::Hmac;
use rand::RngCore;
use sha2::Sha256;
use zeroize::Zeroize;
use crate::error::AppError;

verus! {

/// PBKDF2-HMAC-SHA256 rounds.
pub const PBKDF2_ITERATIONS: u32 = 600000;

/// Salt length in bytes.
pub const SALT_LEN: usize = 32;

/// Key length in bytes.
pub const KEY_LEN: usize = 32;

/// App PIN length.
pub const PIN_LEN: usize = 6;

// ───────────────────────────── outside calls ─────────────────────────────

/// Name for the 32 bytes that `pbkdf2::pbkdf2::<Hmac<Sha256>>` derives from a
/// password, a salt and a round count.
pub uninterp spec fn pbkdf2_sha256_32(password: Seq<u8>, salt: Seq<u8>, rounds: u32) -> Seq<u8>;

/// `pbkdf2::pbkdf2::<Hmac<Sha256>>` into a 32-byte buffer. Its result is
/// named, not stated; HMAC takes a key of any length, so the call never
/// fails.
#[verifier::external_body]
fn pbkdf2_into(password: &[u8], salt: &[u8; 32], rounds: u32) -> (r: [u8; 32])
    ensures
        r@ == pbkdf2_sha256_32(password@, salt@, rounds),
{
    let mut out = [0u8; 32];
    pbkdf2::pbkdf2::<Hmac<Sha256>>(password, salt, rounds, &mut out).expect("HMAC accepts any key length");
    out
}

/// Lower-case hex digit of a value `0..16`.
pub open spec fn hex_digit(v: u8) -> char {
    if v < 10 {
        (v + 48) as char
    } else {
        (v - 10 + 97) as char
    }
}

/// Lower-case hex text of bytes, two digits per byte.
pub open spec fn hex_text(b: Seq<u8>) -> Seq<char>
    decreases b.len(),
{
    if b.len() == 0 {
        Seq::empty()
    } else {
        hex_text(b.drop_last()) + seq![hex_digit(b.last() / 16), hex_digit(b.last() % 16)]
    }
}

/// `hex::encode`: lower-case hex, two digits per byte.
#[verifier::external_body]
fn hex_encode(data: &[u8]) -> (r: String)
    ensures
        r@ == hex_text(data@),
{
    hex::encode(data)
}

/// Value of a hex digit byte (either case).
pub open spec fn hex_value(c: u8) -> Option<int> {
    if 48 <= c <= 57 {
        Some(c - 48)
    } else if 65 <= c <= 70 {
        Some(c - 65 + 10)
    } else if 97 <= c <= 102 {
        Some(c - 97 + 10)
    } else {
        None
    }
}

/// An even number of hex digit bytes.
pub open spec fn hex_valid(b: Seq<u8>) -> bool {
    b.len() % 2 == 0 && forall|i: int| 0 <= i < b.len() ==> (#[trigger] hex_value(b[i])) is Some
}

/// The bytes written by a valid hex text.
pub open spec fn hex_bytes(b: Seq<u8>) -> Seq<u8> {
    Seq::new(
        (b.len() / 2) as nat,
        |i: int| (hex_value(b[2 * i]).unwrap() * 16 + hex_value(b[2 * i + 1]).unwrap()) as u8,
    )
}

/// Name for the text of the error `hex::decode` reports for an invalid
/// input (its `Display`).
pub uninterp spec fn hex_decode_error_text(b: Seq<u8>) -> Seq<char>;

/// `hex::decode`, with its error rendered as text: the bytes of an even
/// number of hex digits (either case); otherwise the error, which reads
/// `Odd number of digits` for an odd length.
#[verifier::external_body]
fn hex_decode(s: &str) -> (r: Result<Vec<u8>, String>)
    ensures
        r is Ok <==> hex_valid(s.spec_bytes()),
        r matches Ok(v) ==> v@ == hex_bytes(s.spec_bytes()),
        r matches Err(e) ==> e@ == hex_decode_error_text(s.spec_bytes()),
        r matches Err(e) ==> (s.spec_bytes().len() % 2 != 0 ==> e@ == "Odd number of digits"@),
{
    match hex::decode(s) {
        Ok(bytes) => Ok(bytes),
        Err(e) => Err(e.to_string()),
    }
}

/// `zeroize::Zeroize::zeroize` of a 32-byte buffer: every byte becomes zero.
#[verifier::external_body]
fn zeroize_32(b: &mut [u8; 32])
    ensures
        final(b)@ == Seq::new(32, |i: int| 0u8),
{
    b.zeroize();
}

/// `rand::rngs::OsRng.try_fill_bytes` into a 32-byte buffer: bytes from the
/// operating system's secure random source, or the description of its
/// failure. Nothing is stated of the bytes or of whether the call succeeds.
#[verifier::external_body]
fn os_random_32() -> (r: Result<[u8; 32], String>) {
    let mut salt = [0u8; 32];
    match rand::rngs::OsRng.try_fill_bytes(&mut salt) {
        Ok(()) => Ok(salt),
        Err(e) => Err(format!("{}", e)),
    }
}

/// A fresh random salt from the operating system's secure random source;
/// when the source fails, an authentication error "salt 생성 실패: "
/// followed by the failure's description.
pub fn generate_salt() -> (r: Result<[u8; 32], AppError>)
    ensures
        r matches Err(e) ==> error_with_head(e, false, "salt 생성 실패: "@),
{
    match os_random_32() {
        Ok(salt) => Ok(salt),
        Err(t) => {
            let m = String::from_str("salt 생성 실패: ");
            let msg = m.concat(t.as_str());
            proof {
                lemma_head_prefix("salt 생성 실패: "@, t@);
            }
            Err(AppError::Auth(msg))
        },
    }
}

// ───────────────────────────── keys ─────────────────────────────

/// A key derived from a password.
pub struct DerivedKey {
    bytes: [u8; 32],
}

impl DerivedKey {
    /// The key's bytes.
    pub closed spec fn view_bytes(&self) -> Seq<u8> {
        self.bytes@
    }

    /// A key with the given bytes.
    pub fn from_bytes(bytes: [u8; 32]) -> (r: DerivedKey)
        ensures
            r.view_bytes() == bytes@,
    {
        DerivedKey { bytes }
    }

    /// A copy of the key.
    pub fn duplicate(&self) -> (r: DerivedKey)
        ensures
            r.view_bytes() == self.view_bytes(),
    {
        DerivedKey { bytes: self.bytes }
    }

    /// The key's bytes.
    pub fn as_bytes(&self) -> (r: &[u8; 32])
        ensures
            r@ == self.view_bytes(),
    {
        &self.bytes
    }

    /// The key as lower-case hex (64 digits), as the SQLCipher key pragma takes it.
    pub fn to_hex(&self) -> (r: String)
        ensures
            r@ == hex_text(self.view_bytes()),
    {
        hex_encode(self.bytes.as_slice())
    }

    /// Whether two keys are equal, comparing every byte whatever the first
    /// difference (the time taken does not depend on where keys differ).
    pub fn matches(&self, other: &Self) -> (r: bool)
        ensures
            r == (self.view_bytes() == other.view_bytes()),
    {
        let mut diff: u8 = 0;
        let mut i: usize = 0;
        while i < 32
            invariant
                i <= 32,
                self.bytes@.len() == 32,
                other.bytes@.len() == 32,
                (diff == 0) == (forall|k: int| 0 <= k < i ==> self.bytes@[k] == other.bytes@[k]),
            decreases 32 - i,
        {
            let a = self.bytes[i];
            let b = other.bytes[i];
            let old_diff = diff;
            diff = diff | (a ^ b);
            assert((old_diff | (a ^ b)) == 0 <==> (old_diff == 0 && a == b)) by (bit_vector);
            i = i + 1;
        }
        proof {
            if diff == 0 {
                assert(self.bytes@ =~= other.bytes@);
            }
        }
        diff == 0
    }

    /// The key as shown in diagnostics: a fixed marker, never its bytes.
    pub fn redacted_debug(&self) -> (r: String)
        ensures
            r@ == "DerivedKey([REDACTED])"@,
    {
        String::from_str("DerivedKey([REDACTED])")
    }

    /// Overwrites the key's bytes with zeros.
    pub fn wipe(&mut self)
        ensures
            final(self).view_bytes() == Seq::new(32, |i: int| 0u8),
    {
        zeroize_32(&mut self.bytes);
    }
}

/// Derives the 32-byte key of a password and a salt with
/// PBKDF2-HMAC-SHA256 and 600,000 rounds; the same inputs always give the
/// same key.
pub fn derive_key(password: &str, salt: &[u8; 32]) -> (r: DerivedKey)
    ensures
        r.view_bytes() == pbkdf2_sha256_32(password.spec_bytes(), salt@, PBKDF2_ITERATIONS),
{
    let bytes = pbkdf2_into(password.as_bytes(), salt, PBKDF2_ITERATIONS);
    DerivedKey::from_bytes(bytes)
}

// ───────────────────────────── PIN ─────────────────────────────

pub open spec fn msg_pin_format() -> Seq<char> {
    "PIN 번호는 6자리 숫자여야 합니다."@
}

/// A valid app PIN: exactly six bytes, all ASCII digits.
pub open spec fn valid_pin(b: Seq<u8>) -> bool {
    b.len() == PIN_LEN && forall|i: int| 0 <= i < b.len() ==> 48 <= #[trigger] b[i] <= 57
}

/// Checks the app PIN format: exactly six ASCII digits.
pub fn validate_pin(pin: &str) -> (r: Result<(), AppError>)
    ensures
        r is Ok <==> valid_pin(pin.spec_bytes()),
        r matches Err(e) ==> e == AppError::Auth(e->Auth_0) && e.message_view() == msg_pin_format(),
{
    let b = pin.as_bytes();
    if b.len() != 6 {
        return Err(AppError::Auth(String::from_str("PIN 번호는 6자리 숫자여야 합니다.")));
    }
    let mut i: usize = 0;
    while i < 6
        invariant
            b@ == pin.spec_bytes(),
            b@.len() == 6,
            i <= 6,
            forall|k: int| 0 <= k < i ==> 48 <= #[trigger] b@[k] <= 57,
        decreases 6 - i,
    {
        if b[i] < 48u8 || b[i] > 57u8 {
            return Err(AppError::Auth(String::from_str("PIN 번호는 6자리 숫자여야 합니다.")));
        }
        i = i + 1;
    }
    Ok(())
}

// ───────────────────────────── salts ─────────────────────────────

/// A stored salt is damaged: not 32 bytes, all zero, or its first eight
/// bytes all equal (what a partial write leaves).
pub open spec fn salt_corrupted(b: Seq<u8>) -> bool {
    ||| b.len() != SALT_LEN
    ||| (forall|i: int| 0 <= i < b.len() ==> #[trigger] b[i] == 0)
    ||| (forall|i: int| 0 <= i < 8 ==> #[trigger] b[i] == b[0])
}

/// Whether stored salt bytes are damaged (see `salt_corrupted`).
pub fn is_salt_corrupted(bytes: &[u8]) -> (r: bool)
    ensures
        r == salt_corrupted(bytes@),
{
    if bytes.len() != 32 {
        return true;
    }
    let mut all_zero = true;
    let mut i: usize = 0;
    while i < 32
        invariant
            bytes@.len() == 32,
            i <= 32,
            all_zero == (forall|k: int| 0 <= k < i ==> #[trigger] bytes@[k] == 0),
        decreases 32 - i,
    {
        if bytes[i] != 0 {
            all_zero = false;
        }
        i = i + 1;
    }
    if all_zero {
        return true;
    }
    let first = bytes[0];
    let mut same = true;
    let mut j: usize = 0;
    while j < 8
        invariant
            bytes@.len() == 32,
            first == bytes@[0],
            j <= 8,
            same == (forall|k: int| 0 <= k < j ==> #[trigger] bytes@[k] == bytes@[0]),
        decreases 8 - j,
    {
        if bytes[j] != first {
            same = false;
        }
        j = j + 1;
    }
    same
}

fn copy_32(v: &Vec<u8>) -> (r: [u8; 32])
    requires
        v@.len() == 32,
    ensures
        r@ == v@,
{
    let mut out = [0u8; 32];
    let mut i: usize = 0;
    while i < 32
        invariant
            v@.len() == 32,
            out@.len() == 32,
            i <= 32,
            forall|k: int| 0 <= k < i ==> out@[k] == v@[k],
        decreases 32 - i,
    {
        out[i] = v[i];
        i = i + 1;
    }
    assert(out@ =~= v@);
    out
}

fn copy_slice_32(v: &[u8]) -> (r: [u8; 32])
    requires
        v@.len() == 32,
    ensures
        r@ == v@,
{
    let mut out = [0u8; 32];
    let mut i: usize = 0;
    while i < 32
        invariant
            v@.len() == 32,
            out@.len() == 32,
            i <= 32,
            forall|k: int| 0 <= k < i ==> out@[k] == v@[k],
        decreases 32 - i,
    {
        out[i] = v[i];
        i = i + 1;
    }
    assert(out@ =~= v@);
    out
}

/// The salt stored in the salt file, when the file's bytes are not damaged.
pub fn salt_from_file(bytes: &[u8]) -> (r: Option<[u8; 32]>)
    ensures
        r is Some <==> !salt_corrupted(bytes@),
        r matches Some(s) ==> s@ == bytes@,
{
    if is_salt_corrupted(bytes) {
        None
    } else {
        Some(copy_slice_32(bytes))
    }
}

pub open spec fn msg_salt_missing() -> Seq<char> {
    "salt 가 설정되지 않았습니다 (최초 설정 필요)."@
}

pub open spec fn msg_salt_length() -> Seq<char> {
    "Salt 길이 불일치"@
}

/// The outcome of reading 32 bytes from stored hex text: the bytes, or the
/// decoding error with `decode_head` before it, or `length_msg`.
pub open spec fn stored_bytes_outcome(text: &str, decode_head: Seq<char>, length_msg: Seq<char>) -> Result<Seq<u8>, Seq<char>> {
    if !hex_valid(text.spec_bytes()) {
        Err(decode_head + hex_decode_error_text(text.spec_bytes()))
    } else if hex_bytes(text.spec_bytes()).len() != 32 {
        Err(length_msg)
    } else {
        Ok(hex_bytes(text.spec_bytes()))
    }
}

fn stored_bytes(text: &str, decode_head: &str, length_msg: &str) -> (r: Result<[u8; 32], AppError>)
    ensures
        match stored_bytes_outcome(text, decode_head@, length_msg@) {
            Ok(b) => r matches Ok(x) && x@ == b,
            Err(m) => r matches Err(e) && e == AppError::Auth(e->Auth_0) && e.message_view() == m,
        },
{
    let decoded = match hex_decode(text) {
        Ok(d) => d,
        Err(e) => {
            let m = String::from_str(decode_head);
            return Err(AppError::Auth(m.concat(e.as_str())));
        },
    };
    if decoded.len() != 32 {
        return Err(AppError::Auth(String::from_str(length_msg)));
    }
    Ok(copy_32(&decoded))
}

/// The salt kept under the legacy key-store entry (its stored hex text;
/// `None` when there is no entry).
pub fn salt_from_legacy_entry(value: Option<&str>) -> (r: Result<[u8; 32], AppError>)
    ensures
        value is None ==> (r matches Err(e) && e == AppError::Auth(e->Auth_0) && e.message_view()
            == msg_salt_missing()),
        value matches Some(t) ==> match stored_bytes_outcome(t, "Salt hex 디코딩 실패: "@, msg_salt_length()) {
            Ok(b) => r matches Ok(x) && x@ == b,
            Err(m) => r matches Err(e) && e == AppError::Auth(e->Auth_0) && e.message_view() == m,
        },
{
    match value {
        None => Err(AppError::Auth(String::from_str("salt 가 설정되지 않았습니다 (최초 설정 필요)."))),
        Some(t) => stored_bytes(t, "Salt hex 디코딩 실패: ", "Salt 길이 불일치"),
    }
}

pub open spec fn msg_key_missing_here() -> Seq<char> {
    "이 PC 에는 인증 정보(키)가 없습니다. 다른 PC 에서 설정한 비밀번호로는 잠금을 해제할 수 없습니다 — 최초 설정을 다시 진행하거나 관리자에게 문의해 주세요."@
}

pub open spec fn msg_key_length() -> Seq<char> {
    "DB 키 길이 불일치"@
}

/// The database key kept in the key store (its stored hex text; `None`
/// when this machine has no entry).
pub fn key_from_keyring_entry(value: Option<&str>) -> (r: Result<DerivedKey, AppError>)
    ensures
        value is None ==> (r matches Err(e) && e == AppError::Auth(e->Auth_0) && e.message_view()
            == msg_key_missing_here()),
        value matches Some(t) ==> match stored_bytes_outcome(t, "DB 키 hex 디코딩 실패: "@, msg_key_length()) {
            Ok(b) => r matches Ok(k) && k.view_bytes() == b,
            Err(m) => r matches Err(e) && e == AppError::Auth(e->Auth_0) && e.message_view() == m,
        },
{
    match value {
        None => Err(
            AppError::Auth(
                String::from_str(
                    "이 PC 에는 인증 정보(키)가 없습니다. 다른 PC 에서 설정한 비밀번호로는 잠금을 해제할 수 없습니다 — 최초 설정을 다시 진행하거나 관리자에게 문의해 주세요.",
                ),
            ),
        ),
        Some(t) => {
            let b = stored_bytes(t, "DB 키 hex 디코딩 실패: ", "DB 키 길이 불일치")?;
            Ok(DerivedKey::from_bytes(b))
        },
    }
}

/// The text stored in the key store for a key: its lower-case hex.
pub fn keyring_value(key: &DerivedKey) -> (r: String)
    ensures
        r@ == hex_text(key.view_bytes()),
{
    key.to_hex()
}

// ───────────────────────────── key store ─────────────────────────────

/// Service name of this application's key-store entries.
pub const KEYRING_SERVICE: &'static str = "SmartHB";

/// Key-store user under which the database key is kept.
pub const KEYRING_USER_KEY: &'static str = "db_encryption_key";

/// Legacy key-store user under which older installations kept the salt.
pub const LEGACY_KEYRING_USER_SALT: &'static str = "db_password_salt";

#[verifier::external_type_specification]
#[verifier::external_body]
pub struct ExKeyringEntry(keyring::Entry);

/// How a key-store operation failed: no such entry, or another failure with
/// its description.
#[derive(Clone, Debug, PartialEq, Eq)]
pub enum KeyringFailure {
    NoEntry,
    Failed(String),
}

/// `keyring::Entry::new` for this application's service. What it returns
/// depends on the platform's credential store, so nothing is stated of it.
#[verifier::external_body]
fn keyring_open(user: &str) -> (r: Result<keyring::Entry, String>) {
    match keyring::Entry::new(KEYRING_SERVICE, user) {
        Ok(entry) => Ok(entry),
        Err(e) => Err(format!("{}", e)),
    }
}

/// `keyring::Entry::set_password`. Its outcome depends on the platform's
/// credential store, so nothing is stated of it.
#[verifier::external_body]
fn keyring_set(entry: &keyring::Entry, value: &str) -> (r: Result<(), KeyringFailure>) {
    match entry.set_password(value) {
        Ok(()) => Ok(()),
        Err(keyring::Error::NoEntry) => Err(KeyringFailure::NoEntry),
        Err(e) => Err(KeyringFailure::Failed(format!("{}", e))),
    }
}

/// `keyring::Entry::get_password`. What it returns depends on the
/// platform's credential store, so nothing is stated of it.
#[verifier::external_body]
fn keyring_get(entry: &keyring::Entry) -> (r: Result<String, KeyringFailure>) {
    match entry.get_password() {
        Ok(v) => Ok(v),
        Err(keyring::Error::NoEntry) => Err(KeyringFailure::NoEntry),
        Err(e) => Err(KeyringFailure::Failed(format!("{}", e))),
    }
}

/// `keyring::Entry::delete_credential`. Its outcome depends on the
/// platform's credential store, so nothing is stated of it.
#[verifier::external_body]
fn keyring_delete(entry: &keyring::Entry) -> (r: Result<(), KeyringFailure>) {
    match entry.delete_credential() {
        Ok(()) => Ok(()),
        Err(keyring::Error::NoEntry) => Err(KeyringFailure::NoEntry),
        Err(e) => Err(KeyringFailure::Failed(format!("{}", e))),
    }
}

/// The description a key-store failure is reported with.
pub open spec fn failure_text(f: KeyringFailure) -> Seq<char> {
    match f {
        KeyringFailure::NoEntry => "No matching entry found in secure storage"@,
        KeyringFailure::Failed(t) => t@,
    }
}

fn failure_string(f: KeyringFailure) -> (r: String)
    ensures
        r@ == failure_text(f),
{
    match f {
        KeyringFailure::NoEntry => String::from_str("No matching entry found in secure storage"),
        KeyringFailure::Failed(t) => t,
    }
}

/// An error of `kind` whose message is `head` followed by `detail`.
pub open spec fn error_with_head(e: AppError, config: bool, head: Seq<char>) -> bool {
    &&& (if config { e is Config } else { e is Auth })
    &&& e.message_view().len() >= head.len()
    &&& e.message_view().subrange(0, head.len() as int) == head
}

/// `head + t` begins with `head`.
proof fn lemma_head_prefix(head: Seq<char>, t: Seq<char>)
    ensures
        (head + t).len() >= head.len(),
        (head + t).subrange(0, head.len() as int) == head,
{
    assert((head + t).subrange(0, head.len() as int) =~= head);
}

/// What opening an entry gives for the outcome `o` of `keyring::Entry::new`:
/// the entry itself, or a configuration error "Keychain 항목 생성 실패: "
/// followed by the failure's description.
pub open spec fn opened_as(o: Result<keyring::Entry, String>, r: Result<keyring::Entry, AppError>) -> bool {
    match o {
        Ok(entry) => r == Ok::<keyring::Entry, AppError>(entry),
        Err(t) => r matches Err(AppError::Config(m)) && m@ == "Keychain 항목 생성 실패: "@ + t@,
    }
}

/// `e` is what some failure to open an entry is reported as.
pub open spec fn open_failure(e: AppError) -> bool {
    exists|o: Result<keyring::Entry, String>| #[trigger] opened_as(o, Err::<keyring::Entry, AppError>(e))
}

/// The result of opening an entry, for the outcome `o` of `keyring::Entry::new`.
pub fn entry_from_open(o: Result<keyring::Entry, String>) -> (r: Result<keyring::Entry, AppError>)
    ensures
        opened_as(o, r),
{
    match o {
        Ok(entry) => Ok(entry),
        Err(t) => {
            let m = String::from_str("Keychain 항목 생성 실패: ");
            Err(AppError::Config(m.concat(t.as_str())))
        },
    }
}

/// A key-store entry of this application for `user`; a failure to open it is
/// a configuration error starting with "Keychain 항목 생성 실패: ". Whether
/// opening succeeds depends on the platform's credential store.
pub fn keyring_entry_for(user: &str) -> (r: Result<keyring::Entry, AppError>)
    ensures
        exists|o: Result<keyring::Entry, String>| #[trigger] opened_as(o, r),
        r matches Err(e) ==> error_with_head(e, true, "Keychain 항목 생성 실패: "@),
{
    let o = keyring_open(user);
    let ghost og = o;
    let r = entry_from_open(o);
    proof {
        assert(opened_as(og, r));
        if let Err(t) = og {
            lemma_head_prefix("Keychain 항목 생성 실패: "@, t@);
        }
    }
    r
}

/// What reading an entry gives for the outcome `o` of
/// `keyring::Entry::get_password`: the stored text, `None` when there is no
/// entry, or an authentication error "Keychain 조회 실패: " followed by the
/// failure's description.
pub open spec fn read_as(o: Result<String, KeyringFailure>, r: Result<Option<String>, AppError>) -> bool {
    match o {
        Ok(v) => r == Ok::<Option<String>, AppError>(Some(v)),
        Err(KeyringFailure::NoEntry) => r == Ok::<Option<String>, AppError>(None),
        Err(f) => r matches Err(AppError::Auth(m)) && m@ == "Keychain 조회 실패: "@ + failure_text(f),
    }
}

/// `e` is what some failure to read an entry is reported as.
pub open spec fn read_failure(e: AppError) -> bool {
    exists|o: Result<String, KeyringFailure>| #[trigger] read_as(o, Err::<Option<String>, AppError>(e))
}

/// The result of reading an entry, for the outcome `o` of
/// `keyring::Entry::get_password`.
pub fn read_result(o: Result<String, KeyringFailure>) -> (r: Result<Option<String>, AppError>)
    ensures
        read_as(o, r),
{
    match o {
        Ok(v) => Ok(Some(v)),
        Err(KeyringFailure::NoEntry) => Ok(None),
        Err(f) => {
            let m = String::from_str("Keychain 조회 실패: ");
            Err(AppError::Auth(m.concat(failure_string(f).as_str())))
        },
    }
}

/// Reads the stored text of the entry for `user`: a failure to open the
/// entry, or what `read_result` gives for the outcome of the read (`None`
/// when there is no entry; another failure is an authentication error
/// starting with "Keychain 조회 실패: ").
pub fn keyring_get_or_none(user: &str) -> (r: Result<Option<String>, AppError>)
    ensures
        (r matches Err(e) && open_failure(e)) || exists|o: Result<String, KeyringFailure>| #[trigger] read_as(o, r),
        r matches Err(e) ==> error_with_head(e, true, "Keychain 항목 생성 실패: "@) || error_with_head(
            e,
            false,
            "Keychain 조회 실패: "@,
        ),
{
    let entry = match keyring_entry_for(user) {
        Ok(entry) => entry,
        Err(e) => {
            proof {
                let r = Err::<keyring::Entry, AppError>(e);
                let o = choose|o: Result<keyring::Entry, String>| #[trigger] opened_as(o, r);
                assert(opened_as(o, r));
                assert(open_failure(e));
            }
            return Err(e);
        },
    };
    let o = keyring_get(&entry);
    let ghost og = o;
    let r = read_result(o);
    proof {
        assert(read_as(og, r));
        if let Err(f) = og {
            if f != KeyringFailure::NoEntry {
                lemma_head_prefix("Keychain 조회 실패: "@, failure_text(f));
            }
        }
    }
    r
}

/// What storing the key gives for the outcome `o` of
/// `keyring::Entry::set_password`: success, or an authentication error
/// "DB 키 저장 실패: " followed by the failure's description.
pub open spec fn stored_as(o: Result<(), KeyringFailure>, r: Result<(), AppError>) -> bool {
    match o {
        Ok(()) => r is Ok,
        Err(f) => r matches Err(AppError::Auth(m)) && m@ == "DB 키 저장 실패: "@ + failure_text(f),
    }
}

/// The result of storing the key, for the outcome `o` of
/// `keyring::Entry::set_password`.
pub fn store_result(o: Result<(), KeyringFailure>) -> (r: Result<(), AppError>)
    ensures
        stored_as(o, r),
{
    match o {
        Ok(()) => Ok(()),
        Err(f) => {
            let m = String::from_str("DB 키 저장 실패: ");
            Err(AppError::Auth(m.concat(failure_string(f).as_str())))
        },
    }
}

/// Stores the database key in the key store under `KEYRING_USER_KEY` as its
/// lower-case hex text (`keyring_value`), replacing what was there. The
/// result is a failure to open the entry, or what `store_result` gives for
/// the outcome of the write.
pub fn store_key_in_keyring(key: &DerivedKey) -> (r: Result<(), AppError>)
    ensures
        (r matches Err(e) && open_failure(e)) || exists|o: Result<(), KeyringFailure>| #[trigger] stored_as(o, r),
        r matches Err(e) ==> error_with_head(e, true, "Keychain 항목 생성 실패: "@) || error_with_head(
            e,
            false,
            "DB 키 저장 실패: "@,
        ),
{
    let value = keyring_value(key);
    let entry = match keyring_entry_for(KEYRING_USER_KEY) {
        Ok(entry) => entry,
        Err(e) => {
            proof {
                let r = Err::<keyring::Entry, AppError>(e);
                let o = choose|o: Result<keyring::Entry, String>| #[trigger] opened_as(o, r);
                assert(opened_as(o, r));
                assert(open_failure(e));
            }
            return Err(e);
        },
    };
    let o = keyring_set(&entry, value.as_str());
    let ghost og = o;
    let r = store_result(o);
    proof {
        assert(stored_as(og, r));
        if let Err(f) = og {
            lemma_head_prefix("DB 키 저장 실패: "@, failure_text(f));
        }
    }
    r
}

/// The errors reading the database key from the key store can give: the
/// entry cannot be opened or read, or its text is missing, not hex, or not
/// 32 bytes long.
pub open spec fn key_read_error(e: AppError) -> bool {
    ||| error_with_head(e, true, "Keychain 항목 생성 실패: "@)
    ||| error_with_head(e, false, "Keychain 조회 실패: "@)
    ||| error_with_head(e, false, "DB 키 hex 디코딩 실패: "@)
    ||| (e is Auth && (e.message_view() == msg_key_missing_here() || e.message_view() == msg_key_length()))
}

/// What `key_from_keyring_entry` gives for the stored text `value` (`None`
/// when there is no entry).
pub open spec fn key_text_outcome(value: Option<&str>, r: Result<DerivedKey, AppError>) -> bool {
    match value {
        None => r matches Err(e) && e == AppError::Auth(e->Auth_0) && e.message_view() == msg_key_missing_here(),
        Some(t) => match stored_bytes_outcome(t, "DB 키 hex 디코딩 실패: "@, msg_key_length()) {
            Ok(b) => r matches Ok(k) && k.view_bytes() == b,
            Err(m) => r matches Err(e) && e == AppError::Auth(e->Auth_0) && e.message_view() == m,
        },
    }
}

/// Reads the database key from the key store: a failure to open or read the
/// entry for `KEYRING_USER_KEY`, or what `key_from_keyring_entry` gives for
/// the text read (no text when there is no entry). What the store holds is
/// not known here.
pub fn retrieve_key_from_keyring() -> (r: Result<DerivedKey, AppError>)
    ensures
        (r matches Err(e) && (open_failure(e) || read_failure(e))) || exists|t: Option<&str>|
            #[trigger] key_text_outcome(t, r),
        r matches Err(e) ==> key_read_error(e),
{
    let value = match keyring_get_or_none(KEYRING_USER_KEY) {
        Ok(v) => v,
        Err(e) => {
            proof {
                let rv = Err::<Option<String>, AppError>(e);
                if !open_failure(e) {
                    let o = choose|o: Result<String, KeyringFailure>| #[trigger] read_as(o, rv);
                    assert(read_as(o, rv));
                    assert(read_failure(e));
                }
            }
            return Err(e);
        },
    };
    let r = match value {
        Some(t) => {
            let ts = t.as_str();
            let r = key_from_keyring_entry(Some(ts));
            proof {
                assert(key_text_outcome(Some(ts), r));
                let head = "DB 키 hex 디코딩 실패: "@;
                let b = ts.spec_bytes();
                if !hex_valid(b) {
                    lemma_head_prefix(head, hex_decode_error_text(b));
                }
            }
            r
        },
        None => {
            let r = key_from_keyring_entry(None);
            proof {
                assert(key_text_outcome(None, r));
            }
            r
        },
    };
    r
}

/// Deletes the database key from the key store and empties the credential
/// cache; a missing entry counts as deleted. Another failure is an
/// authentication error starting with "Keychain 삭제 실패: " and leaves the
/// cache as it was.
pub fn delete_key_from_keyring(cache: &mut CredentialCache) -> (r: Result<(), AppError>)
    ensures
        r is Ok ==> final(cache).view() is None,
        r matches Err(e) ==> final(cache).view() == old(cache).view() && (error_with_head(
            e,
            true,
            "Keychain 항목 생성 실패: "@,
        ) || error_with_head(e, false, "Keychain 삭제 실패: "@)),
{
    let entry = keyring_entry_for(KEYRING_USER_KEY)?;
    match keyring_delete(&entry) {
        Ok(()) | Err(KeyringFailure::NoEntry) => {
            invalidate_credential_cache(cache);
            Ok(())
        },
        Err(f) => {
            let m = String::from_str("Keychain 삭제 실패: ");
            let msg = m.concat(failure_string(f).as_str());
            proof {
                reveal_strlit("Keychain 삭제 실패: ");
                assert(msg@.subrange(0, m@.len() as int) =~= m@);
            }
            Err(AppError::Auth(msg))
        },
    }
}

/// What deleting the legacy salt entry gives for the outcome `o` of
/// `keyring::Entry::delete_credential`: success, also when there was no
/// entry, or an authentication error "Keychain salt 삭제 실패: " followed by
/// the failure's description.
pub open spec fn legacy_deleted_as(o: Result<(), KeyringFailure>, r: Result<(), AppError>) -> bool {
    match o {
        Ok(()) => r is Ok,
        Err(KeyringFailure::NoEntry) => r is Ok,
        Err(f) => r matches Err(AppError::Auth(m)) && m@ == "Keychain salt 삭제 실패: "@ + failure_text(f),
    }
}

/// The result of deleting the legacy salt entry, for the outcome `o` of
/// `keyring::Entry::delete_credential`.
pub fn legacy_delete_result(o: Result<(), KeyringFailure>) -> (r: Result<(), AppError>)
    ensures
        legacy_deleted_as(o, r),
{
    match o {
        Ok(()) => Ok(()),
        Err(KeyringFailure::NoEntry) => Ok(()),
        Err(f) => {
            let m = String::from_str("Keychain salt 삭제 실패: ");
            Err(AppError::Auth(m.concat(failure_string(f).as_str())))
        },
    }
}

/// Deletes the legacy key-store entry (`LEGACY_KEYRING_USER_SALT`) that held
/// the salt: a failure to open the entry, or what `legacy_delete_result`
/// gives for the outcome of the deletion (a missing entry counts as deleted).
pub fn delete_legacy_keyring_salt() -> (r: Result<(), AppError>)
    ensures
        (r matches Err(e) && open_failure(e)) || exists|o: Result<(), KeyringFailure>|
            #[trigger] legacy_deleted_as(o, r),
        r matches Err(e) ==> error_with_head(e, true, "Keychain 항목 생성 실패: "@) || error_with_head(
            e,
            false,
            "Keychain salt 삭제 실패: "@,
        ),
{
    let entry = match keyring_entry_for(LEGACY_KEYRING_USER_SALT) {
        Ok(entry) => entry,
        Err(e) => {
            proof {
                let r = Err::<keyring::Entry, AppError>(e);
                let o = choose|o: Result<keyring::Entry, String>| #[trigger] opened_as(o, r);
                assert(opened_as(o, r));
                assert(open_failure(e));
            }
            return Err(e);
        },
    };
    let o = keyring_delete(&entry);
    let ghost og = o;
    let r = legacy_delete_result(o);
    proof {
        assert(legacy_deleted_as(og, r));
        if let Err(f) = og {
            if f != KeyringFailure::NoEntry {
                lemma_head_prefix("Keychain salt 삭제 실패: "@, failure_text(f));
            }
        }
    }
    r
}

/// Whether a salt exists: a salt file, or else an entry under the legacy
/// key-store user (read only when there is no file).
pub fn salt_exists<F: FnOnce() -> Result<Option<String>, AppError>>(file_exists: bool, legacy_entry: F) -> (r: Result<
    bool,
    AppError,
>)
    requires
        !file_exists ==> call_requires(legacy_entry, ()),
    ensures
        file_exists ==> r == Ok::<bool, AppError>(true),
        !file_exists ==> exists|res: Result<Option<String>, AppError>|
            #![trigger call_ensures(legacy_entry, (), res)]
            call_ensures(legacy_entry, (), res) && match res {
                Ok(v) => r == Ok::<bool, AppError>(v is Some),
                Err(e) => r == Err::<bool, AppError>(e),
            },
{
    if file_exists {
        return Ok(true);
    }
    let res = legacy_entry();
    let ghost g = res;
    match res {
        Ok(v) => {
            assert(call_ensures(legacy_entry, (), g));
            Ok(v.is_some())
        },
        Err(e) => {
            assert(call_ensures(legacy_entry, (), g));
            Err(e)
        },
    }
}

/// `r` is a result `retrieve_key_from_keyring` can give (see its contract).
pub open spec fn key_retrieved_as(r: Result<DerivedKey, AppError>) -> bool {
    &&& (r matches Err(e) && (open_failure(e) || read_failure(e))) || exists|t: Option<&str>|
        #[trigger] key_text_outcome(t, r)
    &&& r matches Err(e) ==> key_read_error(e)
}

/// The credentials of this machine, salt first: the salt from `load_salt`
/// (the salt file), then, only when the salt was had, the database key from
/// the key store (`retrieve_key_from_keyring`). The first failure is the
/// result; on success the pair is that salt and that key.
pub fn load_credentials<F: FnOnce() -> Result<[u8; 32], AppError>>(load_salt: F) -> (r: Result<
    ([u8; 32], DerivedKey),
    AppError,
>)
    requires
        call_requires(load_salt, ()),
    ensures
        exists|s: Result<[u8; 32], AppError>|
            #![trigger call_ensures(load_salt, (), s)]
            call_ensures(load_salt, (), s) && match s {
                Err(e) => r == Err::<([u8; 32], DerivedKey), AppError>(e),
                Ok(salt) => exists|kr: Result<DerivedKey, AppError>|
                    #[trigger] key_retrieved_as(kr) && match kr {
                        Ok(k) => r matches Ok((s2, k2)) && s2 == salt && k2 == k,
                        Err(e) => r == Err::<([u8; 32], DerivedKey), AppError>(e),
                    },
            },
{
    let s = load_salt();
    let ghost gs = s;
    assert(call_ensures(load_salt, (), gs));
    match s {
        Err(e) => Err(e),
        Ok(salt) => {
            let kr = retrieve_key_from_keyring();
            let ghost gk = kr;
            assert(key_retrieved_as(gk));
            match kr {
                Ok(k) => Ok((salt, k)),
                Err(e) => Err(e),
            }
        },
    }
}

/// The hex text has two digits per byte, the `j`-th byte's high digit then
/// its low digit.
proof fn lemma_hex_text_index(b: Seq<u8>)
    ensures
        hex_text(b).len() == 2 * b.len(),
        forall|j: int|
            0 <= j < b.len() ==> hex_text(b)[2 * j] == hex_digit(#[trigger] b[j] / 16) && hex_text(b)[2
                * j + 1] == hex_digit(b[j] % 16),
    decreases b.len(),
{
    if b.len() > 0 {
        let pre = b.drop_last();
        lemma_hex_text_index(pre);
        assert forall|j: int| 0 <= j < b.len() implies hex_text(b)[2 * j] == hex_digit(
            #[trigger] b[j] / 16,
        ) && hex_text(b)[2 * j + 1] == hex_digit(b[j] % 16) by {
            if j < pre.len() {
                assert(b[j] == pre[j]);
            }
        }
    }
}

/// The UTF-8 bytes of ASCII characters are their codes.
proof fn lemma_encode_ascii(t: Seq<char>)
    requires
        forall|i: int| 0 <= i < t.len() ==> (#[trigger] t[i] as u32) < 128,
    ensures
        encode_utf8(t) == Seq::new(t.len(), |i: int| (t[i] as u32) as u8),
    decreases t.len(),
{
    if t.len() > 0 {
        let rest = t.drop_first();
        assert forall|i: int| 0 <= i < rest.len() implies (#[trigger] rest[i] as u32) < 128 by {
            assert(rest[i] == t[i + 1]);
        }
        lemma_encode_ascii(rest);
        let c = t[0] as u32;
        assert(c < 128);
        assert((c & 0x7F) == c) by (bit_vector)
            requires
                c < 128,
        ;
        assert(vstd::utf8::has_width_1_encoding(c));
        assert(vstd::utf8::encode_scalar(c) == seq![c as u8]);
        assert(encode_utf8(t) == seq![c as u8] + encode_utf8(rest));
        assert(encode_utf8(t) =~= Seq::new(t.len(), |i: int| (t[i] as u32) as u8));
    } else {
        assert(encode_utf8(t) =~= Seq::new(t.len(), |i: int| (t[i] as u32) as u8));
    }
}

/// A key stored as its hex text and read back is the same key: the text
/// decodes, to exactly the stored bytes.
pub proof fn lemma_key_text_round_trip(b: Seq<u8>)
    ensures
        hex_valid(encode_utf8(hex_text(b))),
        hex_bytes(encode_utf8(hex_text(b))) == b,
{
    let t = hex_text(b);
    lemma_hex_text_index(b);
    assert forall|i: int| 0 <= i < t.len() implies (#[trigger] t[i] as u32) < 128 by {
        let j = i / 2;
        assert(0 <= j < b.len());
        if i % 2 == 0 {
            assert(i == 2 * j);
            assert(t[i] == hex_digit(b[j] / 16));
        } else {
            assert(i == 2 * j + 1);
            assert(t[i] == hex_digit(b[j] % 16));
        }
    }
    lemma_encode_ascii(t);
    let e = encode_utf8(t);
    assert forall|i: int| 0 <= i < e.len() implies (#[trigger] hex_value(e[i])) is Some by {
        let j = i / 2;
        assert(0 <= j < b.len());
        if i % 2 == 0 {
            assert(i == 2 * j);
            assert(t[i] == hex_digit(b[j] / 16));
        } else {
            assert(i == 2 * j + 1);
            assert(t[i] == hex_digit(b[j] % 16));
        }
    }
    assert forall|j: int| 0 <= j < b.len() implies #[trigger] hex_bytes(e)[j] == b[j] by {
        assert(t[2 * j] == hex_digit(b[j] / 16));
        assert(t[2 * j + 1] == hex_digit(b[j] % 16));
        assert(hex_value(e[2 * j]) == Some((b[j] / 16) as int));
        assert(hex_value(e[2 * j + 1]) == Some((b[j] % 16) as int));
    }
    assert(hex_bytes(e) =~= b);
}

/// The text stored for a key reads back as that key.
pub proof fn lemma_keyring_value_reads_back(key: Seq<u8>, stored: &str, head: Seq<char>, length_msg: Seq<char>)
    requires
        key.len() == 32,
        stored@ == hex_text(key),
    ensures
        stored_bytes_outcome(stored, head, length_msg) == Ok::<Seq<u8>, Seq<char>>(key),
{
    lemma_key_text_round_trip(key);
}

// ───────────────────────────── credential cache ─────────────────────────────

/// Salt and key kept in memory after the first read.
pub struct CachedCredentials {
    salt: [u8; 32],
    key: DerivedKey,
}

/// The in-memory credential cache (empty until first loaded).
pub struct CredentialCache {
    entry: Option<CachedCredentials>,
}

impl CredentialCache {
    /// The cached salt and key bytes, when the cache is filled.
    pub closed spec fn view(&self) -> Option<(Seq<u8>, Seq<u8>)> {
        match self.entry {
            Some(c) => Some((c.salt@, c.key.view_bytes())),
            None => None,
        }
    }

    /// An empty cache.
    pub fn new() -> (r: CredentialCache)
        ensures
            r.view() is None,
    {
        CredentialCache { entry: None }
    }
}

/// Fills the cache with a salt and a key (replacing what it held).
pub fn cache_credentials(cache: &mut CredentialCache, salt: [u8; 32], key: DerivedKey)
    ensures
        final(cache).view() == Some((salt@, key.view_bytes())),
{
    invalidate_credential_cache(cache);
    cache.entry = Some(CachedCredentials { salt, key });
}

/// Empties the cache, zeroing the salt and key it held.
pub fn invalidate_credential_cache(cache: &mut CredentialCache)
    ensures
        final(cache).view() is None,
{
    match cache.entry.take() {
        Some(mut c) => {
            c.key.wipe();
            zeroize_32(&mut c.salt);
        },
        None => {},
    }
}

/// The cached salt (`None` on a cache miss).
pub fn cached_salt(cache: &CredentialCache) -> (r: Option<[u8; 32]>)
    ensures
        match cache.view() {
            Some((s, k)) => r matches Some(x) && x@ == s,
            None => r is None,
        },
{
    match &cache.entry {
        Some(c) => Some(c.salt),
        None => None,
    }
}

/// What a load hands back into the cache: its salt and key on success,
/// nothing on failure.
pub open spec fn loaded_view(res: Result<([u8; 32], DerivedKey), AppError>) -> Option<(Seq<u8>, Seq<u8>)> {
    match res {
        Ok((s, k)) => Some((s@, k.view_bytes())),
        Err(_) => None,
    }
}

/// Fills an empty cache with `load`'s salt and key; a filled cache is kept
/// and `load` is not run. A failed load leaves the cache empty and its
/// error is returned.
pub fn ensure_cache_loaded<F: FnOnce() -> Result<([u8; 32], DerivedKey), AppError>>(
    cache: &mut CredentialCache,
    load: F,
) -> (r: Result<(), AppError>)
    requires
        call_requires(load, ()),
    ensures
        old(cache).view() is Some ==> r is Ok && final(cache).view() == old(cache).view(),
        old(cache).view() is None ==> exists|res: Result<([u8; 32], DerivedKey), AppError>|
            #![trigger call_ensures(load, (), res)]
            call_ensures(load, (), res) && final(cache).view() == loaded_view(res) && match res {
                Ok(_) => r is Ok,
                Err(e) => r == Err::<(), AppError>(e),
            },
{
    if cache.entry.is_some() {
        return Ok(());
    }
    let res = load();
    let ghost gres = res;
    match res {
        Ok((salt, key)) => {
            cache.entry = Some(CachedCredentials { salt, key });
            assert(gres == Ok::<([u8; 32], DerivedKey), AppError>((salt, key)));
            assert(cache.view() == loaded_view(gres));
            Ok(())
        },
        Err(e) => {
            assert(cache.view() == loaded_view(gres));
            Err(e)
        },
    }
}

/// The cached key, loading salt and key with `load` on a cache miss (see
/// `ensure_cache_loaded`).
pub fn get_cached_or_load_key<F: FnOnce() -> Result<([u8; 32], DerivedKey), AppError>>(
    cache: &mut CredentialCache,
    load: F,
) -> (r: Result<DerivedKey, AppError>)
    requires
        call_requires(load, ()),
    ensures
        old(cache).view() matches Some((s, k)) ==> (r matches Ok(x) && x.view_bytes() == k)
            && final(cache).view() == old(cache).view(),
        old(cache).view() is None ==> exists|res: Result<([u8; 32], DerivedKey), AppError>|
            #![trigger call_ensures(load, (), res)]
            call_ensures(load, (), res) && final(cache).view() == loaded_view(res) && match res {
                Ok((s, k)) => r matches Ok(x) && x.view_bytes() == k.view_bytes(),
                Err(e) => r == Err::<DerivedKey, AppError>(e),
            },
{
    let ghost was_empty = cache.view() is None;
    let r0 = ensure_cache_loaded(cache, load);
    let ghost w = choose|res: Result<([u8; 32], DerivedKey), AppError>|
        call_ensures(load, (), res) && cache.view() == loaded_view(res) && match res {
            Ok(_) => r0 is Ok,
            Err(e) => r0 == Err::<(), AppError>(e),
        };
    match r0 {
        Ok(()) => {},
        Err(e) => {
            assert(was_empty);
            assert(call_ensures(load, (), w));
            return Err(e);
        },
    }
    match &cache.entry {
        Some(c) => {
            let k = c.key.duplicate();
            proof {
                if was_empty {
                    assert(call_ensures(load, (), w));
                }
            }
            Ok(k)
        },
        None => {
            assert(false);
            Err(AppError::Auth(String::from_str("")))
        },
    }
}

pub open spec fn msg_password_empty() -> Seq<char> {
    "비밀번호를 입력해주세요."@
}

pub open spec fn msg_password_mismatch() -> Seq<char> {
    "비밀번호가 일치하지 않습니다."@
}

/// The answer to a password check against the credentials `creds`.
pub open spec fn check_outcome(password: Seq<u8>, creds: (Seq<u8>, Seq<u8>), r: Result<(), AppError>) -> bool {
    &&& (r is Ok <==> pbkdf2_sha256_32(password, creds.0, PBKDF2_ITERATIONS) == creds.1)
    &&& (r matches Err(e) ==> e == AppError::Auth(e->Auth_0) && e.message_view() == msg_password_mismatch())
}

/// Checks a password against the stored credentials: an empty password is
/// refused; otherwise the cache is filled with `load` when empty, and the key
/// derived from the password and the cached salt must equal the cached key.
pub fn verify_password<F: FnOnce() -> Result<([u8; 32], DerivedKey), AppError>>(
    cache: &mut CredentialCache,
    password: &str,
    load: F,
) -> (r: Result<(), AppError>)
    requires
        call_requires(load, ()),
    ensures
        password@.len() == 0 ==> (r matches Err(e) && e == AppError::Auth(e->Auth_0)
            && e.message_view() == msg_password_empty()) && final(cache).view() == old(cache).view(),
        password@.len() > 0 ==> (old(cache).view() matches Some(c) ==> final(cache).view()
            == old(cache).view() && check_outcome(password.spec_bytes(), c, r)),
        password@.len() > 0 && old(cache).view() is None ==> exists|res: Result<([u8; 32], DerivedKey), AppError>|
            #![trigger call_ensures(load, (), res)]
            call_ensures(load, (), res) && final(cache).view() == loaded_view(res) && match res {
                Ok((s, k)) => check_outcome(password.spec_bytes(), (s@, k.view_bytes()), r),
                Err(e) => r == Err::<(), AppError>(e),
            },
{
    if password.unicode_len() == 0 {
        return Err(AppError::Auth(String::from_str("비밀번호를 입력해주세요.")));
    }
    let ghost was_empty = cache.view() is None;
    let r0 = ensure_cache_loaded(cache, load);
    let ghost w = choose|res: Result<([u8; 32], DerivedKey), AppError>|
        call_ensures(load, (), res) && cache.view() == loaded_view(res) && match res {
            Ok(_) => r0 is Ok,
            Err(e) => r0 == Err::<(), AppError>(e),
        };
    match r0 {
        Ok(()) => {},
        Err(e) => {
            assert(was_empty);
            assert(call_ensures(load, (), w));
            return Err(e);
        },
    }
    match &cache.entry {
        Some(c) => {
            let candidate = derive_key(password, &c.salt);
            let ok = candidate.matches(&c.key);
            let r = if ok {
                Ok(())
            } else {
                Err(AppError::Auth(String::from_str("비밀번호가 일치하지 않습니다.")))
            };
            proof {
                if was_empty {
                    assert(call_ensures(load, (), w));
                }
            }
            r
        },
        None => {
            assert(false);
            Err(AppError::Auth(String::from_str("")))
        },
    }
}

// ───────────────────────────── status and guard ─────────────────────────────

/// Whether a password was ever set on this machine.
#[derive(Clone, Copy, Debug, PartialEq, Eq, Structural)]
pub enum AuthStatus {
    NotInitialized,
    Locked,
}

/// The authentication status: locked when the cache holds a salt or a salt
/// is stored (as a file or in the legacy key-store entry), else not set up.
pub fn auth_status(cache: &CredentialCache, salt_exists: bool) -> (r: AuthStatus)
    ensures
        cache.view() is Some ==> r == AuthStatus::Locked,
        cache.view() is None ==> r == (if salt_exists { AuthStatus::Locked } else { AuthStatus::NotInitialized }),
{
    if cached_salt(cache).is_some() {
        return AuthStatus::Locked;
    }
    if salt_exists {
        AuthStatus::Locked
    } else {
        AuthStatus::NotInitialized
    }
}

/// Latch that lets one password change run at a time.
pub struct SetPasswordLatch {
    in_progress: bool,
}

/// Proof that the holder entered the latch.
pub struct SetPasswordGuard {
    _entered: (),
}

impl SetPasswordLatch {
    /// Whether a password change is running.
    pub closed spec fn busy(&self) -> bool {
        self.in_progress
    }

    /// A free latch.
    pub fn new() -> (r: SetPasswordLatch)
        ensures
            !r.busy(),
    {
        SetPasswordLatch { in_progress: false }
    }

    /// Whether a password change is running.
    pub fn is_busy(&self) -> (r: bool)
        ensures
            r == self.busy(),
    {
        self.in_progress
    }
}

impl SetPasswordGuard {
    /// Enters the latch: a guard when it was free (it is then busy), `None`
    /// while another change runs (it stays busy).
    pub fn try_acquire(latch: &mut SetPasswordLatch) -> (r: Option<SetPasswordGuard>)
        ensures
            !old(latch).busy() ==> r is Some && final(latch).busy(),
            old(latch).busy() ==> r is None && final(latch).busy(),
    {
        if latch.in_progress {
            None
        } else {
            latch.in_progress = true;
            Some(SetPasswordGuard { _entered: () })
        }
    }

    /// Leaves the latch: it is free again.
    pub fn release(self, latch: &mut SetPasswordLatch)
        ensures
            !final(latch).busy(),
    {
        latch.in_progress = false;
    }
}


// ───────────────────────────── password changes ─────────────────────────────

pub open spec fn msg_change_busy() -> Seq<char> {
    "비밀번호 설정이 이미 진행 중입니다. 잠시 후 다시 시도하세요."@
}

pub open spec fn msg_already_set() -> Seq<char> {
    "이미 설정된 비밀번호가 있습니다. 비밀번호 변경 또는 다른 PC 로그인 기능을 사용하세요."@
}

/// An authentication error carrying `msg`.
pub open spec fn auth_error_with(e: AppError, msg: Seq<char>) -> bool {
    e == AppError::Auth(e->Auth_0) && e.message_view() == msg
}

/// The checks before a first password is set, in order: the latch must be
/// free, the PIN well formed, and no salt stored yet. On success the caller
/// holds the latch; on any refusal the latch is as free as it was.
pub fn begin_set_password(latch: &mut SetPasswordLatch, pin: &str, salt_exists: bool) -> (r: Result<SetPasswordGuard, AppError>)
    ensures
        old(latch).busy() ==> (r matches Err(e) && auth_error_with(e, msg_change_busy())) && final(latch).busy(),
        !old(latch).busy() && !valid_pin(pin.spec_bytes()) ==> (r matches Err(e) && auth_error_with(e, msg_pin_format()))
            && !final(latch).busy(),
        !old(latch).busy() && valid_pin(pin.spec_bytes()) && salt_exists ==> (r matches Err(e) && auth_error_with(e, msg_already_set()))
            && !final(latch).busy(),
        !old(latch).busy() && valid_pin(pin.spec_bytes()) && !salt_exists ==> r is Ok && final(latch).busy(),
{
    let guard = match SetPasswordGuard::try_acquire(latch) {
        Some(g) => g,
        None => {
            return Err(AppError::Auth(String::from_str("비밀번호 설정이 이미 진행 중입니다. 잠시 후 다시 시도하세요.")));
        },
    };
    match validate_pin(pin) {
        Ok(()) => {},
        Err(e) => {
            guard.release(latch);
            return Err(e);
        },
    }
    if salt_exists {
        guard.release(latch);
        return Err(AppError::Auth(String::from_str("이미 설정된 비밀번호가 있습니다. 비밀번호 변경 또는 다른 PC 로그인 기능을 사용하세요.")));
    }
    Ok(guard)
}

/// The checks before a PIN change that need no stored credentials: the latch
/// must be free and the new PIN well formed. (The current PIN is then checked
/// with `verify_password`.)
pub fn begin_change_pin(latch: &mut SetPasswordLatch, new_pin: &str) -> (r: Result<SetPasswordGuard, AppError>)
    ensures
        old(latch).busy() ==> (r matches Err(e) && auth_error_with(e, msg_change_busy())) && final(latch).busy(),
        !old(latch).busy() && !valid_pin(new_pin.spec_bytes()) ==> (r matches Err(e) && auth_error_with(e, msg_pin_format()))
            && !final(latch).busy(),
        !old(latch).busy() && valid_pin(new_pin.spec_bytes()) ==> r is Ok && final(latch).busy(),
{
    let guard = match SetPasswordGuard::try_acquire(latch) {
        Some(g) => g,
        None => {
            return Err(AppError::Auth(String::from_str("비밀번호 설정이 이미 진행 중입니다. 잠시 후 다시 시도하세요.")));
        },
    };
    match validate_pin(new_pin) {
        Ok(()) => Ok(guard),
        Err(e) => {
            guard.release(latch);
            Err(e)
        },
    }
}

/// Continues a password change after the new key was written to the key
/// store: on success the caller keeps the latch for the salt write; a failed
/// write is returned and frees the latch.
pub fn after_key_stored(latch: &mut SetPasswordLatch, guard: SetPasswordGuard, key_stored: Result<(), AppError>) -> (r: Result<
    SetPasswordGuard,
    AppError,
>)
    requires
        old(latch).busy(),
    ensures
        key_stored is Ok ==> r is Ok && final(latch).busy(),
        key_stored matches Err(e) ==> (r matches Err(x) && x == e) && !final(latch).busy(),
{
    match key_stored {
        Ok(()) => Ok(guard),
        Err(e) => {
            guard.release(latch);
            Err(e)
        },
    }
}

/// What became of storing the new salt: the answer, and whether the key
/// already written to the key store must be deleted again.
pub struct CredentialCommit {
    pub result: Result<(), AppError>,
    pub rollback_key: bool,
}

/// Ends a password change once the salt was written (`salt_stored`): on
/// success the cache holds the new salt and key; a failed write is returned
/// and asks for the stored key to be deleted, the cache unchanged. The latch is
/// free afterwards.
pub fn after_salt_stored(
    cache: &mut CredentialCache,
    latch: &mut SetPasswordLatch,
    guard: SetPasswordGuard,
    salt: [u8; 32],
    key: DerivedKey,
    salt_stored: Result<(), AppError>,
) -> (r: CredentialCommit)
    ensures
        !final(latch).busy(),
        salt_stored is Ok ==> r.result is Ok && !r.rollback_key && final(cache).view() == Some((salt@, key.view_bytes())),
        salt_stored matches Err(e) ==> r.result == Err::<(), AppError>(e) && r.rollback_key
            && final(cache).view() == old(cache).view(),
{
    guard.release(latch);
    match salt_stored {
        Ok(()) => {
            cache_credentials(cache, salt, key);
            CredentialCommit { result: Ok(()), rollback_key: false }
        },
        Err(e) => CredentialCommit { result: Err(e), rollback_key: true },
    }
}

} // verus!
