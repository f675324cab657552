use inkstone::crypto::{random_bytes, Argon2Params, MK_LEN};
use inkstone::json::{Json, JsonNumber};
use inkstone::vault::{
    change_password, change_password_with_params, encrypted_manifest, is_temp_file, temp_file_name, info_from_manifest, new_id, open, plain_manifest,
    unlock_with_password, unlock_with_recovery_code, VAULT_FORMAT_VERSION,
};

// Light Argon2 costs for tests that need more derivations than time allows.
const FAST_ARGON2: Argon2Params = Argon2Params {
    memory_kib: 8,
    iterations: 1,
    parallelism: 1,
};

const ROOT: &str = "/vaults/MyVault";
const MANIFEST_PATH: &str = "/vaults/MyVault/inkstone.json";

fn encrypted(password: &str) -> (Json, String) {
    encrypted_manifest(&new_id(), "2024-01-01T00:00:00Z", password).unwrap()
}

fn manifest_member<'a>(manifest: &'a Json, key: &str) -> Option<&'a Json> {
    manifest.get(key)
}

#[test]
fn create_encrypted_then_unlock_with_password() {
    let (manifest, _recovery) = encrypted("correct horse battery staple");
    let info = info_from_manifest(ROOT, MANIFEST_PATH, &manifest).unwrap();
    assert_eq!(info.encryption, "v1");

    let mk = unlock_with_password(ROOT, &manifest, "correct horse battery staple").unwrap();
    assert_eq!(mk.len(), MK_LEN);
}

#[test]
fn unlock_with_password_rejects_wrong_password() {
    let (manifest, _recovery) = encrypted("correct horse battery staple");
    assert!(unlock_with_password(ROOT, &manifest, "wrong password").is_err());
}

#[test]
fn create_encrypted_recovery_code_unlocks_to_same_key() {
    let (manifest, recovery) = encrypted("correct horse battery staple");

    let via_password = unlock_with_password(ROOT, &manifest, "correct horse battery staple").unwrap();
    let via_recovery = unlock_with_recovery_code(ROOT, &manifest, &recovery).unwrap();
    assert_eq!(via_password, via_recovery);
}

#[test]
fn unlock_with_recovery_code_rejects_wrong_code() {
    let (manifest, _recovery) = encrypted("correct horse battery staple");
    assert!(
        unlock_with_recovery_code(ROOT, &manifest, "0000-0000-0000-0000-0000-0000-0000-0000").is_err()
    );
}

#[test]
fn change_password_rewraps_without_changing_master_key() {
    let (mut manifest, recovery) = encrypted("old password");
    let mk = unlock_with_password(ROOT, &manifest, "old password").unwrap();

    // The new password is wrapped with light Argon2 costs: each derivation
    // at the default costs takes seconds in an unoptimized test build.
    change_password_with_params(&mut manifest, &mk, "new password", &FAST_ARGON2).unwrap();

    assert!(unlock_with_password(ROOT, &manifest, "old password").is_err());
    let mk_after = unlock_with_password(ROOT, &manifest, "new password").unwrap();
    assert_eq!(mk, mk_after);

    // Recovery path is untouched by a password change.
    let via_recovery = unlock_with_recovery_code(ROOT, &manifest, &recovery).unwrap();
    assert_eq!(mk, via_recovery);
}

#[test]
fn change_password_uses_the_default_costs() {
    let mut manifest = Json::object();
    manifest.set("encryption", Json::string("v1"));
    let mk = random_bytes::<MK_LEN>();
    change_password(&mut manifest, &mk, "pw").unwrap();
    let entry = manifest.get("keys").unwrap().get("password").unwrap();
    let params = entry.get("kdfParams").unwrap();
    assert_eq!(params.get("memoryKib").unwrap().as_u64(), Some(65536));
    assert_eq!(params.get("iterations").unwrap().as_u64(), Some(3));
    assert_eq!(params.get("parallelism").unwrap().as_u64(), Some(4));
    assert_eq!(unlock_with_password(ROOT, &manifest, "pw").unwrap(), mk);
    assert!(manifest.get("keys").unwrap().get("recovery").is_none());
}

#[test]
fn change_password_keeps_other_members_and_reports_bad_costs() {
    let mut manifest = plain_manifest("v", "t");
    let mk = random_bytes::<MK_LEN>();
    let bad = Argon2Params {
        memory_kib: 8,
        iterations: 1,
        parallelism: 2,
    };
    let error = change_password_with_params(&mut manifest, &mk, "pw", &bad).unwrap_err();
    assert!(error.starts_with("invalid Argon2 parameters: "));
    assert!(manifest.get("keys").is_none());

    change_password_with_params(&mut manifest, &mk, "pw", &FAST_ARGON2).unwrap();
    assert_eq!(manifest.get("vaultId").unwrap().as_str(), Some("v"));
    assert_eq!(manifest.get("encryption").unwrap().as_str(), Some("none"));
    assert!(manifest.get("keys").unwrap().get("password").is_some());
}

#[test]
fn unlock_rejects_plaintext_vault() {
    let manifest = plain_manifest(&new_id(), "2024-01-01T00:00:00Z");
    assert!(unlock_with_password(ROOT, &manifest, "anything").is_err());
}

#[test]
fn create_then_open_roundtrip() {
    let manifest = plain_manifest(&new_id(), "2024-01-01T00:00:00Z");
    let created = info_from_manifest(ROOT, MANIFEST_PATH, &manifest).unwrap();
    let opened = open(ROOT, MANIFEST_PATH, Some(&manifest)).unwrap();
    assert_eq!(created.vault_id, opened.vault_id);
    assert_eq!(opened.format_version, VAULT_FORMAT_VERSION);
}

#[test]
fn open_rejects_non_vault() {
    assert!(open(ROOT, MANIFEST_PATH, None).is_err());
}

#[test]
fn open_rejects_newer_format_version() {
    let mut manifest = plain_manifest(&new_id(), "2024-01-01T00:00:00Z");
    manifest.set("formatVersion", Json::uint(999));
    assert!(open(ROOT, MANIFEST_PATH, Some(&manifest)).is_err());
}

#[test]
fn open_error_messages() {
    assert_eq!(
        open(ROOT, MANIFEST_PATH, None).unwrap_err(),
        "/vaults/MyVault is not an Inkstone vault"
    );
    let mut manifest = plain_manifest("v", "t");
    manifest.set("formatVersion", Json::uint(2));
    assert_eq!(
        open(ROOT, MANIFEST_PATH, Some(&manifest)).unwrap_err(),
        "vault requires a newer version of Inkstone (vault formatVersion 2, supported 1)"
    );
    manifest.set("formatVersion", Json::Str("1".to_string()));
    assert_eq!(
        open(ROOT, MANIFEST_PATH, Some(&manifest)).unwrap_err(),
        "missing formatVersion in /vaults/MyVault/inkstone.json"
    );
}

#[test]
fn plain_manifest_fields_and_info_defaults() {
    let manifest = plain_manifest("vault-1", "2024-01-01T00:00:00Z");
    assert!(matches!(
        manifest_member(&manifest, "formatVersion"),
        Some(Json::Number(JsonNumber::PosInt(1)))
    ));
    let info = info_from_manifest(ROOT, MANIFEST_PATH, &manifest).unwrap();
    assert_eq!(info.path, ROOT);
    assert_eq!(info.vault_id, "vault-1");
    assert_eq!(info.encryption, "none");

    let mut bare = Json::object();
    bare.set("formatVersion", Json::uint(1));
    let info = info_from_manifest(ROOT, MANIFEST_PATH, &bare).unwrap();
    assert_eq!(info.vault_id, "");
    assert_eq!(info.encryption, "none");
}

#[test]
fn unlock_error_messages() {
    let manifest = plain_manifest("v", "t");
    assert_eq!(
        unlock_with_password(ROOT, &manifest, "pw").unwrap_err(),
        "/vaults/MyVault is not an encrypted vault"
    );
    let mut no_keys = Json::object();
    no_keys.set("encryption", Json::string("v1"));
    assert_eq!(
        unlock_with_recovery_code(ROOT, &no_keys, "code").unwrap_err(),
        "vault manifest is missing its keys section"
    );
    let (manifest, _recovery) = encrypted("pw");
    assert_eq!(
        unlock_with_recovery_code(ROOT, &manifest, "garbage").unwrap_err(),
        "incorrect password or recovery code"
    );
}

#[test]
fn recovery_code_unlock_tolerates_case_and_spaces() {
    let (manifest, recovery) = encrypted("pw");
    let mk = unlock_with_password(ROOT, &manifest, "pw").unwrap();
    let typed = format!("  {}\n", recovery.to_lowercase());
    assert_eq!(unlock_with_recovery_code(ROOT, &manifest, &typed).unwrap(), mk);
}

#[test]
fn encrypted_manifest_shape() {
    let (manifest, recovery) = encrypted_manifest("vault-9", "2024-02-02T00:00:00Z", "pw").unwrap();
    let info = info_from_manifest(ROOT, MANIFEST_PATH, &manifest).unwrap();
    assert_eq!(info.vault_id, "vault-9");
    assert_eq!(recovery.len(), 39);
    let keys = manifest.get("keys").unwrap();
    let password = keys.get("password").unwrap();
    assert_eq!(password.get("kdf").unwrap().as_str(), Some("argon2id"));
    let params = password.get("kdfParams").unwrap();
    assert_eq!(params.get("memoryKib").unwrap().as_u64(), Some(65536));
    assert_eq!(params.get("iterations").unwrap().as_u64(), Some(3));
    assert_eq!(params.get("parallelism").unwrap().as_u64(), Some(4));
    assert_eq!(password.get("salt").unwrap().as_str().unwrap().len(), 24);
    let recovery_entry = keys.get("recovery").unwrap();
    assert_eq!(recovery_entry.get("kdf").unwrap().as_str(), Some("hkdf-sha256"));
}

#[test]
fn new_id_is_a_lowercase_ulid() {
    let id = new_id();
    assert_eq!(id.len(), 26);
    assert!(id.chars().all(|c| c.is_ascii_digit() || c.is_ascii_lowercase()));
    assert_ne!(new_id(), id);
}

#[test]
fn temporary_file_names() {
    let name = temp_file_name("abc.json");
    assert!(name.starts_with("abc.json.tmp-"));
    assert_eq!(name.len(), "abc.json.tmp-".len() + 26);
    assert!(is_temp_file(&name));
    assert!(is_temp_file("abc.json.tmp-xyz"));
    assert!(!is_temp_file("abc.json"));
}

#[test]
fn encrypted_manifest_holds_only_wrapped_keys() {
    let (manifest, recovery) = encrypted_manifest("vault-x", "2024-01-01T00:00:00Z", "pw").unwrap();
    let text = format!("{manifest:?}");
    assert!(!text.contains(&recovery));
    assert!(!text.contains(&recovery.replace('-', "")));
    let members = |j: &Json| match j {
        Json::Object(fields) => fields.iter().map(|(k, _)| k.clone()).collect::<Vec<_>>(),
        _ => Vec::new(),
    };
    let mut top = members(&manifest);
    top.sort();
    assert_eq!(top, vec!["createdAt", "encryption", "formatVersion", "keys", "vaultId"]);
    let keys = manifest.get("keys").unwrap();
    let mut key_members = members(keys);
    key_members.sort();
    assert_eq!(key_members, vec!["formatVersion", "password", "recovery"]);
    let mut password = members(keys.get("password").unwrap());
    password.sort();
    assert_eq!(password, vec!["kdf", "kdfParams", "salt", "wrappedKey"]);
    let mut recovery_entry = members(keys.get("recovery").unwrap());
    recovery_entry.sort();
    assert_eq!(recovery_entry, vec!["kdf", "salt", "wrappedKey"]);
}
