use inkstone::json::Json;
use inkstone::session::{resolve_context, VaultSessions};

#[test]
fn unlock_get_lock() {
    let mut sessions = VaultSessions::new();
    assert!(!sessions.is_unlocked("/v"));
    assert_eq!(sessions.get("/v"), None);
    sessions.unlock("/v", [1u8; 32]);
    sessions.unlock("/w", [2u8; 32]);
    assert!(sessions.is_unlocked("/v"));
    assert_eq!(sessions.get("/v"), Some([1u8; 32]));
    sessions.unlock("/v", [3u8; 32]);
    assert_eq!(sessions.get("/v"), Some([3u8; 32]));
    sessions.lock_vault("/v");
    assert!(!sessions.is_unlocked("/v"));
    assert_eq!(sessions.get("/w"), Some([2u8; 32]));
    sessions.lock_vault("/v");
    assert_eq!(sessions.get("/v"), None);
}

#[test]
fn context_of_plain_and_encrypted_vaults() {
    let mut sessions = VaultSessions::new();
    let mut plain = Json::object();
    plain.set("vaultId", Json::string("id-1"));
    let ctx = resolve_context(&sessions, "/v", &plain).unwrap();
    assert!(ctx.key.is_none());
    assert_eq!(ctx.vault_id, "id-1");

    let mut encrypted = Json::object();
    encrypted.set("encryption", Json::string("v1"));
    assert_eq!(
        resolve_context(&sessions, "/v", &encrypted).err(),
        Some("vault is locked".to_string())
    );
    sessions.unlock("/v", [9u8; 32]);
    let ctx = resolve_context(&sessions, "/v", &encrypted).unwrap();
    assert_eq!(ctx.key, Some([9u8; 32]));
    assert_eq!(ctx.vault_id, "");
}
