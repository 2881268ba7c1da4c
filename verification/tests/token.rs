use openrdc_host::token::{
    accept_stored, creation_error, inspect, mint, plan_token, token_location, FileFacts,
    TokenError, TokenLocation, TokenPlan, TokenProbe, TOKEN_BYTES,
};

fn facts(is_symlink: bool, is_file: bool, uid: u32, mode: u32) -> FileFacts {
    FileFacts { is_symlink, is_file, uid, mode }
}

fn refused_text(r: Result<(), TokenError>) -> String {
    match r {
        Err(TokenError::Refused(m)) => m,
        other => panic!("expected a refusal, got {other:?}"),
    }
}

#[test]
fn private_regular_file_is_accepted() {
    assert!(inspect(&facts(false, true, 1000, 0o100600), 1000).is_ok());
}

#[test]
fn permissive_existing_file_refused() {
    let m = refused_text(inspect(&facts(false, true, 1000, 0o100644), 1000));
    assert_eq!(m, "permissions are not 0600");
}

#[test]
fn symlink_refused() {
    // A symlink is refused before anything else is looked at.
    let m = refused_text(inspect(&facts(true, false, 0, 0o777), 1000));
    assert_eq!(m, "is a symlink");
}

#[test]
fn directory_and_foreign_files_refused() {
    assert_eq!(refused_text(inspect(&facts(false, false, 1000, 0o600), 1000)), "not a regular file");
    assert_eq!(refused_text(inspect(&facts(false, true, 0, 0o600), 1000)), "not owned by current user");
}

#[test]
fn short_token_refused() {
    match accept_stored("tiny") {
        Err(TokenError::Refused(m)) => assert_eq!(m, "token too short"),
        other => panic!("expected refusal, got {other:?}"),
    }
    // 31 bytes after trimming is still too short.
    let s = format!("  {}\n", "a".repeat(31));
    assert!(accept_stored(&s).is_err());
}

#[test]
fn stored_token_is_trimmed() {
    let tok = "b".repeat(64);
    let s = format!("\n {tok} \n");
    assert_eq!(accept_stored(&s).unwrap(), tok);
    assert_eq!(accept_stored(&"c".repeat(32)).unwrap(), "c".repeat(32));
}

#[test]
fn minted_file_is_0600_and_256_bits() {
    let bytes: Vec<u8> = (0..TOKEN_BYTES as u32).map(|i| (i * 37 + 5) as u8).collect();
    let t = mint(&bytes);
    assert!(t.len() >= 64, "hex of 32 bytes");
    assert_eq!(t.len(), 64);
    let expected: String = bytes.iter().map(|b| format!("{b:02x}")).collect();
    assert_eq!(t, expected);
}

#[test]
fn mint_is_lower_hex() {
    let mut bytes = vec![0u8; 32];
    bytes[0] = 0xff;
    bytes[1] = 0x0a;
    bytes[31] = 0xa0;
    let t = mint(&bytes);
    assert!(t.starts_with("ff0a00"));
    assert!(t.ends_with("a0"));
}

#[test]
fn probe_decides_the_plan() {
    assert!(matches!(plan_token(TokenProbe::Exists), TokenPlan::UseExisting));
    assert!(matches!(plan_token(TokenProbe::Missing), TokenPlan::MintNew));
    match plan_token(TokenProbe::Failed("denied".to_string())) {
        TokenPlan::Refuse(TokenError::Io(m)) => assert_eq!(m, "denied"),
        _ => panic!("expected an I/O refusal"),
    }
}

#[test]
fn creation_race_is_refused() {
    match creation_error(true, "exists".to_string()) {
        TokenError::Refused(m) => assert_eq!(m, "appeared concurrently; refusing"),
        other => panic!("unexpected {other:?}"),
    }
    match creation_error(false, "disk full".to_string()) {
        TokenError::Io(m) => assert_eq!(m, "disk full"),
        other => panic!("unexpected {other:?}"),
    }
}

#[test]
fn error_messages_have_prefixes() {
    assert_eq!(TokenError::Io("x".into()).message(), "token storage error: x");
    assert_eq!(TokenError::Refused("y".into()).message(), "token file refused: y");
    assert_eq!(TokenError::NoEntropy("z".into()).message(), "no secure randomness: z");
}

#[test]
fn token_location_precedence() {
    let f = token_location(Some("/a/tok".into()), Some("/x".into()), Some("/h".into()));
    assert!(matches!(f, TokenLocation::File(p) if p == "/a/tok"));
    let c = token_location(None, Some("/x".into()), Some("/h".into()));
    assert!(matches!(c, TokenLocation::ConfigDir(p) if p == "/x"));
    let h = token_location(None, None, Some("/h".into()));
    assert!(matches!(h, TokenLocation::HomeDir(p) if p == "/h"));
    let t = token_location(None, None, None);
    assert!(matches!(t, TokenLocation::HomeDir(p) if p == "/tmp"));
}

#[test]
fn minted_token_reloads_as_itself() {
    let bytes: Vec<u8> = (0..32u8).map(|i| i.wrapping_mul(91)).collect();
    let t = mint(&bytes);
    assert_eq!(accept_stored(&t).unwrap(), t);
    assert_eq!(accept_stored(&format!("{t}\n")).unwrap(), t);
    let unicode_ws = format!("\u{3000}{t}\u{85}\u{2009}");
    assert_eq!(accept_stored(&unicode_ws).unwrap(), t);
}
