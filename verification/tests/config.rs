use std::collections::HashMap;

use flowstation::config::sec_recovery::{
    apply_recovery_patch, default_debounce_secs, default_max_cached_issis,
    default_max_replay_attempts, default_replay_per_frame, CfgRecovery, CfgRecoveryDto,
};
use flowstation::config::sec_security::{
    apply_security_patch, parse_issi_entries, parse_issi_keys, parse_sck, CfgSecurity,
    CfgSecurityDto, WhitelistMode,
};

/// The footgun: an empty list must stay "open" under the legacy default, but `enforce` must
/// make the same empty list mean deny-all.
#[test]
fn empty_whitelist_semantics_depend_on_mode() {
    let mut cfg = CfgSecurity::default();
    assert!(cfg.is_issi_allowed(1234), "empty list under auto = open network");

    cfg.whitelist_mode = WhitelistMode::Enforce;
    assert!(!cfg.is_issi_allowed(1234), "empty list under enforce = deny-all");

    cfg.issi_whitelist = vec![1234];
    assert!(cfg.is_issi_allowed(1234));
    assert!(!cfg.is_issi_allowed(5678));

    cfg.whitelist_mode = WhitelistMode::Open;
    assert!(cfg.is_issi_allowed(5678), "open ignores the list entirely");
}

/// The dashboard override replaces the list but not the mode.
#[test]
fn override_list_follows_the_configured_mode() {
    let mut cfg = CfgSecurity::default();
    cfg.issi_whitelist = vec![1];
    assert!(cfg.allows(2, Some(&[2])), "override list is authoritative");
    assert!(!cfg.allows(1, Some(&[2])), "config list is ignored when overridden");
    assert!(cfg.allows(9, Some(&[])), "empty override under auto = open");

    cfg.whitelist_mode = WhitelistMode::Enforce;
    assert!(!cfg.allows(9, Some(&[])), "empty override under enforce = deny-all");
}

#[test]
fn issi_keys_parses_valid_hex_and_skips_malformed_entries() {
    let mut raw = HashMap::new();
    raw.insert("1001".to_string(), "0123456789abcdef0123456789abcdef".to_string());
    raw.insert("1002".to_string(), "tooshort".to_string()); // wrong length
    raw.insert("1003".to_string(), "zz23456789abcdef0123456789abcdef".to_string()); // not hex
    raw.insert("not_a_number".to_string(), "0123456789abcdef0123456789abcdef".to_string()); // bad ISSI

    let parsed = parse_issi_keys(raw);
    assert_eq!(parsed.len(), 1, "only the well-formed entry should survive");
    assert_eq!(
        parsed.get(&1001),
        Some(&[0x01, 0x23, 0x45, 0x67, 0x89, 0xab, 0xcd, 0xef, 0x01, 0x23, 0x45, 0x67, 0x89, 0xab, 0xcd, 0xef])
    );
    assert!(!parsed.contains_key(&1002));
    assert!(!parsed.contains_key(&1003));
}

#[test]
fn authentication_required_defaults_to_off() {
    let cfg = CfgSecurity::default();
    assert!(!cfg.authentication_required, "strict mode must never be the default");
    assert!(!cfg.authentication_enabled);
}

/// Strict registration requires BOTH flags; assert the config can express that combination and
/// that `required` alone does not imply `enabled`.
#[test]
fn required_alone_does_not_enable_authentication() {
    let mut cfg = CfgSecurity::default();
    cfg.authentication_required = true;
    assert!(!cfg.authentication_enabled, "required must not silently switch authentication on");
}

#[test]
fn sck_parses_only_a_well_formed_20_hex_char_key() {
    assert_eq!(
        parse_sck(Some("00112233445566778899".to_string())),
        Some([0x00, 0x11, 0x22, 0x33, 0x44, 0x55, 0x66, 0x77, 0x88, 0x99])
    );
    assert_eq!(parse_sck(None), None);
    assert_eq!(parse_sck(Some("001122".to_string())), None, "too short must not be accepted");
    assert_eq!(
        parse_sck(Some("00112233445566778899AABB".to_string())),
        None,
        "too long must not be accepted"
    );
    assert_eq!(
        parse_sck(Some("zz112233445566778899".to_string())),
        None,
        "non-hex must not be accepted"
    );
}

/// A malformed or absent key must leave encryption off rather than silently using zeros.
#[test]
fn bad_sck_does_not_produce_a_usable_key() {
    let mut cfg = CfgSecurity::default();
    cfg.encryption_enabled = true;
    cfg.sck = parse_sck(Some("not-a-valid-key".to_string()));
    assert!(cfg.sck.is_none(), "a rejected key must not become Some([0u8; 10])");
}

#[test]
fn keys_are_hexadecimal_digits_and_nothing_else() {
    assert_eq!(
        parse_sck(Some(" \t00aAfF33445566778899\n".to_string())),
        Some([0x00, 0xaa, 0xff, 0x33, 0x44, 0x55, 0x66, 0x77, 0x88, 0x99])
    );
    // A sign is no digit, and neither is a letter that takes two bytes.
    assert_eq!(parse_sck(Some("+0+1+2+3+4+5+6+7+8+9".to_string())), None);
    assert_eq!(parse_sck(Some("é0112233445566778899".to_string())), None);
    assert_eq!(parse_sck(Some("éééééééééé".to_string())), None);
    assert_eq!(parse_sck(Some("".to_string())), None);
    assert_eq!(parse_sck(Some("0011223344 556677889".to_string())), None);
}

#[test]
fn issi_entries_are_read_in_order() {
    let k = "000102030405060708090a0b0c0d0e0f";
    let l = "ffffffffffffffffffffffffffffffff";
    let entries: Vec<(String, String)> = [
        (" 7 ", k),
        ("+8", l),
        ("4294967295", k),
        ("4294967296", k),
        ("-1", k),
        ("", k),
        ("+", k),
        ("9", "00"),
        ("007", l),
    ]
    .iter()
    .map(|(issi, key)| (issi.to_string(), key.to_string()))
    .collect();
    let keys = parse_issi_entries(&entries);
    assert_eq!(keys.len(), 3);
    // Of two entries for the same ISSI the last one counts.
    assert_eq!(keys.get(&7), Some(&[0xff; 16]));
    assert_eq!(keys.get(&8), Some(&[0xff; 16]));
    assert_eq!(
        keys.get(&u32::MAX),
        Some(&[0, 1, 2, 3, 4, 5, 6, 7, 8, 9, 10, 11, 12, 13, 14, 15])
    );
    assert_eq!(parse_issi_entries(&Vec::new()).len(), 0);
}

#[test]
fn every_entry_of_the_table_is_read() {
    let mut raw = HashMap::new();
    for issi in 0u32..200 {
        raw.insert(issi.to_string(), format!("{:032x}", issi));
    }
    let keys = parse_issi_keys(raw);
    assert_eq!(keys.len(), 200);
    for issi in 0u32..200 {
        let mut k = [0u8; 16];
        k[15] = issi as u8;
        assert_eq!(keys.get(&issi), Some(&k));
    }
}

#[test]
fn modes_are_named_in_words() {
    assert_eq!(WhitelistMode::parse("auto"), Some(WhitelistMode::Auto));
    assert_eq!(WhitelistMode::parse(" Open\n"), Some(WhitelistMode::Open));
    assert_eq!(WhitelistMode::parse("OFF"), Some(WhitelistMode::Open));
    assert_eq!(WhitelistMode::parse("disabled"), Some(WhitelistMode::Open));
    assert_eq!(WhitelistMode::parse("\u{3000}Enforce\u{a0}"), Some(WhitelistMode::Enforce));
    assert_eq!(WhitelistMode::parse("strict"), Some(WhitelistMode::Enforce));
    assert_eq!(WhitelistMode::parse("stricter"), None);
    assert_eq!(WhitelistMode::parse(""), None);
    assert_eq!(WhitelistMode::default(), WhitelistMode::Auto);
}

#[test]
fn postures_are_described() {
    let mut cfg = CfgSecurity::default();
    assert_eq!(
        cfg.access_control_posture(),
        "OPEN — no issi_whitelist configured; ANY ISSI may register (set whitelist_mode = \"enforce\" to lock down)"
    );
    cfg.whitelist_mode = WhitelistMode::Enforce;
    assert_eq!(
        cfg.access_control_posture(),
        "DENY-ALL — whitelist_mode = \"enforce\" with an empty issi_whitelist"
    );
    cfg.issi_whitelist = (0..12).collect();
    assert_eq!(cfg.access_control_posture(), "ALLOW-LIST (enforced) — 12 ISSI(s) may register");
    cfg.whitelist_mode = WhitelistMode::Auto;
    assert_eq!(cfg.access_control_posture(), "ALLOW-LIST — 12 ISSI(s) may register");
    cfg.whitelist_mode = WhitelistMode::Open;
    assert_eq!(
        cfg.access_control_posture(),
        "OPEN — access control disabled (whitelist_mode = \"open\")"
    );
}

#[test]
fn security_settings_override_the_defaults() {
    let cfg = apply_security_patch(CfgSecurityDto::default());
    assert!(cfg.issi_whitelist.is_empty());
    assert_eq!(cfg.whitelist_mode, WhitelistMode::Auto);
    assert!(cfg.honour_unauthenticated_detach);
    assert_eq!(cfg.max_registered_clients, 2048);
    assert_eq!(cfg.registration_rate_limit_per_min, 30);
    assert!(!cfg.authentication_enabled && !cfg.authentication_required && !cfg.encryption_enabled);
    assert!(cfg.issi_keys.is_empty());
    assert_eq!(cfg.sck, None);

    let mut issi_keys = HashMap::new();
    issi_keys.insert("5".to_string(), "11".repeat(16));
    let cfg = apply_security_patch(CfgSecurityDto {
        issi_whitelist: vec![3, 4],
        whitelist_mode: Some("ENFORCE".to_string()),
        honour_unauthenticated_detach: Some(false),
        max_registered_clients: Some(0),
        registration_rate_limit_per_min: Some(7),
        authentication_enabled: Some(true),
        issi_keys,
        authentication_required: Some(true),
        encryption_enabled: Some(true),
        sck: Some("ff".repeat(10)),
    });
    assert_eq!(cfg.issi_whitelist, vec![3, 4]);
    assert_eq!(cfg.whitelist_mode, WhitelistMode::Enforce);
    assert!(!cfg.honour_unauthenticated_detach);
    assert_eq!(cfg.max_registered_clients, 0);
    assert_eq!(cfg.registration_rate_limit_per_min, 7);
    assert!(cfg.authentication_enabled && cfg.authentication_required && cfg.encryption_enabled);
    assert_eq!(cfg.issi_keys.get(&5), Some(&[0x11; 16]));
    assert_eq!(cfg.sck, Some([0xff; 10]));

    // A mode that is not known is no lockdown, and says so in the posture.
    let cfg = apply_security_patch(CfgSecurityDto {
        whitelist_mode: Some("enforced".to_string()),
        ..CfgSecurityDto::default()
    });
    assert_eq!(cfg.whitelist_mode, WhitelistMode::Auto);
}

/// The `[recovery]` table `text` with the defaults of the keys that it lacks.
fn recovery_table(text: &str) -> CfgRecoveryDto {
    let table: toml::Table = text.parse().unwrap();
    let number = |key: &str| table.get(key).and_then(|v| v.as_integer());
    CfgRecoveryDto {
        enabled: table.get("enabled").and_then(|v| v.as_bool()).unwrap_or(false),
        issi_allowlist: Vec::new(),
        cache_path: None,
        max_replay_attempts: number("max_replay_attempts")
            .map_or(default_max_replay_attempts(), |n| n as u32),
        replay_per_frame: number("replay_per_frame").map_or(default_replay_per_frame(), |n| n as u32),
        debounce_secs: number("debounce_secs").map_or(default_debounce_secs(), |n| n as u64),
        max_cached_issis: number("max_cached_issis").map_or(default_max_cached_issis(), |n| n as u32),
        extra: Vec::new(),
    }
}

#[test]
fn serde_defaults_apply_when_only_enabled_set() {
    // A minimal `[recovery]` table with just `enabled = true` must pick up the field defaults
    // (these are applied while the table is read, NOT by `Default`).
    let dto = recovery_table("enabled = true");
    let c = apply_recovery_patch(dto);
    assert!(c.enabled);
    assert!(c.issi_allowlist.is_empty());
    assert_eq!(c.max_replay_attempts, 150);
    assert_eq!(c.replay_per_frame, 1);
    assert_eq!(c.debounce_secs, 5);
    assert_eq!(c.max_cached_issis, 1024);
}

#[test]
fn clamps_out_of_range() {
    let dto = CfgRecoveryDto {
        enabled: true,
        max_replay_attempts: 0,
        replay_per_frame: 0,
        debounce_secs: 0,
        max_cached_issis: 0,
        ..Default::default()
    };
    let c = apply_recovery_patch(dto);
    assert_eq!(c.max_replay_attempts, 1);
    assert_eq!(c.replay_per_frame, 1);
    assert_eq!(c.debounce_secs, 1);
    assert_eq!(c.max_cached_issis, 1);

    let dto = CfgRecoveryDto { replay_per_frame: 999, max_cached_issis: 9_999_999, ..Default::default() };
    let c = apply_recovery_patch(dto);
    assert_eq!(c.replay_per_frame, 18);
    assert_eq!(c.max_cached_issis, 65535);
}

#[test]
fn empty_cache_path_becomes_none() {
    // The documented `cache_path = ""` must mean "use the default", not a literal empty path.
    let dto = CfgRecoveryDto { cache_path: Some("   ".to_string()), ..Default::default() };
    assert_eq!(apply_recovery_patch(dto).cache_path, None);
    let dto = CfgRecoveryDto { cache_path: Some("/etc/fs/cache.json".to_string()), ..Default::default() };
    assert_eq!(apply_recovery_patch(dto).cache_path.as_deref(), Some("/etc/fs/cache.json"));
}

#[test]
fn recovery_settings_in_range_stay() {
    let c = apply_recovery_patch(CfgRecoveryDto {
        enabled: true,
        issi_allowlist: vec![1, 2],
        cache_path: Some(" x ".to_string()),
        max_replay_attempts: 500,
        replay_per_frame: 18,
        debounce_secs: 300,
        max_cached_issis: 65535,
        extra: vec!["enable".to_string()],
    });
    assert_eq!(c.issi_allowlist, vec![1, 2]);
    assert_eq!(c.cache_path.as_deref(), Some(" x "));
    assert_eq!(c.max_replay_attempts, 500);
    assert_eq!(c.replay_per_frame, 18);
    assert_eq!(c.debounce_secs, 300);
    assert_eq!(c.max_cached_issis, 65535);
    let c = apply_recovery_patch(CfgRecoveryDto {
        max_replay_attempts: 501,
        debounce_secs: u64::MAX,
        ..Default::default()
    });
    assert_eq!(c.max_replay_attempts, 500);
    assert_eq!(c.debounce_secs, 300);
    let c = CfgRecovery::default();
    assert!(!c.enabled);
    assert_eq!(c.max_replay_attempts, 150);
    assert_eq!(c.max_cached_issis, 1024);
}
