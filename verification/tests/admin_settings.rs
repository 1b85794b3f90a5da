use paracord::routes::admin::{
    backup_content_disposition, backup_include_media, check_settings_update, check_user_delete,
    check_user_flags_update, security_events_limit, user_page, validate_backup_filename,
    validate_backup_name, validate_setting, CreateBackupRequest, PaginationParams,
    UpdateUserRequest,
};
use paracord::error::ApiError;

fn bad(e: ApiError) -> String {
    match e {
        ApiError::BadRequest(m) => m,
        _ => panic!("expected a bad request"),
    }
}

#[test]
fn validate_setting_rejects_unknown_bool_value() {
    assert!(validate_setting("registration_enabled", "maybe").is_err());
}

#[test]
fn validate_setting_rejects_zero_limits() {
    assert!(validate_setting("max_members_per_guild", "0").is_err());
}

#[test]
fn validate_setting_accepts_valid_numeric_limits() {
    assert!(validate_setting("max_guilds_per_user", "100").is_ok());
}

#[test]
fn validate_setting_messages_name_the_rule() {
    assert_eq!(
        validate_setting("registration_enabled", "maybe").unwrap_err(),
        "registration_enabled: must be \"true\" or \"false\""
    );
    assert_eq!(
        validate_setting("max_members_per_guild", "0").unwrap_err(),
        "max_members_per_guild: must be between 1 and 100000"
    );
    assert_eq!(
        validate_setting("max_guilds_per_user", "100001").unwrap_err(),
        "max_guilds_per_user: must be between 1 and 100000"
    );
    assert_eq!(
        validate_setting("max_guilds_per_user", "-1").unwrap_err(),
        "max_guilds_per_user: must be a positive integer"
    );
    assert_eq!(
        validate_setting("max_guild_storage_quota", "lots").unwrap_err(),
        "max_guild_storage_quota: must be a positive integer"
    );
    assert_eq!(
        validate_setting("server_name", "   ").unwrap_err(),
        "server_name: must be 1-256 characters"
    );
    let long = "x".repeat(257);
    assert_eq!(
        validate_setting("server_description", &long).unwrap_err(),
        "server_description: must be at most 256 characters"
    );
    assert!(validate_setting("server_description", &"x".repeat(256)).is_ok());
    assert!(validate_setting("federation_file_cache_enabled", "false").is_ok());
    assert!(validate_setting("max_guild_storage_quota", "+5").is_ok());
    assert!(validate_setting("anything_else", "whatever").is_ok());
}

#[test]
fn settings_update_checks_keys_then_values_and_trims_names() {
    let unknown = vec![
        ("server_name".to_string(), "x".to_string()),
        ("colour".to_string(), "red".to_string()),
    ];
    assert_eq!(bad(check_settings_update(&unknown).unwrap_err()), "unknown setting: \"colour\"");
    let invalid = vec![("registration_enabled".to_string(), "yes".to_string())];
    assert_eq!(
        bad(check_settings_update(&invalid).unwrap_err()),
        "registration_enabled: must be \"true\" or \"false\""
    );
    let ok = vec![
        ("server_name".to_string(), "  Home  ".to_string()),
        ("max_guilds_per_user".to_string(), " 7".to_string()),
    ];
    assert!(check_settings_update(&ok).is_err());
    let ok = vec![
        ("server_name".to_string(), "  Home  ".to_string()),
        ("max_guilds_per_user".to_string(), "7".to_string()),
    ];
    let out = check_settings_update(&ok).unwrap();
    assert_eq!(out[0], ("server_name".to_string(), "Home".to_string()));
    assert_eq!(out[1], ("max_guilds_per_user".to_string(), "7".to_string()));
}

#[test]
fn listing_limits_are_clamped() {
    assert_eq!(security_events_limit(None), 100);
    assert_eq!(security_events_limit(Some(0)), 1);
    assert_eq!(security_events_limit(Some(9000)), 500);
    assert_eq!(security_events_limit(Some(42)), 42);
    assert_eq!(user_page(&PaginationParams { offset: None, limit: None }), (0, 50));
    assert_eq!(user_page(&PaginationParams { offset: Some(10), limit: Some(500) }), (10, 100));
}

#[test]
fn admins_keep_their_own_rights() {
    assert_eq!(
        bad(check_user_flags_update(1, 1, &UpdateUserRequest { flags: Some(0) }, false).unwrap_err()),
        "Cannot remove your own admin status"
    );
    assert_eq!(check_user_flags_update(2, 1, &UpdateUserRequest { flags: Some(0) }, false).unwrap(), 0);
    assert_eq!(
        bad(check_user_flags_update(2, 1, &UpdateUserRequest { flags: None }, true).unwrap_err()),
        "No updates provided"
    );
    assert_eq!(bad(check_user_delete(5, 5).unwrap_err()), "Cannot delete yourself");
    assert!(check_user_delete(5, 6).is_ok());
}

#[test]
fn backup_names_stay_in_the_backup_directory() {
    assert!(validate_backup_name("backup-1.tar.gz").is_ok());
    assert_eq!(bad(validate_backup_name("../etc").unwrap_err()), "Invalid backup name");
    assert_eq!(bad(validate_backup_name("a/b").unwrap_err()), "Invalid backup name");
    assert_eq!(bad(validate_backup_name("a\\b").unwrap_err()), "Invalid backup name");
    assert_eq!(bad(validate_backup_filename("backup.zip").unwrap_err()), "Invalid backup filename");
    assert!(validate_backup_filename("backup.tar.gz").is_ok());
    assert_eq!(
        backup_content_disposition("b.tar.gz"),
        "attachment; filename=\"b.tar.gz\""
    );
    assert!(backup_include_media(&None));
    assert!(!backup_include_media(&Some(CreateBackupRequest { include_media: Some(false) })));
    assert!(backup_include_media(&Some(CreateBackupRequest { include_media: None })));
}
