use airp_core::error::AirpError;
use airp_core::security::{
    check_relative_path, constant_time_eq, resolve_relative, strip_utf8_bom, validate_id_segment,
};

#[test]
fn test_validate_id_segment_accepts_normal() {
    assert!(validate_id_segment("alice").is_ok());
    assert!(validate_id_segment("艾米丽").is_ok());
    assert!(validate_id_segment("test_char-01").is_ok());
    assert!(validate_id_segment("v1.2").is_ok());
}

#[test]
fn test_validate_id_segment_rejects_traversal() {
    assert!(validate_id_segment("").is_err());
    assert!(validate_id_segment(".").is_err());
    assert!(validate_id_segment("..").is_err());
    assert!(validate_id_segment("../etc").is_err());
    assert!(validate_id_segment("a/b").is_err());
    assert!(validate_id_segment("a\\b").is_err());
    assert!(validate_id_segment("a:b").is_err());
    assert!(validate_id_segment(".hidden").is_err());
    assert!(validate_id_segment("a\0b").is_err());
    assert!(validate_id_segment("evil..bypass").is_err());
}

#[test]
fn audit_4_unicode_homoglyph_passes_validation() {
    let id = "alice\u{2215}bob";
    assert!(validate_id_segment(id).is_ok());
}

#[test]
fn validate_id_messages() {
    assert_eq!(validate_id_segment(""), Err(AirpError::BadRequest("ID 为空".to_string())));
    assert_eq!(validate_id_segment(".."), Err(AirpError::BadRequest("非法 ID: ..".to_string())));
    assert_eq!(
        validate_id_segment(".x"),
        Err(AirpError::BadRequest("ID 不允许以点开头: .x".to_string()))
    );
    assert_eq!(
        validate_id_segment("a\\b"),
        Err(AirpError::BadRequest(format!("ID 含非法字符 {:?}: a\\b", '\\')))
    );
    assert_eq!(
        validate_id_segment("a\0b"),
        Err(AirpError::BadRequest(format!("ID 含非法字符 {:?}: a\0b", '\0')))
    );
    assert_eq!(
        validate_id_segment("a\"b"),
        Err(AirpError::BadRequest(format!("ID 含非法字符 {:?}: a\"b", '"')))
    );
    assert_eq!(
        validate_id_segment("a..b"),
        Err(AirpError::BadRequest("ID 含 ..: a..b".to_string()))
    );
}

#[test]
fn test_strip_utf8_bom() {
    assert_eq!(strip_utf8_bom("\u{FEFF}hello"), "hello");
    assert_eq!(strip_utf8_bom("hello"), "hello");
    assert_eq!(strip_utf8_bom(""), "");
    assert_eq!(strip_utf8_bom("\u{FEFF}"), "");
}

#[test]
fn test_a2_5_constant_time_eq() {
    assert!(constant_time_eq(b"secret", b"secret"));
    assert!(!constant_time_eq(b"secret", b"secreT"));
    assert!(!constant_time_eq(b"secret", b"secre"));
    assert!(constant_time_eq(b"", b""));
}

#[test]
fn relative_paths_resolve_below_the_base() {
    assert_eq!(resolve_relative("./a/./b/./c").unwrap(), vec!["a", "b", "c"]);
    assert_eq!(resolve_relative("a/b/../c").unwrap(), vec!["a", "c"]);
    assert_eq!(resolve_relative(" x//y/ ").unwrap(), vec!["x", "y"]);
    assert_eq!(resolve_relative("a/.../b").unwrap(), vec!["a", "...", "b"]);
}

#[test]
fn relative_paths_refused() {
    assert_eq!(resolve_relative("   "), Err(AirpError::BadRequest("路径为空".to_string())));
    assert_eq!(
        resolve_relative("/etc/passwd"),
        Err(AirpError::BadRequest("拒绝绝对路径: /etc/passwd".to_string()))
    );
    assert!(resolve_relative("\\Windows\\x").is_err());
    assert!(resolve_relative("C:/x").is_err());
    assert_eq!(resolve_relative("ab\0cd"), Err(AirpError::BadRequest("路径包含空字节".to_string())));
    assert_eq!(
        resolve_relative("../../secret"),
        Err(AirpError::PathEscape("../../secret".to_string()))
    );
    assert_eq!(resolve_relative("a/.."), Err(AirpError::BadRequest("路径解析为空".to_string())));
    assert_eq!(check_relative_path("  a/b  "), Ok("a/b".to_string()));
    // A drive-like colon after a multi-byte first character is no drive letter.
    assert_eq!(check_relative_path("卷:1"), Ok("卷:1".to_string()));
}

#[test]
fn error_status_and_message() {
    let e = AirpError::BadRequest("missing field".to_string());
    assert!(e.message().contains("missing field"));
    assert_eq!(e.status(), 400);
    assert_eq!(AirpError::NotFound("x".to_string()).status(), 404);
    assert_eq!(AirpError::QuotaExceeded("x".to_string()).status(), 429);
    assert_eq!(AirpError::Upstream { status: 503, body: "down".to_string() }.status(), 502);
    assert_eq!(AirpError::Internal("x".to_string()).status(), 500);
    assert_eq!(
        AirpError::Upstream { status: 503, body: "down".to_string() }.message(),
        "上游 API 返回 503: down"
    );
    assert!(AirpError::Io("x".to_string()).message().contains("I/O"));
}

#[test]
fn path_escape_message_quotes_the_path() {
    let e = airp_core::error::AirpError::PathEscape("a\"b\\c".to_string());
    assert_eq!(e.message(), "路径越出 data_root: \"a\\\"b\\\\c\"");
}

#[test]
fn test_error_display() {
    let e = AirpError::BadRequest("missing field".to_string());
    assert!(e.message().contains("missing field"));

    let io = AirpError::Io("x".to_string());
    assert!(io.message().contains("I/O"));
}
