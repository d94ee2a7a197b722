use kettle::askpass::{
    check_reference_directory, check_reference_file, directory_is_trusted, executable_file_is_safe,
    validate_reference,
};

#[test]
fn accepts_only_structured_single_line_references() {
    assert!(validate_reference("op://Private/macOS/password").is_ok());
    assert!(validate_reference("op://Private/macOS/login/password").is_ok());
    for invalid in [
        "password",
        "op://vault/item",
        "op://vault//field",
        "op://vault/item/field\nextra",
        " op://vault/item/field",
    ] {
        assert!(validate_reference(invalid).is_err(), "accepted {invalid:?}");
    }
}

#[test]
fn reference_errors_say_what_is_wrong() {
    assert_eq!(validate_reference("password"), Err("sudo-secret must contain an op:// reference"));
    assert_eq!(
        validate_reference("op://a/b/c/d/e"),
        Err("sudo-secret must identify a vault, item, and field")
    );
    assert_eq!(
        validate_reference(&format!("op://v/i/{}", "f".repeat(1100))),
        Err("sudo-secret must contain one bounded reference")
    );
}

#[test]
fn reference_files_must_be_private() {
    assert!(check_reference_directory(true, 501, 0o700, 501).is_ok());
    assert!(check_reference_directory(true, 501, 0o720, 501).is_err());
    assert!(check_reference_file(true, 501, 0o600, 501).is_ok());
    assert!(check_reference_file(true, 501, 0o644, 501).is_err());
    assert!(check_reference_file(false, 501, 0o600, 501).is_err());
}

#[test]
fn the_cli_must_be_trusted() {
    assert!(executable_file_is_safe(true, 0o755, 0, 501));
    assert!(!executable_file_is_safe(true, 0o775, 0, 501));
    assert!(!executable_file_is_safe(true, 0o644, 501, 501));
    assert!(directory_is_trusted(true, 501, 0o755, 501));
    assert!(!directory_is_trusted(true, 501, 0o777, 501));
    assert!(!directory_is_trusted(true, 77, 0o755, 501));
}

#[test]
fn rejects_loose_reference_file_permissions() {
    let owner = 501;
    assert!(check_reference_directory(true, owner, 0o40700, owner).is_ok());
    assert!(check_reference_file(true, owner, 0o100600, owner).is_ok());
    assert!(check_reference_file(true, owner, 0o100644, owner).is_err());
}

#[test]
fn executable_requires_trusted_ownership_and_parent_permissions() {
    let owner = 501;
    assert!(executable_file_is_safe(true, 0o100700, owner, owner));
    assert!(directory_is_trusted(true, owner, 0o40700, owner));
    assert!(!directory_is_trusted(true, owner, 0o40777, owner));
}
