use zsign::errors::{SignError, ZSignError};
use zsign::get_version;
use zsign::options::ZSignOptions;

#[test]
fn version_is_static() {
    assert_eq!(get_version(), "0.5.0");
    assert_eq!(get_version(), get_version());
}

#[test]
fn builder_sets_fields() {
    let opts = ZSignOptions::new(String::from("/tmp/app.ipa"))
        .with_adhoc_signing()
        .with_bundle_id(String::from("com.example"))
        .with_bundle_name(String::from("Example"))
        .with_bundle_version(String::from("1.0"))
        .with_entitlements_file(String::from("/tmp/ent.plist"))
        .with_temp_folder(String::from("/tmp/work"))
        .with_weak_inject()
        .with_force()
        .with_check_signature()
        .with_quiet()
        .with_debug()
        .add_dylib(String::from("/tmp/a.dylib"))
        .add_dylib(String::from("/tmp/b.dylib"));
    assert_eq!(opts.input_path, "/tmp/app.ipa");
    assert!(opts.adhoc);
    assert_eq!(opts.bundle_id.as_deref(), Some("com.example"));
    assert_eq!(opts.bundle_name.as_deref(), Some("Example"));
    assert_eq!(opts.bundle_version.as_deref(), Some("1.0"));
    assert_eq!(opts.entitlements_file.as_deref(), Some("/tmp/ent.plist"));
    assert_eq!(opts.temp_folder.as_deref(), Some("/tmp/work"));
    assert!(opts.weak_inject && opts.force && opts.check_signature);
    assert!(opts.quiet && opts.debug);
    assert_eq!(opts.dylib_files, vec!["/tmp/a.dylib", "/tmp/b.dylib"]);
    assert!(opts.cert_file.is_none() && opts.pkey_file.is_none());
}

#[test]
fn builder_cert_identity() {
    let opts = ZSignOptions::new(String::from("x"))
        .with_cert_file(String::from("c.pem"))
        .with_pkey_file(String::from("k.pem"))
        .with_prov_file(String::from("p.mobileprovision"))
        .with_password(String::from("SECRET-REDACTED"));
    assert_eq!(opts.cert_file.as_deref(), Some("c.pem"));
    assert_eq!(opts.pkey_file.as_deref(), Some("k.pem"));
    assert_eq!(opts.prov_file.as_deref(), Some("p.mobileprovision"));
    assert!(opts.password.is_some());
    assert!(opts.validate_identity().is_ok());
}

#[test]
fn validate_identity_requires_key_material() {
    let bare = ZSignOptions::new(String::from("x"));
    assert_eq!(bare.validate_identity(), Err(ZSignError::InvalidInput));
    let half = ZSignOptions::new(String::from("x")).with_cert_file(String::from("c"));
    assert_eq!(half.validate_identity(), Err(ZSignError::InvalidInput));
    let adhoc = ZSignOptions::new(String::from("x")).with_adhoc_signing();
    assert!(adhoc.validate_identity().is_ok());
}

#[test]
fn engine_errors_fold_to_boundary() {
    assert_eq!(SignError::InvalidInput.to_boundary(), ZSignError::InvalidInput);
    assert_eq!(SignError::NotSigned.to_boundary(), ZSignError::NotSigned);
    assert_eq!(SignError::Unknown(7).to_boundary(), ZSignError::Unknown(7));
    assert_eq!(SignError::MalformedBinary.to_boundary(), ZSignError::SigningFailed);
    assert_eq!(SignError::LayoutOverflow.to_boundary(), ZSignError::SigningFailed);
    assert_eq!(SignError::IdentifierTooLong.to_boundary(), ZSignError::SigningFailed);
    assert_eq!(SignError::AlreadySigned.to_boundary(), ZSignError::SigningFailed);
    assert_eq!(SignError::SigningFailed.to_boundary(), ZSignError::SigningFailed);
}

#[test]
fn error_messages() {
    assert_eq!(ZSignError::InvalidInput.message(), "Invalid input parameters");
    assert_eq!(ZSignError::SigningFailed.message(), "Signing operation failed");
    assert_eq!(ZSignError::NotSigned.message(), "File is not signed");
    assert_eq!(ZSignError::Unknown(-3).message(), "Unknown error");
}
