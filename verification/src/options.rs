//! The public option set of a signing run and its builder methods.

use vstd::prelude::*;
use crate::errors::ZSignError;

verus! {

/// Options of one signing run over a bundle or raw binary.
#[derive(Debug, Default)]
pub struct ZSignOptions {
    /// Path of the bundle or binary to sign.
    pub input_path: String,
    /// Path of the signing certificate, unless ad-hoc.
    pub cert_file: Option<String>,
    /// Path of the private key, unless ad-hoc.
    pub pkey_file: Option<String>,
    /// Path of the provisioning profile, if any.
    pub prov_file: Option<String>,
    /// Passphrase of the private key, if it is protected.
    pub password: Option<String>,
    /// Sign with the ad-hoc identity instead of a certificate.
    pub adhoc: bool,
    /// Emit a single SHA-256 CodeDirectory instead of the SHA-1 + SHA-256 pair.
    pub sha256_only: bool,
    /// Bundle identifier override.
    pub bundle_id: Option<String>,
    /// Bundle display-name override.
    pub bundle_name: Option<String>,
    /// Bundle version override.
    pub bundle_version: Option<String>,
    /// Path of the entitlements file to embed.
    pub entitlements_file: Option<String>,
    /// Paths of dylibs to inject before signing.
    pub dylib_files: Vec<String>,
    /// Mark injected dylibs as weakly bound.
    pub weak_inject: bool,
    /// Re-sign over an existing signature instead of failing.
    pub force: bool,
    /// Verify the existing signature instead of signing.
    pub check_signature: bool,
    /// Working directory for temporaries.
    pub temp_folder: Option<String>,
    /// Verbose diagnostics.
    pub debug: bool,
    /// Suppress diagnostics.
    pub quiet: bool,
}

impl ZSignOptions {
    /// A fresh option set for `input_path` with every other option unset.
    pub fn new(input_path: String) -> (r: Self)
        ensures
            r.input_path == input_path,
            r.cert_file is None,
            r.pkey_file is None,
            r.prov_file is None,
            r.password is None,
            !r.adhoc,
            !r.sha256_only,
            r.bundle_id is None,
            r.bundle_name is None,
            r.bundle_version is None,
            r.entitlements_file is None,
            r.dylib_files@.len() == 0,
            !r.weak_inject,
            !r.force,
            !r.check_signature,
            r.temp_folder is None,
            !r.debug,
            !r.quiet,
    {
        ZSignOptions {
            input_path,
            cert_file: None,
            pkey_file: None,
            prov_file: None,
            password: None,
            adhoc: false,
            sha256_only: false,
            bundle_id: None,
            bundle_name: None,
            bundle_version: None,
            entitlements_file: None,
            dylib_files: Vec::new(),
            weak_inject: false,
            force: false,
            check_signature: false,
            temp_folder: None,
            debug: false,
            quiet: false,
        }
    }

    /// Selects the ad-hoc identity.
    pub fn with_adhoc_signing(self) -> (r: Self)
        ensures
            r == (ZSignOptions { adhoc: true, ..self }),
    {
        ZSignOptions { adhoc: true, ..self }
    }

    /// Sets the certificate path.
    pub fn with_cert_file(self, cert_file: String) -> (r: Self)
        ensures
            r == (ZSignOptions { cert_file: Some(cert_file), ..self }),
    {
        ZSignOptions { cert_file: Some(cert_file), ..self }
    }

    /// Sets the private-key path.
    pub fn with_pkey_file(self, pkey_file: String) -> (r: Self)
        ensures
            r == (ZSignOptions { pkey_file: Some(pkey_file), ..self }),
    {
        ZSignOptions { pkey_file: Some(pkey_file), ..self }
    }

    /// Sets the provisioning-profile path.
    pub fn with_prov_file(self, prov_file: String) -> (r: Self)
        ensures
            r == (ZSignOptions { prov_file: Some(prov_file), ..self }),
    {
        ZSignOptions { prov_file: Some(prov_file), ..self }
    }

    /// Sets the private-key passphrase.
    pub fn with_password(self, password: String) -> (r: Self)
        ensures
            r == (ZSignOptions { password: Some(password), ..self }),
    {
        ZSignOptions { password: Some(password), ..self }
    }

    /// Overrides the bundle identifier.
    pub fn with_bundle_id(self, bundle_id: String) -> (r: Self)
        ensures
            r == (ZSignOptions { bundle_id: Some(bundle_id), ..self }),
    {
        ZSignOptions { bundle_id: Some(bundle_id), ..self }
    }

    /// Overrides the bundle display name.
    pub fn with_bundle_name(self, bundle_name: String) -> (r: Self)
        ensures
            r == (ZSignOptions { bundle_name: Some(bundle_name), ..self }),
    {
        ZSignOptions { bundle_name: Some(bundle_name), ..self }
    }

    /// Overrides the bundle version.
    pub fn with_bundle_version(self, bundle_version: String) -> (r: Self)
        ensures
            r == (ZSignOptions { bundle_version: Some(bundle_version), ..self }),
    {
        ZSignOptions { bundle_version: Some(bundle_version), ..self }
    }

    /// Sets the entitlements file to embed.
    pub fn with_entitlements_file(self, entitlements_file: String) -> (r: Self)
        ensures
            r == (ZSignOptions { entitlements_file: Some(entitlements_file), ..self }),
    {
        ZSignOptions { entitlements_file: Some(entitlements_file), ..self }
    }

    /// Sets the working directory for temporaries.
    pub fn with_temp_folder(self, temp_folder: String) -> (r: Self)
        ensures
            r == (ZSignOptions { temp_folder: Some(temp_folder), ..self }),
    {
        ZSignOptions { temp_folder: Some(temp_folder), ..self }
    }

    /// Marks injected dylibs as weakly bound.
    pub fn with_weak_inject(self) -> (r: Self)
        ensures
            r == (ZSignOptions { weak_inject: true, ..self }),
    {
        ZSignOptions { weak_inject: true, ..self }
    }

    /// Permits re-signing over an existing signature.
    pub fn with_force(self) -> (r: Self)
        ensures
            r == (ZSignOptions { force: true, ..self }),
    {
        ZSignOptions { force: true, ..self }
    }

    /// Requests verification of the existing signature instead of signing.
    pub fn with_check_signature(self) -> (r: Self)
        ensures
            r == (ZSignOptions { check_signature: true, ..self }),
    {
        ZSignOptions { check_signature: true, ..self }
    }

    /// Suppresses diagnostics.
    pub fn with_quiet(self) -> (r: Self)
        ensures
            r == (ZSignOptions { quiet: true, ..self }),
    {
        ZSignOptions { quiet: true, ..self }
    }

    /// Requests verbose diagnostics.
    pub fn with_debug(self) -> (r: Self)
        ensures
            r == (ZSignOptions { debug: true, ..self }),
    {
        ZSignOptions { debug: true, ..self }
    }

    /// Queues one dylib path for injection before signing.
    pub fn add_dylib(self, dylib_path: String) -> (r: Self)
        ensures
            r.dylib_files@ == self.dylib_files@.push(dylib_path),
            r.input_path == self.input_path,
            r.cert_file == self.cert_file,
            r.pkey_file == self.pkey_file,
            r.prov_file == self.prov_file,
            r.password == self.password,
            r.adhoc == self.adhoc,
            r.sha256_only == self.sha256_only,
            r.bundle_id == self.bundle_id,
            r.bundle_name == self.bundle_name,
            r.bundle_version == self.bundle_version,
            r.entitlements_file == self.entitlements_file,
            r.weak_inject == self.weak_inject,
            r.force == self.force,
            r.check_signature == self.check_signature,
            r.temp_folder == self.temp_folder,
            r.debug == self.debug,
            r.quiet == self.quiet,
    {
        let mut opts = self;
        opts.dylib_files.push(dylib_path);
        opts
    }

    /// Checks that an identity is available: ad-hoc, or a certificate path
    /// together with a private-key path.
    pub fn validate_identity(&self) -> (r: Result<(), ZSignError>)
        ensures
            r is Ok <==> (self.adhoc || (self.cert_file is Some && self.pkey_file is Some)),
            r is Err ==> r == Err::<(), ZSignError>(ZSignError::InvalidInput),
    {
        if self.adhoc {
            Ok(())
        } else if self.cert_file.is_some() && self.pkey_file.is_some() {
            Ok(())
        } else {
            Err(ZSignError::InvalidInput)
        }
    }
}

} // verus!
