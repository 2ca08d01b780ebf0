//! Configuration assembly and credential-format checks: the pure decisions
//! behind loading a configuration and validating credentials. Reading the
//! configuration file and calling the remote validator are caller concerns.

use vstd::prelude::*;

use crate::types::{Config, ProcessingError};

verus! {

use vstd::string::StringSliceAdditionalSpecFns;

/// Checks the local shape of the credentials before any remote call: the
/// device identifier must be exactly 36 bytes (a UUID), and the user index
/// must not be empty.
pub fn validate_credentials_format(device_id: &str, user_idx: &str) -> (r: Result<
    (),
    ProcessingError,
>)
    ensures
        device_id.spec_bytes().len() != 36 ==> (r matches Err(e) && (e
            matches ProcessingError::ConfigError(m) && m@
            == "Invalid device ID format (expected 36 characters)"@)),
        device_id.spec_bytes().len() == 36 && user_idx@.len() == 0 ==> (r matches Err(e) && (e
            matches ProcessingError::ConfigError(m) && m@ == "User index cannot be empty"@)),
        device_id.spec_bytes().len() == 36 && user_idx@.len() != 0 ==> r is Ok,
{
    if device_id.as_bytes().len() != 36 {
        return Err(
            ProcessingError::ConfigError(
                String::from_str("Invalid device ID format (expected 36 characters)"),
            ),
        );
    }
    if user_idx.is_empty() {
        return Err(ProcessingError::ConfigError(String::from_str("User index cannot be empty")));
    }
    Ok(())
}

/// The override rule: a value given on the command line replaces the stored
/// one; otherwise the stored one stands.
pub open spec fn spec_chosen(given: Option<String>, stored: String) -> String {
    match given {
        Some(v) => v,
        None => stored,
    }
}

/// Merges command-line overrides into a loaded configuration and checks
/// that the credentials are present: the merged configuration is returned
/// only when both the device identifier and the user index are non-empty.
pub fn apply_cli_overrides(
    config: Config,
    device_id: Option<String>,
    user_idx: Option<String>,
    output_dir: Option<String>,
    verbose: bool,
    organize: bool,
) -> (r: Result<Config, ProcessingError>)
    ensures
        r is Ok <==> spec_chosen(device_id, config.device_id)@.len() != 0 && spec_chosen(
            user_idx,
            config.user_idx,
        )@.len() != 0,
        r matches Ok(c) ==> {
            &&& c.device_id == spec_chosen(device_id, config.device_id)
            &&& c.user_idx == spec_chosen(user_idx, config.user_idx)
            &&& c.output_directory == (if output_dir is Some {
                output_dir
            } else {
                config.output_directory
            })
            &&& c.verbose == verbose
            &&& c.organize_output == organize
            &&& c.backup_originals == config.backup_originals
            &&& c.library_path == config.library_path
            &&& c.max_retries == config.max_retries
            &&& c.timeout_seconds == config.timeout_seconds
        },
        r matches Err(e) ==> e is ConfigError,
{
    let merged_device_id = match device_id {
        Some(d) => d,
        None => config.device_id,
    };
    let merged_user_idx = match user_idx {
        Some(u) => u,
        None => config.user_idx,
    };
    let merged_output = match output_dir {
        Some(o) => Some(o),
        None => config.output_directory,
    };
    if merged_device_id.as_str().is_empty() || merged_user_idx.as_str().is_empty() {
        return Err(
            ProcessingError::ConfigError(
                String::from_str(
                    "Missing credentials. Provide a device id and user index or use a config file.",
                ),
            ),
        );
    }
    Ok(
        Config {
            device_id: merged_device_id,
            user_idx: merged_user_idx,
            verbose,
            organize_output: organize,
            backup_originals: config.backup_originals,
            output_directory: merged_output,
            library_path: config.library_path,
            max_retries: config.max_retries,
            timeout_seconds: config.timeout_seconds,
        },
    )
}

} // verus!
