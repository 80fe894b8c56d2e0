//! What the encrypt and decrypt operations report to their caller, and where
//! containers are stored by default.

use vstd::prelude::*;
use vstd::string::*;

verus! {

/// The directory that holds containers by default.
pub open spec fn config_dir() -> Seq<char> {
    "C:\\ProgramData\\Btic\\ConfigConnectorBitrix"@
}

/// The directory that holds containers by default.
pub fn get_config_dir() -> (r: String)
    ensures
        r@ == config_dir(),
{
    String::from_str("C:\\ProgramData\\Btic\\ConfigConnectorBitrix")
}

/// The file name of the default container inside the default directory.
pub open spec fn default_file_name() -> Seq<char> {
    "config"@
}

/// The file name of the default container inside the default directory.
pub fn default_config_name() -> (r: String)
    ensures
        r@ == default_file_name(),
{
    String::from_str("config")
}

/// The outcome of a successful encryption.
pub struct EncryptionResult {
    pub success: bool,
    pub message: String,
    /// Where the container was written.
    pub file_path: String,
}

impl EncryptionResult {
    /// The report for a container written to `file_path`.
    pub fn saved_to(file_path: String) -> (r: EncryptionResult)
        ensures
            r.success,
            r.message@ == "Encryption successful. File saved to: "@ + file_path@,
            r.file_path@ == file_path@,
    {
        let mut message = String::from_str("Encryption successful. File saved to: ");
        message.append(file_path.as_str());
        EncryptionResult { success: true, message, file_path }
    }
}

/// The outcome of a successful decryption.
pub struct DecryptionResult {
    pub success: bool,
    pub message: String,
    /// The decrypted payload.
    pub json_data: String,
}

impl DecryptionResult {
    /// The report for a decrypted payload.
    pub fn decrypted(json_data: String) -> (r: DecryptionResult)
        ensures
            r.success,
            r.message@ == "Decryption successful"@,
            r.json_data@ == json_data@,
    {
        DecryptionResult { success: true, message: String::from_str("Decryption successful"), json_data }
    }
}

} // verus!
