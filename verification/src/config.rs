//! Transport configurations: what a caller supplies to open an SSH,
//! SFTP or FTP connection.

use vstd::prelude::*;

verus! {

/// How an SSH or SFTP connection authenticates.
#[derive(Debug, Clone, PartialEq, Eq)]
pub enum AuthMethod {
    Password { password: String },
    PublicKey { key_path: String, passphrase: Option<String> },
}

/// Configuration of an SSH shell connection.
#[derive(Debug, Clone)]
pub struct SshConfig {
    pub host: String,
    pub port: u16,
    pub username: String,
    pub auth_method: AuthMethod,
}

/// How a standalone SFTP connection authenticates.
#[derive(Debug, Clone, PartialEq, Eq)]
pub enum SftpAuthMethod {
    Password { password: String },
    PublicKey { key_path: String, passphrase: Option<String> },
}

/// Configuration of a standalone SFTP connection (SSH transport, no
/// interactive terminal).
#[derive(Debug, Clone)]
pub struct SftpConfig {
    pub host: String,
    pub port: u16,
    pub username: String,
    pub auth_method: SftpAuthMethod,
}

/// Configuration of an FTP/FTPS connection.
#[derive(Debug, Clone)]
pub struct FtpConfig {
    pub host: String,
    pub port: u16,
    pub username: String,
    pub password: String,
    pub ftps_enabled: bool,
    pub anonymous: bool,
}

/// One configuration for any of the supported transports.
#[derive(Debug, Clone)]
pub enum TransportConfig {
    Ssh(SshConfig),
    Sftp(SftpConfig),
    Ftp(FtpConfig),
}

impl TransportConfig {
    /// Which protocol this configuration opens.
    pub fn protocol(&self) -> (r: crate::registry::ProtocolKind)
        ensures
            r == (match self {
                TransportConfig::Ssh(_) => crate::registry::ProtocolKind::Ssh,
                TransportConfig::Sftp(_) => crate::registry::ProtocolKind::Sftp,
                TransportConfig::Ftp(_) => crate::registry::ProtocolKind::Ftp,
            }),
    {
        match self {
            TransportConfig::Ssh(_) => crate::registry::ProtocolKind::Ssh,
            TransportConfig::Sftp(_) => crate::registry::ProtocolKind::Sftp,
            TransportConfig::Ftp(_) => crate::registry::ProtocolKind::Ftp,
        }
    }

    /// The credentials of an FTP login: the anonymous pair when the
    /// configuration asks for it, the configured pair otherwise.
    pub fn ftp_credentials(config: &FtpConfig) -> (r: (String, String))
        ensures
            config.anonymous ==> r.0@ == "anonymous"@ && r.1@ == "anonymous@"@,
            !config.anonymous ==> r.0@ == config.username@ && r.1@ == config.password@,
    {
        if config.anonymous {
            ("anonymous".to_owned(), "anonymous@".to_owned())
        } else {
            (config.username.clone(), config.password.clone())
        }
    }
}

} // verus!
