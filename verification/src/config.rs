//! Server configuration data: addresses, resolver patterns, TLS key-pair
//! locations, Crypt4GH key locations and storage endpoints.

use vstd::prelude::*;
use vstd::string::StringExecFns;
use crate::types::Scheme;

verus! {

fn default_port() -> (r: String)
    ensures
        r@ == "8080"@,
{
    "8080".to_owned()
}

fn default_ip() -> (r: String)
    ensures
        r@ == "127.0.0.1"@,
{
    "127.0.0.1".to_owned()
}

fn default_path() -> (r: String)
    ensures
        r@ == "."@,
{
    ".".to_owned()
}

fn default_regex() -> (r: String)
    ensures
        r@ == ".*"@,
{
    ".*".to_owned()
}

fn default_replacement() -> (r: String)
    ensures
        r@ == "$0"@,
{
    "$0".to_owned()
}

/// Configuration for the server; each field can be read from the
/// environment by the surrounding program.
#[derive(Clone, Debug, PartialEq, Eq)]
pub struct Config {
    pub htsget_port: String,
    pub htsget_ip: String,
    pub htsget_path: String,
    pub htsget_regex: String,
    pub htsget_replacement: String,
    pub htsget_id: Option<String>,
    pub htsget_name: Option<String>,
    pub htsget_version: Option<String>,
    pub htsget_organization_name: Option<String>,
    pub htsget_organization_url: Option<String>,
    pub htsget_contact_url: Option<String>,
    pub htsget_documentation_url: Option<String>,
    pub htsget_created_at: Option<String>,
    pub htsget_updated_at: Option<String>,
    pub htsget_environment: Option<String>,
}

impl Default for Config {
    /// The local default configuration.
    fn default() -> (r: Self)
        ensures
            r.htsget_port@ == "8080"@,
            r.htsget_ip@ == "127.0.0.1"@,
            r.htsget_path@ == "."@,
            r.htsget_regex@ == ".*"@,
            r.htsget_replacement@ == "$0"@,
            r.htsget_id is None,
    {
        Config {
            htsget_port: default_port(),
            htsget_ip: default_ip(),
            htsget_path: default_path(),
            htsget_regex: default_regex(),
            htsget_replacement: default_replacement(),
            htsget_id: None,
            htsget_name: None,
            htsget_version: None,
            htsget_organization_name: None,
            htsget_organization_url: None,
            htsget_contact_url: None,
            htsget_documentation_url: None,
            htsget_created_at: None,
            htsget_updated_at: None,
            htsget_environment: None,
        }
    }
}

/// The locations of a Crypt4GH private key and of the recipient's public
/// key.
#[derive(Clone, Debug, PartialEq, Eq)]
pub struct C4GHPath {
    private_key: String,
    recipient_public_key: String,
}

impl C4GHPath {
    /// Create a new key-pair location.
    pub fn new(private_key: String, recipient_public_key: String) -> (r: Self)
        ensures
            r.spec_private_key() == private_key,
            r.spec_recipient_public_key() == recipient_public_key,
    {
        Self { private_key, recipient_public_key }
    }

    /// The private key location.
    pub fn private_key(&self) -> (r: &String)
        ensures
            r == self.spec_private_key(),
    {
        &self.private_key
    }

    /// The recipient public key location.
    pub fn recipient_public_key(&self) -> (r: &String)
        ensures
            r == self.spec_recipient_public_key(),
    {
        &self.recipient_public_key
    }

    pub closed spec fn spec_private_key(&self) -> String {
        self.private_key
    }

    pub closed spec fn spec_recipient_public_key(&self) -> String {
        self.recipient_public_key
    }
}

/// The index and file endpoints of a url storage backend.
#[derive(Clone, Debug, PartialEq, Eq)]
pub struct Endpoints {
    index: String,
    file: String,
}

impl Endpoints {
    /// Construct a new endpoints config.
    pub fn new(index: String, file: String) -> (r: Self)
        ensures
            r.spec_index() == index,
            r.spec_file() == file,
    {
        Self { index, file }
    }

    /// Get the index endpoint.
    pub fn index(&self) -> (r: &String)
        ensures
            r == self.spec_index(),
    {
        &self.index
    }

    /// Get the file endpoint.
    pub fn file(&self) -> (r: &String)
        ensures
            r == self.spec_file(),
    {
        &self.file
    }

    pub closed spec fn spec_index(&self) -> String {
        self.index
    }

    pub closed spec fn spec_file(&self) -> String {
        self.file
    }
}

/// A trait to determine which scheme a key pair option implies.
pub trait KeyPairScheme {
    /// Get the scheme.
    fn get_scheme(&self) -> Scheme;
}

/// The location of a certificate and key pair used for TLS: the paths to
/// the PEM formatted X.509 certificate and private key.
#[derive(Clone, Debug, PartialEq, Eq)]
pub struct CertificateKeyPairPath {
    cert: String,
    key: String,
}

impl CertificateKeyPairPath {
    /// Create a new certificate key pair location.
    pub fn new(cert: String, key: String) -> (r: Self)
        ensures
            r.spec_cert() == cert,
            r.spec_key() == key,
    {
        Self { cert, key }
    }

    /// Get the cert path.
    pub fn cert(&self) -> (r: &String)
        ensures
            r == self.spec_cert(),
    {
        &self.cert
    }

    /// Get the key path.
    pub fn key(&self) -> (r: &String)
        ensures
            r == self.spec_key(),
    {
        &self.key
    }

    pub closed spec fn spec_cert(&self) -> String {
        self.cert
    }

    pub closed spec fn spec_key(&self) -> String {
        self.key
    }
}

impl<'a> KeyPairScheme for Option<&'a CertificateKeyPairPath> {
    /// A configured key pair means https; none means http.
    fn get_scheme(&self) -> Scheme {
        match self {
            None => Scheme::Http,
            Some(_) => Scheme::Https,
        }
    }
}

} // verus!
