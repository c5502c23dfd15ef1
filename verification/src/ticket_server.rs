//! Formatting of the urls a response ticket points at, for the server
//! that answers them over https.

use vstd::prelude::*;
use vstd::string::StringExecFns;

verus! {

/// An https url formatter over a fixed address.
#[derive(Clone, Debug, PartialEq, Eq)]
pub struct HttpsFormatter {
    ip: String,
    port: String,
}

impl HttpsFormatter {
    /// Create a formatter from an address.
    pub fn new(ip: &str, port: &str) -> (r: Self)
        ensures
            r.spec_ip()@ == ip@,
            r.spec_port()@ == port@,
    {
        Self { ip: ip.to_owned(), port: port.to_owned() }
    }

    /// The url of a path under this formatter's authority.
    pub fn format_url(&self, path: &str) -> (r: String)
        ensures
            r@ == "https://"@ + self.spec_ip()@ + ":"@ + self.spec_port()@ + path@,
    {
        let mut out = "https://".to_owned();
        out.append(self.ip.as_str());
        out.append(":");
        out.append(self.port.as_str());
        out.append(path);
        out
    }

    pub closed spec fn spec_ip(&self) -> String {
        self.ip
    }

    pub closed spec fn spec_port(&self) -> String {
        self.port
    }
}

} // verus!
