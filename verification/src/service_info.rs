//! Service info data: the package information a service reports and the
//! free-form fields of its service-info document.

use vstd::prelude::*;
use vstd::string::StringExecFns;
use crate::types::hdr_wf;

verus! {

/// Package info used to populate the service info.
#[derive(Clone, Debug, PartialEq, Eq)]
pub struct PackageInfo {
    pub id: String,
    pub name: String,
    pub version: String,
    pub description: String,
    pub documentation_url: String,
}

impl PackageInfo {
    /// Create a new package info.
    pub fn new(
        id: String,
        name: String,
        version: String,
        description: String,
        documentation_url: String,
    ) -> (r: Self)
        ensures
            r.id == id,
            r.name == name,
            r.version == version,
            r.description == description,
            r.documentation_url == documentation_url,
    {
        Self { id, name, version, description, documentation_url }
    }
}

/// Organization info for the service info.
#[derive(Clone, Debug, Default, PartialEq, Eq)]
pub struct Organization {
    pub name: Option<String>,
    pub url: Option<String>,
}

/// Service info config: free-form fields with unique keys. The reserved
/// keys of the protocol's own document may not be set.
#[derive(Clone, Debug, PartialEq, Eq)]
pub struct ServiceInfo {
    fields: Vec<(String, String)>,
}

impl ServiceInfo {
    /// Create a service info from fields with unique keys; the reserved
    /// `type` and `htsget` keys are refused.
    pub fn new(fields: Vec<(String, String)>) -> (r: Result<Self, crate::types::HtsGetError>)
        requires
            hdr_wf(fields@.map_values(|p: (String, String)| (p.0@, p.1@))),
        ensures
            match r {
                Ok(info) => (forall|j: int|
                    0 <= j < fields@.len() ==> (#[trigger] fields@[j]).0@ != "type"@
                        && fields@[j].0@ != "htsget"@) && info.spec_fields() == fields,
                Err(e) => (exists|j: int|
                    0 <= j < fields@.len() && ((#[trigger] fields@[j]).0@ == "type"@
                        || fields@[j].0@ == "htsget"@)) && e is ParseError,
            },
    {
        let reserved_type = "type".to_owned();
        let reserved_htsget = "htsget".to_owned();
        let n = fields.len();
        let mut i: usize = 0;
        while i < n
            invariant
                n == fields@.len(),
                i <= n,
                reserved_type@ == "type"@,
                reserved_htsget@ == "htsget"@,
                forall|j: int| 0 <= j < i ==> (#[trigger] fields@[j]).0@ != "type"@
                    && fields@[j].0@ != "htsget"@,
            decreases n - i,
        {
            if fields[i].0 == reserved_type || fields[i].0 == reserved_htsget {
                return Err(crate::types::HtsGetError::parse_error(
                    "reserved service info field",
                ));
            }
            i += 1;
        }
        Ok(Self { fields })
    }

    /// The fields.
    pub fn into_inner(self) -> (r: Vec<(String, String)>)
        ensures
            r == self.spec_fields(),
    {
        self.fields
    }

    /// A reference to the fields.
    pub fn as_ref_inner(&self) -> (r: &Vec<(String, String)>)
        ensures
            r == self.spec_fields(),
    {
        &self.fields
    }

    pub closed spec fn spec_fields(&self) -> Vec<(String, String)> {
        self.fields
    }
}

} // verus!
