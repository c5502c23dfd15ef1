//! The VCF search engine: BGZF search over the tabix index, with the
//! contigs enumerated from the index when the header omits them.

use vstd::prelude::*;
use std::sync::Arc;
use crate::from_storage::{ReferenceMeta, resolve_response, spec_unmapped_start};
use crate::index::BinningIndex;
use crate::search::BGZF_EOF_LEN;
use crate::types::{Format, HtsGetError, Query, Response};

verus! {

/// The search engine for VCF files over a storage backend.
#[derive(Debug)]
pub struct VcfSearch<S> {
    storage: Arc<S>,
}

impl<S> VcfSearch<S> {
    /// Create a VCF search over the shared storage handle.
    pub fn new(storage: Arc<S>) -> (r: Self)
        ensures
            r.spec_storage() == storage,
    {
        Self { storage }
    }

    pub closed spec fn spec_storage(&self) -> Arc<S> {
        self.storage
    }

    /// The format this engine serves.
    pub fn get_format(&self) -> (r: Format)
        ensures
            r == Format::Vcf,
    {
        Format::Vcf
    }

    /// Resolve a VCF query against the index's contigs, producing the
    /// response for the object at `url`.
    pub fn resolve(
        &self,
        query: &Query,
        contigs: &Vec<ReferenceMeta>,
        index: &BinningIndex,
        header_end: u64,
        file_size: u64,
        url: &str,
    ) -> (r: Result<Response, HtsGetError>)
        requires
            query.format == Format::Vcf,
            index.wf(),
            file_size >= BGZF_EOF_LEN,
            1 <= header_end <= file_size - BGZF_EOF_LEN,
            spec_unmapped_start(*index, header_end) <= file_size - BGZF_EOF_LEN,
        ensures
            resolve_response.ensures((query, contigs, index, header_end, file_size, url), r),
    {
        resolve_response(query, contigs, index, header_end, file_size, url)
    }
}

} // verus!
