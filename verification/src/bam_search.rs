//! The BAM search engine: BGZF search with the reference-sequence table of
//! the SAM header, and the unmapped-reads path.

use vstd::prelude::*;
use std::sync::Arc;
use crate::from_storage::{ReferenceMeta, resolve_response, spec_unmapped_start};
use crate::index::BinningIndex;
use crate::search::BGZF_EOF_LEN;
use crate::types::{Format, HtsGetError, Query, Response};

verus! {

/// The search engine for BAM files over a storage backend.
#[derive(Debug)]
pub struct BamSearch<S> {
    storage: Arc<S>,
}

impl<S> BamSearch<S> {
    /// Create a BAM search over the shared storage handle.
    pub fn new(storage: Arc<S>) -> (r: Self)
        ensures
            r.spec_storage() == storage,
    {
        Self { storage }
    }

    pub closed spec fn spec_storage(&self) -> Arc<S> {
        self.storage
    }

    /// The format this engine serves.
    pub fn get_format(&self) -> (r: Format)
        ensures
            r == Format::Bam,
    {
        Format::Bam
    }

    /// Resolve a BAM query against the parsed header and index, producing
    /// the response for the object at `url`.
    pub fn resolve(
        &self,
        query: &Query,
        refs: &Vec<ReferenceMeta>,
        index: &BinningIndex,
        header_end: u64,
        file_size: u64,
        url: &str,
    ) -> (r: Result<Response, HtsGetError>)
        requires
            query.format == Format::Bam,
            index.wf(),
            file_size >= BGZF_EOF_LEN,
            1 <= header_end <= file_size - BGZF_EOF_LEN,
            spec_unmapped_start(*index, header_end) <= file_size - BGZF_EOF_LEN,
        ensures
            resolve_response.ensures((query, refs, index, header_end, file_size, url), r),
    {
        resolve_response(query, refs, index, header_end, file_size, url)
    }
}

} // verus!
