//! An htsget byte-range resolver library.
//!
//! Given a genomic file identifier and an optional region, the library
//! computes the minimal list of byte ranges of the underlying object that a
//! client must fetch and concatenate to obtain a valid, filtered genomic
//! file, together with the response model of the htsget protocol and an
//! optional Crypt4GH edit-list layer for encrypted objects.

pub mod bam_search;
pub mod bcf_search;
pub mod config;
pub mod cram_search;
pub mod decimal;
pub mod edit_list;
pub mod from_storage;
pub mod index;
pub mod response;
pub mod router;
pub mod s3;
pub mod search;
pub mod service_info;
pub mod storage;
pub mod ticket_server;
pub mod types;
pub mod vcf_search;
