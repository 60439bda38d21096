//! Reductions over typed binary arrays held in object storage.
//!
//! A request names an object, describes how its bytes are laid out (element
//! type, byte order, shape, memory order, compression and filters) and asks for
//! a reduction over an optional strided selection, skipping missing data. This
//! crate holds the rules of that pipeline: the array model, the filter chain,
//! the byte-order normaliser, the reduction kernels, the admission ledger for
//! shared resources and the step order of a request.
pub mod app;
pub mod array;
pub mod byte_order;
pub mod compression;
pub mod error;
pub mod filter_pipeline;
pub mod filters;
pub mod handler;
pub mod headers;
pub mod missing;
pub mod models;
pub mod operation;
pub mod operations;
pub mod resource_manager;
pub mod s3_client;
pub mod types;
