//! Turning scanned page images into recognized and corrected text: an
//! edge-density page filter, order-preserving collation of per-page results,
//! and the request and response checks of a text-correction service.
pub mod page_filter;
pub mod pipeline;
pub mod corrector;
pub mod raster;
