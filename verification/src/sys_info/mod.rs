//! Hardware information: the platform-independent parts of reading the
//! machine's identifiers.
pub mod linux;
pub mod timing;
