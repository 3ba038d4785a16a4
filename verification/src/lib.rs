//! Incremental photo indexing: the decisions of a one-way sync from a photo
//! directory to a remote index, as a verified library.
//!
//! A run asks the index server once for the paths that it holds
//! ([`remote_index`]), walks the photo directory, reads the name, the
//! extension and the relative path of each file from its path
//! ([`path_meta`]), and takes the files that are new and have an extension
//! that is indexed. Of each such file it records the EXIF entries and the
//! time at which the picture was taken ([`exif`]), which it reads from the
//! file name where the entries give none ([`filename_time`], [`calendar`]).
//! The records are gathered into batches that are embedded and uploaded one
//! by one ([`pipeline`]). [`query_service`] holds the decisions of the
//! service that embeds text queries.
//!
//! Reading files, computing vectors and talking to the server are left to the
//! caller, who hands their results to the library as plain values.

pub mod calendar;
pub mod exif;
pub mod filename_time;
pub mod path_meta;
pub mod pipeline;
pub mod query_service;
pub mod remote_index;
pub mod text;
