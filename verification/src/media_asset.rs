//! Browser-owned media asset contracts.
//!
//! Session creation and playback polling happen off the script thread, so
//! the shared source boundary for browser-owned transport is a blocking
//! random-access byte source. The media layer only receives resolved assets
//! and byte reads.

use std::sync::Arc;

use vstd::prelude::*;

verus! {

/// Where the bytes of a natively played medium come from, on the delegated
/// playback path that predates resolved assets.
#[derive(Clone, Debug)]
pub enum MediaOrigin {
    /// In-memory bytes (e.g. decoded from a data: URL or blob).
    InMemory(Arc<Vec<u8>>),
    /// HTTP/HPPR URL.
    Network(String),
    /// Local filesystem path.
    Filesystem(String),
}

/// Metadata attached to a resolved media asset.
#[derive(Debug, PartialEq, Eq)]
pub struct MediaAssetMetadata {
    pub content_length: u64,
    pub content_type: Option<String>,
}

impl Clone for MediaAssetMetadata {
    fn clone(&self) -> (r: Self)
        ensures
            r == *self,
    {
        let content_type = match &self.content_type {
            Some(t) => Some(t.clone()),
            None => None,
        };
        MediaAssetMetadata { content_length: self.content_length, content_type }
    }
}

impl MediaAssetMetadata {
    pub fn new(content_length: u64, content_type: Option<String>) -> (r: Self)
        ensures
            r.content_length == content_length,
            r.content_type == content_type,
    {
        Self { content_length, content_type }
    }
}

/// Blocking byte source for resolved media assets.
///
/// Implementations must clamp reads to the asset length and return an empty
/// buffer when `start` is at or past end-of-stream.
pub trait MediaByteSource: Send + Sync {
    fn read_range(&self, start: u64, len: usize) -> Result<Vec<u8>, String>;
}

/// The byte range `start..end` that a read of `len` bytes from `start` covers
/// in an asset of `content_length` bytes, or `None` when it covers nothing.
pub open spec fn clamped_range(content_length: u64, start: u64, len: usize) -> Option<(u64, u64)> {
    if len == 0 || start >= content_length {
        None
    } else if start + len >= content_length {
        Some((start, content_length))
    } else {
        Some((start, (start + len) as u64))
    }
}

/// Clamp a requested byte range to the known asset length.
pub fn clamp_byte_range(content_length: u64, start: u64, len: usize) -> (r: Option<(u64, u64)>)
    ensures
        r == clamped_range(content_length, start, len),
{
    if len == 0 || start >= content_length {
        return None;
    }
    let wanted = start.saturating_add(len as u64);
    let end = if wanted <= content_length { wanted } else { content_length };
    Some((start, end))
}

/// A browser-resolved media asset handed to the media playback layer. The
/// byte source is any `MediaByteSource`, by default a shared trait object.
pub struct ResolvedMediaAsset<S: MediaByteSource + ?Sized = dyn MediaByteSource> {
    metadata: MediaAssetMetadata,
    byte_source: Arc<S>,
}

impl<S: MediaByteSource + ?Sized> Clone for ResolvedMediaAsset<S> {
    fn clone(&self) -> (r: Self)
        ensures
            r.spec_metadata() == self.spec_metadata(),
            r.spec_byte_source() == self.spec_byte_source(),
    {
        ResolvedMediaAsset { metadata: self.metadata.clone(), byte_source: Arc::clone(&self.byte_source) }
    }
}

impl<S: MediaByteSource + ?Sized> ResolvedMediaAsset<S> {
    /// The asset's metadata.
    pub closed spec fn spec_metadata(&self) -> MediaAssetMetadata {
        self.metadata
    }

    /// The source that the asset's bytes are read from.
    pub closed spec fn spec_byte_source(&self) -> Arc<S> {
        self.byte_source
    }

    pub fn new(metadata: MediaAssetMetadata, byte_source: Arc<S>) -> (r: Self)
        ensures
            r.spec_metadata() == metadata,
            r.spec_byte_source() == byte_source,
    {
        Self { metadata, byte_source }
    }

    pub fn metadata(&self) -> (r: &MediaAssetMetadata)
        ensures
            *r == self.spec_metadata(),
    {
        &self.metadata
    }

    pub fn content_length(&self) -> (r: u64)
        ensures
            r == self.spec_metadata().content_length,
    {
        self.metadata.content_length
    }

    pub fn content_type(&self) -> (r: Option<&str>)
        ensures
            match r {
                Some(t) => self.spec_metadata().content_type matches Some(c) && t@ == c@,
                None => self.spec_metadata().content_type is None,
            },
    {
        match &self.metadata.content_type {
            Some(t) => Some(t.as_str()),
            None => None,
        }
    }

    pub fn byte_source(&self) -> (r: Arc<S>)
        ensures
            r == self.spec_byte_source(),
    {
        Arc::clone(&self.byte_source)
    }

    /// Reads `len` bytes from `start` through the asset's byte source: the
    /// result is one that the source's `read_range` gives for this read.
    pub fn read_range(&self, start: u64, len: usize) -> (r: Result<Vec<u8>, String>)
        ensures
            call_ensures(S::read_range, (&*self.spec_byte_source(), start, len), r),
    {
        let read = S::read_range;
        read(&*self.byte_source, start, len)
    }
}

} // verus!
