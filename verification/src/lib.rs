use vstd::prelude::*;

pub mod assemble;
pub mod codec;
pub mod dom;
pub mod images;
pub mod names;
pub mod sniff;
pub mod statejson;
pub mod textutil;

pub use codec::base64_decode;
pub use codec::base64_encode;

verus! {

/// Metadata recovered from one fetched document: a title, a description,
/// the gallery image locations, and an optional video location.
pub struct ScrapedData {
    pub title: String,
    pub description: String,
    pub images: Vec<String>,
    pub video: Option<String>,
}

/// A publish request: the text fields plus the local paths of the files
/// that should accompany them.
pub struct PublishData {
    pub title: String,
    pub description: String,
    pub files: Vec<String>,
}

/// A fully assembled payload: the i-th content, name and media type all
/// describe the same source file.
pub struct PublishDataWithContent {
    pub title: String,
    pub description: String,
    pub file_contents: Vec<String>,
    pub file_names: Vec<String>,
    pub file_mimes: Vec<String>,
}

impl PublishDataWithContent {
    /// The three file sequences move together: equal lengths, matching indices.
    pub open spec fn wf(self) -> bool {
        self.file_contents@.len() == self.file_names@.len()
        && self.file_names@.len() == self.file_mimes@.len()
    }
}

} // verus!
