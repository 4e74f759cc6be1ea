//! The world's level document, kept for one lookup: its version.

use crate::document::{gunzip_prefix, inflate_gzip, plain_child, read_plain_child};
use crate::layout::{is_well_laid_out, well_laid_out};
use crate::tag::{child, get_child, Tag};
use vstd::prelude::*;

verus! {

/// Why a level document could not be read.
#[derive(Debug)]
pub enum LevelDatError {
    /// The decompressed document has a negative or overlong length, an
    /// unknown tag kind, or nesting past the depth limit.
    BadLayout,
    /// The decompressed document did not decode into a tree.
    Tree(nbt::Error),
}

/// A world's level document: its file name and the root's "Data" child.
#[derive(Debug)]
pub struct LevelDat {
    pub filename: String,
    pub data: Option<Tag>,
}

impl LevelDat {
    /// Decodes a gzip-compressed level document read from `leveldat_filename`.
    pub fn new(leveldat_filename: &str, bytes: &[u8]) -> (r: Result<LevelDat, LevelDatError>)
        ensures
            !well_laid_out(gunzip_prefix(bytes@)) ==> (r matches Err(LevelDatError::BadLayout)),
            well_laid_out(gunzip_prefix(bytes@)) ==> match r {
                Ok(l) => plain_child(gunzip_prefix(bytes@), "Data"@) == Some(l.data) && l.filename@
                    == leveldat_filename@,
                Err(e) => plain_child(gunzip_prefix(bytes@), "Data"@) is None && e is Tree,
            },
    {
        let doc = inflate_gzip(bytes);
        if !is_well_laid_out(doc.as_slice()) {
            return Err(LevelDatError::BadLayout);
        }
        match read_plain_child(doc.as_slice(), "Data") {
            Ok(data) => Ok(LevelDat { filename: leveldat_filename.to_owned(), data }),
            Err(e) => Err(LevelDatError::Tree(e)),
        }
    }

    /// The "Version" child of the "Data" compound, if there is one.
    pub fn version(&self) -> (r: Option<&Tag>)
        ensures
            match r {
                Some(v) => match self.data {
                    Some(d) => child(d, "Version"@) == Some(*v),
                    None => false,
                },
                None => match self.data {
                    Some(d) => child(d, "Version"@) is None,
                    None => true,
                },
            },
    {
        match &self.data {
            Some(d) => get_child(d, "Version"),
            None => None,
        }
    }
}

} // verus!
