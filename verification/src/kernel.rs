//! A whole kernel: the file record, and with its help the comment area's
//! catalog and the list of segments.

use vstd::prelude::*;
use crate::chain::{all_blocks, models, walk, walk_directory, Segment, SegmentModel};
use crate::comment::{extract_catalog, parse_comment, Catalog, CatalogModel};
use crate::error::SpkError;
use crate::header::{decode_header, parse_header, FileHeader, HeaderModel};

verus! {

/// What a kernel holds. The catalog and the segments each stand or fall on
/// their own.
#[derive(Debug, PartialEq, Eq)]
pub struct Kernel {
    pub header: FileHeader,
    pub catalog: Result<Catalog, SpkError>,
    pub segments: Result<Vec<Segment>, SpkError>,
}

/// A kernel as plain values.
pub struct KernelModel {
    pub header: HeaderModel,
    pub catalog: Result<CatalogModel, SpkError>,
    pub segments: Result<Seq<SegmentModel>, SpkError>,
}

impl View for Kernel {
    type V = KernelModel;

    open spec fn view(&self) -> KernelModel {
        KernelModel {
            header: self.header@,
            catalog: match self.catalog {
                Ok(catalog) => Ok(catalog@),
                Err(e) => Err(e),
            },
            segments: match self.segments {
                Ok(segments) => Ok(models(segments@)),
                Err(e) => Err(e),
            },
        }
    }
}

/// The comment area of a kernel whose first directory block is
/// `first_block`: the blocks between the file record and that block. There
/// is none where the directory is said to start in the file record's own
/// block or nowhere, or beyond the end of the buffer.
pub open spec fn comment_area_of(buf: Seq<u8>, first_block: u32) -> Result<Seq<u8>, SpkError> {
    if first_block < 2 || (first_block - 1) * 1024 > buf.len() {
        Err(SpkError::Truncated)
    } else {
        Ok(buf.subrange(1024, (first_block - 1) * 1024))
    }
}

/// What decoding a kernel gives: nothing without the file record; with
/// it, the catalog of the comment area and the segments of the directory
/// chain, or for each the reason why it could not be read.
pub open spec fn parse_kernel(buf: Seq<u8>) -> Result<KernelModel, SpkError> {
    match parse_header(buf, true) {
        Err(e) => Err(e),
        Ok(header) => Ok(
            KernelModel {
                header,
                catalog: match comment_area_of(buf, header.first_summary_block) {
                    Err(e) => Err(e),
                    Ok(area) => parse_comment(area),
                },
                segments: walk(buf, header.first_summary_block as int, all_blocks(buf)),
            },
        ),
    }
}

/// The comment area of a kernel whose first directory block is
/// `first_block`. Fails with `Truncated` where there is none.
pub fn comment_area(buf: &[u8], first_block: u32) -> (r: Result<&[u8], SpkError>)
    ensures
        match r {
            Ok(area) => comment_area_of(buf@, first_block) == Ok::<Seq<u8>, SpkError>(area@),
            Err(e) => comment_area_of(buf@, first_block) == Err::<Seq<u8>, SpkError>(e),
        },
{
    if first_block < 2 || (first_block - 1) as usize > buf.len() / 1024 {
        return Err(SpkError::Truncated);
    }
    Ok(&buf[1024..(first_block as usize - 1) * 1024])
}

/// Decodes a kernel. Fails as `decode_header` does; what fails behind the
/// file record is told in the part that it concerns.
pub fn decode_kernel(buf: &[u8]) -> (r: Result<Kernel, SpkError>)
    ensures
        match r {
            Ok(kernel) => parse_kernel(buf@) == Ok::<KernelModel, SpkError>(kernel@),
            Err(e) => parse_kernel(buf@) == Err::<KernelModel, SpkError>(e),
        },
{
    let header = decode_header(buf, true)?;
    let catalog = match comment_area(buf, header.first_summary_block) {
        Err(e) => Err(e),
        Ok(area) => extract_catalog(area),
    };
    let segments = walk_directory(buf, header.first_summary_block);
    Ok(Kernel { header, catalog, segments })
}

} // verus!
