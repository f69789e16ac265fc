//! The parsed file as a whole: header plus tagged content.

use vstd::prelude::*;
use crate::direct::{BlpDxtn, BlpRaw1, BlpRaw3};
use crate::header::{BlpContentTag, BlpHeader};
use crate::jpeg::BlpJpeg;

verus! {

/// Maximum width a file can record, forced by the fixed depth of the
/// mipmap table.
pub const BLP_MAX_WIDTH: u32 = 65535;

/// Maximum height a file can record, forced by the fixed depth of the
/// mipmap table.
pub const BLP_MAX_HEIGHT: u32 = 65535;

/// Parsed information from a file. The structure of the type strictly
/// follows how the file is stored on disk, for lossless encoding and
/// decoding.
#[derive(Debug, Clone, PartialEq, Eq, Hash)]
pub struct BlpImage {
    pub header: BlpHeader,
    pub content: BlpContent,
}

/// All possible content layouts with their data.
#[derive(Debug, Clone, PartialEq, Eq, Hash)]
pub enum BlpContent {
    Jpeg(BlpJpeg),
    /// Paletted pixels; used with direct content before the newest
    /// version and with its first compression kind there.
    Raw1(BlpRaw1),
    /// Raw BGRA bitmap pixels; only the newest version stores these.
    Raw3(BlpRaw3),
    /// Block compression without alpha.
    Dxt1(BlpDxtn),
    /// Block compression with paletted alpha.
    Dxt3(BlpDxtn),
    /// Block compression with interpolated alpha.
    Dxt5(BlpDxtn),
}

/// How many mipmap level payloads the content holds.
pub open spec fn spec_image_count(c: BlpContent) -> int {
    match c {
        BlpContent::Jpeg(v) => v.images@.len() as int,
        BlpContent::Raw1(v) => v.images@.len() as int,
        BlpContent::Raw3(v) => v.images@.len() as int,
        BlpContent::Dxt1(v) => v.images@.len() as int,
        BlpContent::Dxt3(v) => v.images@.len() as int,
        BlpContent::Dxt5(v) => v.images@.len() as int,
    }
}

/// The content tag under which the content is stored.
pub open spec fn spec_content_tag(c: BlpContent) -> BlpContentTag {
    match c {
        BlpContent::Jpeg(_) => BlpContentTag::Jpeg,
        _ => BlpContentTag::Direct,
    }
}

impl BlpImage {
    /// Get the total count of level images encoded in the content.
    pub fn image_count(&self) -> (r: usize)
        ensures
            r == spec_image_count(self.content),
    {
        match &self.content {
            BlpContent::Dxt1(v) => v.images.len(),
            BlpContent::Dxt3(v) => v.images.len(),
            BlpContent::Dxt5(v) => v.images.len(),
            BlpContent::Raw1(v) => v.images.len(),
            BlpContent::Raw3(v) => v.images.len(),
            BlpContent::Jpeg(v) => v.images.len(),
        }
    }

    /// If the image holds JPEG content, return it.
    pub fn content_jpeg(&self) -> (r: Option<&BlpJpeg>)
        ensures
            match r {
                Some(v) => self.content == BlpContent::Jpeg(*v),
                None => !(self.content is Jpeg),
            },
    {
        self.content.jpeg()
    }

    /// If the image holds paletted content, return it.
    pub fn content_raw1(&self) -> (r: Option<&BlpRaw1>)
        ensures
            match r {
                Some(v) => self.content == BlpContent::Raw1(*v),
                None => !(self.content is Raw1),
            },
    {
        self.content.raw1()
    }

    /// If the image holds raw BGRA content, return it.
    pub fn content_raw3(&self) -> (r: Option<&BlpRaw3>)
        ensures
            match r {
                Some(v) => self.content == BlpContent::Raw3(*v),
                None => !(self.content is Raw3),
            },
    {
        self.content.raw3()
    }

    /// If the image holds block-compressed content without alpha, return it.
    pub fn content_dxt1(&self) -> (r: Option<&BlpDxtn>)
        ensures
            match r {
                Some(v) => self.content == BlpContent::Dxt1(*v),
                None => !(self.content is Dxt1),
            },
    {
        self.content.dxt1()
    }

    /// If the image holds block-compressed content with paletted alpha,
    /// return it.
    pub fn ontent_dxt3(&self) -> (r: Option<&BlpDxtn>)
        ensures
            match r {
                Some(v) => self.content == BlpContent::Dxt3(*v),
                None => !(self.content is Dxt3),
            },
    {
        self.content.dxt3()
    }

    /// If the image holds block-compressed content with interpolated
    /// alpha, return it.
    pub fn content_dxt5(&self) -> (r: Option<&BlpDxtn>)
        ensures
            match r {
                Some(v) => self.content == BlpContent::Dxt5(*v),
                None => !(self.content is Dxt5),
            },
    {
        self.content.dxt5()
    }
}

impl BlpContent {
    /// The content tag under which this content is stored.
    pub fn tag(&self) -> (r: BlpContentTag)
        ensures
            r == spec_content_tag(*self),
    {
        match self {
            BlpContent::Jpeg { .. } => BlpContentTag::Jpeg,
            BlpContent::Raw1 { .. } => BlpContentTag::Direct,
            BlpContent::Raw3 { .. } => BlpContentTag::Direct,
            BlpContent::Dxt1 { .. } => BlpContentTag::Direct,
            BlpContent::Dxt3 { .. } => BlpContentTag::Direct,
            BlpContent::Dxt5 { .. } => BlpContentTag::Direct,
        }
    }

    /// The JPEG content, when that is what is held.
    pub fn jpeg(&self) -> (r: Option<&BlpJpeg>)
        ensures
            match r {
                Some(v) => *self == BlpContent::Jpeg(*v),
                None => !(*self is Jpeg),
            },
    {
        match self {
            BlpContent::Jpeg(v) => Some(v),
            _ => None,
        }
    }

    /// The paletted content, when that is what is held.
    pub fn raw1(&self) -> (r: Option<&BlpRaw1>)
        ensures
            match r {
                Some(v) => *self == BlpContent::Raw1(*v),
                None => !(*self is Raw1),
            },
    {
        match self {
            BlpContent::Raw1(v) => Some(v),
            _ => None,
        }
    }

    /// The raw BGRA content, when that is what is held.
    pub fn raw3(&self) -> (r: Option<&BlpRaw3>)
        ensures
            match r {
                Some(v) => *self == BlpContent::Raw3(*v),
                None => !(*self is Raw3),
            },
    {
        match self {
            BlpContent::Raw3(v) => Some(v),
            _ => None,
        }
    }

    /// The alpha-free block-compressed content, when that is what is held.
    pub fn dxt1(&self) -> (r: Option<&BlpDxtn>)
        ensures
            match r {
                Some(v) => *self == BlpContent::Dxt1(*v),
                None => !(*self is Dxt1),
            },
    {
        match self {
            BlpContent::Dxt1(v) => Some(v),
            _ => None,
        }
    }

    /// The block-compressed content with paletted alpha, when that is
    /// what is held.
    pub fn dxt3(&self) -> (r: Option<&BlpDxtn>)
        ensures
            match r {
                Some(v) => *self == BlpContent::Dxt3(*v),
                None => !(*self is Dxt3),
            },
    {
        match self {
            BlpContent::Dxt3(v) => Some(v),
            _ => None,
        }
    }

    /// The block-compressed content with interpolated alpha, when that is
    /// what is held.
    pub fn dxt5(&self) -> (r: Option<&BlpDxtn>)
        ensures
            match r {
                Some(v) => *self == BlpContent::Dxt5(*v),
                None => !(*self is Dxt5),
            },
    {
        match self {
            BlpContent::Dxt5(v) => Some(v),
            _ => None,
        }
    }
}

} // verus!
