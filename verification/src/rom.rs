//! The image that a patch is applied to.

use vstd::prelude::*;

verus! {

/// A target image: its bytes, and the file extension it came with, which
/// travels along untouched so that the patched image can be named alike.
#[derive(Debug, PartialEq, Eq)]
pub struct Rom {
    pub extension: String,
    pub data: Vec<u8>,
}

/// A target image as plain values.
pub struct RomView {
    pub extension: Seq<char>,
    pub data: Seq<u8>,
}

impl View for Rom {
    type V = RomView;

    open spec fn view(&self) -> RomView {
        RomView { extension: self.extension@, data: self.data@ }
    }
}

} // verus!
