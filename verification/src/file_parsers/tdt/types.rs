use vstd::prelude::*;

verus! {

/// Number of bytes in a fixed block: a 23 x 23 grid.
pub const FIXED_BLOCK_LEN: usize = 529;

/// A parsed `.tdt` (tile data) file
#[derive(Debug)]
pub struct TDTFile {
    pub version: u32,
    pub strings: String,
    pub header: Header,
    pub tail: Option<Tail>,
}

#[derive(Debug)]
pub struct Header {
    pub tdt_file: Option<String>,
    pub flags: Option<u8>,
    pub num: Option<u16>,
    pub tgt_file: Option<String>,
    pub tag: Option<String>,
}

#[derive(Debug)]
pub struct Tail {
    pub side_ets: [Option<String>; 4],
    pub dims: [u8; 2],
    pub side_gts: [Option<String>; 4],
    pub dims2: [u8; 2],
    pub dims3: [u8; 2],
    pub side_offsets: [u8; 8],
    pub flags1: u8,
    pub flags2: u8,
    pub flags_rest: Vec<u8>,
    pub subtiles: Vec<Subtile>,
    pub trailing: Trailing,
}

#[derive(Debug)]
pub struct Subtile {
    pub kind: u8,
    pub value: u8,
    pub bytes: Vec<u8>,
    /// A 23 x 23 block of bytes (`FIXED_BLOCK_LEN` long)
    pub fixed_block: Option<Vec<u8>>,
    pub vary_block: Option<Vec<u8>>,
}

#[derive(Debug)]
pub struct Trailing {
    pub flags1_1_strings: Option<Vec<Option<String>>>,
    pub flags1_0_bools: Option<[bool; 4]>,
    pub strings: [Option<String>; 2],
    pub tail_bools: [bool; 3],
    pub flags1_3_string: Option<String>,
    /// Fixed blocks, each `FIXED_BLOCK_LEN` long
    pub flags1_4_blocks: Option<Vec<Vec<u8>>>,
    /// 32-bit little-endian floats, as their bit patterns
    pub flags1_5_floats: Option<Vec<u32>>,
}

/// Mathematical model of a [`Header`].
pub struct HeaderModel {
    pub tdt_file: Option<Seq<char>>,
    pub flags: Option<u8>,
    pub num: Option<u16>,
    pub tgt_file: Option<Seq<char>>,
    pub tag: Option<Seq<char>>,
}

/// Mathematical model of a [`Subtile`].
pub struct SubtileModel {
    pub kind: u8,
    pub value: u8,
    pub bytes: Seq<u8>,
    pub fixed_block: Option<Seq<u8>>,
    pub vary_block: Option<Seq<u8>>,
}

/// Mathematical model of a [`Trailing`].
pub struct TrailingModel {
    pub flags1_1_strings: Option<Seq<Option<Seq<char>>>>,
    pub flags1_0_bools: Option<Seq<bool>>,
    pub strings: Seq<Option<Seq<char>>>,
    pub tail_bools: Seq<bool>,
    pub flags1_3_string: Option<Seq<char>>,
    pub flags1_4_blocks: Option<Seq<Seq<u8>>>,
    pub flags1_5_floats: Option<Seq<u32>>,
}

/// Mathematical model of a [`Tail`].
pub struct TailModel {
    pub side_ets: Seq<Option<Seq<char>>>,
    pub dims: Seq<u8>,
    pub side_gts: Seq<Option<Seq<char>>>,
    pub dims2: Seq<u8>,
    pub dims3: Seq<u8>,
    pub side_offsets: Seq<u8>,
    pub flags1: u8,
    pub flags2: u8,
    pub flags_rest: Seq<u8>,
    pub subtiles: Seq<SubtileModel>,
    pub trailing: TrailingModel,
}

/// Mathematical model of a [`TDTFile`].
pub struct TDTFileModel {
    pub version: u32,
    pub strings: Seq<char>,
    pub header: HeaderModel,
    pub tail: Option<TailModel>,
}

impl DeepView for Header {
    type V = HeaderModel;

    open spec fn deep_view(&self) -> HeaderModel {
        HeaderModel {
            tdt_file: self.tdt_file.deep_view(),
            flags: self.flags,
            num: self.num,
            tgt_file: self.tgt_file.deep_view(),
            tag: self.tag.deep_view(),
        }
    }
}

impl DeepView for Subtile {
    type V = SubtileModel;

    open spec fn deep_view(&self) -> SubtileModel {
        SubtileModel {
            kind: self.kind,
            value: self.value,
            bytes: self.bytes@,
            fixed_block: self.fixed_block.deep_view(),
            vary_block: self.vary_block.deep_view(),
        }
    }
}

impl DeepView for Trailing {
    type V = TrailingModel;

    open spec fn deep_view(&self) -> TrailingModel {
        TrailingModel {
            flags1_1_strings: self.flags1_1_strings.deep_view(),
            flags1_0_bools: self.flags1_0_bools.deep_view(),
            strings: self.strings.deep_view(),
            tail_bools: self.tail_bools.deep_view(),
            flags1_3_string: self.flags1_3_string.deep_view(),
            flags1_4_blocks: self.flags1_4_blocks.deep_view(),
            flags1_5_floats: self.flags1_5_floats.deep_view(),
        }
    }
}

impl DeepView for Tail {
    type V = TailModel;

    open spec fn deep_view(&self) -> TailModel {
        TailModel {
            side_ets: self.side_ets.deep_view(),
            dims: self.dims.deep_view(),
            side_gts: self.side_gts.deep_view(),
            dims2: self.dims2.deep_view(),
            dims3: self.dims3.deep_view(),
            side_offsets: self.side_offsets.deep_view(),
            flags1: self.flags1,
            flags2: self.flags2,
            flags_rest: self.flags_rest@,
            subtiles: self.subtiles.deep_view(),
            trailing: self.trailing.deep_view(),
        }
    }
}

impl DeepView for TDTFile {
    type V = TDTFileModel;

    open spec fn deep_view(&self) -> TDTFileModel {
        TDTFileModel {
            version: self.version,
            strings: self.strings@,
            header: self.header.deep_view(),
            tail: self.tail.deep_view(),
        }
    }
}

} // verus!
