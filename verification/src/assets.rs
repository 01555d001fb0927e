//! The asset-bundle model: per-asset metadata as it is laid out in the
//! game executable's bundle section.
use vstd::prelude::*;

verus! {

/// The metadata record that precedes one asset in the bundle.
pub struct AssetMeta {
    /// Position in the executable where this record starts.
    pub offset: u64,
    /// Length of the hashed file path.
    pub filepath_len: u32,
    /// The hash of the file path.
    pub filepath_hash: Vec<u8>,
    /// Whether the asset is encrypted and compressed.
    pub is_encrypted: bool,
    /// Position in the executable where the asset's data starts.
    pub asset_offset: u64,
    /// The size of the asset's data.
    pub asset_len: u32,
}

impl AssetMeta {
    /// How many bytes the record and its asset occupy together: the
    /// eight-byte header, the hashed path, the encryption flag byte,
    /// and the data.
    pub fn total_size(&self) -> (r: u64)
        ensures
            r == 8 + self.filepath_len + 1 + self.asset_len,
    {
        8 + self.filepath_len as u64 + 1 + self.asset_len as u64
    }
}

/// One asset of the bundle: its metadata, and — once resolved and
/// loaded — its file path and data.
pub struct Asset {
    pub meta: AssetMeta,
    pub filepath: Option<Vec<u8>>,
    pub data: Option<Vec<u8>>,
}

/// The byte lane a DDS channel bit mask selects: each recognized mask
/// picks its little-endian byte position, anything else falls back to
/// the first lane.
pub fn get_idx_from_mask(idx: Option<u32>) -> (r: usize)
    ensures
        idx == Some(0xFFu32) ==> r == 0,
        idx == Some(0xFF00u32) ==> r == 1,
        idx == Some(0xFF0000u32) ==> r == 2,
        idx == Some(0xFF000000u32) ==> r == 3,
        !(idx == Some(0xFFu32) || idx == Some(0xFF00u32) || idx == Some(0xFF0000u32) || idx
            == Some(0xFF000000u32)) ==> r == 0,
{
    match idx {
        Some(0xFF) => 0,
        Some(0xFF00) => 1,
        Some(0xFF0000) => 2,
        Some(0xFF000000) => 3,
        _ => 0,
    }
}

} // verus!
