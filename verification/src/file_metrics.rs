//! The size, allocation, identity and time metrics of one file, computed from
//! the raw fields the operating system reports for an open handle.
use crate::text::{decimal, u64_to_decimal};
use vstd::prelude::*;

verus! {

/// The size unit of `st_blocks` on Unix.
pub const UNIX_BLOCK_SIZE: u64 = 512;

/// The Win32 attribute bit of a directory.
pub const FILE_ATTRIBUTE_DIRECTORY: u32 = 0x0000_0010;

/// The Win32 attribute bit of a sparse file.
pub const FILE_ATTRIBUTE_SPARSE_FILE: u32 = 0x0000_0200;

/// The Win32 attribute bit of a reparse point (a link or junction).
pub const FILE_ATTRIBUTE_REPARSE_POINT: u32 = 0x0000_0400;

/// The Win32 attribute bit of a compressed file.
pub const FILE_ATTRIBUTE_COMPRESSED: u32 = 0x0000_0800;

/// What a scan records of one file.
#[derive(Clone, Debug, PartialEq, Eq)]
pub struct FileMetrics {
    pub logical_size: u64,
    pub allocated_size: Option<u64>,
    pub file_identity: Option<String>,
    pub volume_identity: Option<String>,
    pub modified_at: Option<i64>,
    pub is_sparse: bool,
    pub is_compressed: bool,
}

/// `a * b`, or `u64::MAX` when the product does not fit.
pub open spec fn sat_mul(a: u64, b: u64) -> u64 {
    if a * b > u64::MAX {
        u64::MAX
    } else {
        (a * b) as u64
    }
}

/// The 64-bit value of a high and a low 32-bit half.
pub open spec fn join_halves(high: u32, low: u32) -> int {
    high as int * 0x1_0000_0000 + low as int
}

/// A modification time in whole seconds since the Unix epoch, when it fits `i64`.
pub fn modified_at_from_secs(secs: u64) -> (r: Option<i64>)
    ensures
        r == if secs <= i64::MAX {
            Some(secs as i64)
        } else {
            None::<i64>
        },
{
    if secs <= i64::MAX as u64 {
        Some(secs as i64)
    } else {
        None
    }
}

/// The metrics of a Unix file from its length, its 512-byte block count, its
/// inode and device numbers and its modification time: the allocation is the
/// block count times 512 (saturating), and the file is sparse when fewer bytes
/// are allocated than its length.
pub fn unix_metrics(len: u64, blocks: u64, ino: u64, dev: u64, modified_at: Option<i64>) -> (m:
    FileMetrics)
    ensures
        m.logical_size == len,
        m.allocated_size == Some(sat_mul(blocks, UNIX_BLOCK_SIZE)),
        m.file_identity matches Some(f) && f@ == decimal(ino as nat),
        m.volume_identity matches Some(v) && v@ == decimal(dev as nat),
        m.modified_at == modified_at,
        m.is_sparse == (sat_mul(blocks, UNIX_BLOCK_SIZE) < len),
        !m.is_compressed,
{
    let allocated = if blocks > u64::MAX / UNIX_BLOCK_SIZE {
        assert(blocks * 512 > u64::MAX) by (nonlinear_arith)
            requires
                blocks > u64::MAX / 512,
        ;
        u64::MAX
    } else {
        assert(blocks * 512 <= u64::MAX) by (nonlinear_arith)
            requires
                blocks <= u64::MAX / 512,
        ;
        blocks * UNIX_BLOCK_SIZE
    };
    FileMetrics {
        logical_size: len,
        allocated_size: Some(allocated),
        file_identity: Some(u64_to_decimal(ino)),
        volume_identity: Some(u64_to_decimal(dev)),
        modified_at,
        is_sparse: allocated < len,
        is_compressed: false,
    }
}

/// The volume identity of a Unix handle: its device number in decimal.
pub fn unix_volume_identity(dev: u64) -> (r: String)
    ensures
        r@ == decimal(dev as nat),
{
    u64_to_decimal(dev)
}

fn join_u32_halves(high: u32, low: u32) -> (r: u64)
    ensures
        r == join_halves(high, low),
{
    let r = ((high as u64) << 32u64) | (low as u64);
    assert(((high as u64) << 32u64) | (low as u64) == (high as u64) * 0x1_0000_0000u64 + (
    low as u64)) by (bit_vector);
    r
}

/// Whether a Win32 handle snapshot is usable: the query succeeded and the
/// handle is not a reparse point.
pub fn windows_snapshot_usable(query_succeeded: bool, attributes: u32) -> (r: bool)
    ensures
        r == (query_succeeded && attributes & FILE_ATTRIBUTE_REPARSE_POINT == 0),
{
    query_succeeded && attributes & FILE_ATTRIBUTE_REPARSE_POINT == 0
}

/// The allocation size of a Win32 file, when the standard-information query
/// succeeded and the size is not negative.
pub fn windows_allocation_size(query_succeeded: bool, allocation_size: i64) -> (r: Option<u64>)
    ensures
        r == if query_succeeded && allocation_size >= 0 {
            Some(allocation_size as u64)
        } else {
            None::<u64>
        },
{
    if query_succeeded && allocation_size >= 0 {
        Some(allocation_size as u64)
    } else {
        None
    }
}

/// The volume identity of a Win32 handle: its volume serial number in decimal.
pub fn windows_volume_identity(volume_serial: u32) -> (r: String)
    ensures
        r@ == decimal(volume_serial as nat),
{
    u64_to_decimal(volume_serial as u64)
}

/// The metrics of a Win32 file from its handle information: none for a
/// directory; otherwise the size and file index joined from their halves, the
/// volume serial number, and the sparse and compressed attribute bits.
pub fn windows_metrics(
    attributes: u32,
    size_high: u32,
    size_low: u32,
    index_high: u32,
    index_low: u32,
    volume_serial: u32,
    allocated_size: Option<u64>,
    modified_at: Option<i64>,
) -> (r: Option<FileMetrics>)
    ensures
        r is None <==> attributes & FILE_ATTRIBUTE_DIRECTORY != 0,
        r matches Some(m) ==> {
            &&& m.logical_size == join_halves(size_high, size_low)
            &&& m.allocated_size == allocated_size
            &&& m.file_identity matches Some(f) && f@ == decimal(
                join_halves(index_high, index_low) as nat,
            )
            &&& m.volume_identity matches Some(v) && v@ == decimal(volume_serial as nat)
            &&& m.modified_at == modified_at
            &&& m.is_sparse == (attributes & FILE_ATTRIBUTE_SPARSE_FILE != 0)
            &&& m.is_compressed == (attributes & FILE_ATTRIBUTE_COMPRESSED != 0)
        },
{
    if attributes & FILE_ATTRIBUTE_DIRECTORY != 0 {
        return None;
    }
    let logical_size = join_u32_halves(size_high, size_low);
    let file_index = join_u32_halves(index_high, index_low);
    Some(FileMetrics {
        logical_size,
        allocated_size,
        file_identity: Some(u64_to_decimal(file_index)),
        volume_identity: Some(windows_volume_identity(volume_serial)),
        modified_at,
        is_sparse: attributes & FILE_ATTRIBUTE_SPARSE_FILE != 0,
        is_compressed: attributes & FILE_ATTRIBUTE_COMPRESSED != 0,
    })
}

/// The metrics of a file on a system that reports only a length and a
/// modification time: the allocation is taken to be the length.
pub fn plain_metrics(len: u64, modified_at: Option<i64>) -> (m: FileMetrics)
    ensures
        m.logical_size == len,
        m.allocated_size == Some(len),
        m.file_identity is None && m.volume_identity is None,
        m.modified_at == modified_at,
        !m.is_sparse && !m.is_compressed,
{
    FileMetrics {
        logical_size: len,
        allocated_size: Some(len),
        file_identity: None,
        volume_identity: None,
        modified_at,
        is_sparse: false,
        is_compressed: false,
    }
}

} // verus!
