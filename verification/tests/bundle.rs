use poe_data_tools::bundle::{BundleError, BundleFile, BundleHead};
use poe_data_tools::fs::cdn::index::{read_file, FileInfo};

#[test]
fn corrupt_block_fails() {
    let b = BundleFile {
        head: BundleHead { uncompressed_size: 8, uncompressed_block_granularity: 4 },
        blocks: vec![vec![0xff; 3], vec![0xff; 3]],
    };
    assert_eq!(b.read_range(1, 2), Err(BundleError::DecompressFailed));
    assert_eq!(b.read_all(), Err(BundleError::DecompressFailed));
}

#[test]
fn empty_range_needs_no_blocks() {
    let b = BundleFile {
        head: BundleHead { uncompressed_size: 0, uncompressed_block_granularity: 4 },
        blocks: vec![],
    };
    assert_eq!(b.read_all(), Ok(vec![]));
}

#[test]
fn file_read_from_its_bundle() {
    let b = BundleFile {
        head: BundleHead { uncompressed_size: 8, uncompressed_block_granularity: 4 },
        blocks: vec![vec![0xff; 3], vec![0xff; 3]],
    };
    let file = FileInfo { hash: 1, bundle_index: 0, offset: 5, size: 2 };
    assert_eq!(read_file(&b, &file), Err(BundleError::DecompressFailed));
    let empty = BundleFile {
        head: BundleHead { uncompressed_size: 0, uncompressed_block_granularity: 4 },
        blocks: vec![],
    };
    let nothing = FileInfo { hash: 2, bundle_index: 0, offset: 0, size: 0 };
    assert_eq!(read_file(&empty, &nothing), Ok(vec![]));
}
