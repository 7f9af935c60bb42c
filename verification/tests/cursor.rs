//! The reading primitives and the chunk reader, one call at a time.

use vox_loader::format::ChunkKind;
use vox_loader::{Chunk, DecodeError, Size, VoxLoader, Voxel};

fn header(tag: &[u8; 4], content_len: u32, children_len: u32) -> Vec<u8> {
    let mut out: Vec<u8> = Vec::new();
    out.extend_from_slice(tag);
    out.extend_from_slice(&content_len.to_le_bytes());
    out.extend_from_slice(&children_len.to_le_bytes());
    out
}

fn chunk_named(id: &str, length: u32, child_length: u32) -> Chunk {
    Chunk { id: id.to_string(), length, child_length }
}

#[test]
fn fresh_loader_is_empty() {
    let loader: VoxLoader = VoxLoader::with_data(vec![1, 2, 3]);
    assert_eq!(loader.data, vec![1, 2, 3]);
    assert_eq!(loader.offset, 0);
    assert_eq!(loader.size, Size { x: 0, y: 0, z: 0 });
    assert!(loader.voxels.is_empty());
    assert!(loader.palette.is_empty());
    assert!(loader.skipped.is_empty());
}

#[test]
fn read_byte_takes_one_byte() {
    let mut loader: VoxLoader = VoxLoader::with_data(vec![7, 200]);
    assert_eq!(loader.read_byte(), Ok(7));
    assert_eq!(loader.offset, 1);
    assert_eq!(loader.read_byte(), Ok(200));
    assert_eq!(loader.offset, 2);
    assert_eq!(loader.read_byte(), Err(DecodeError::TruncatedInput));
    assert_eq!(loader.offset, 2);
}

#[test]
fn read_int_little_endian() {
    let mut loader: VoxLoader = VoxLoader::with_data(vec![1, 2, 3, 4, 0x40, 0x42, 0x0f, 0]);
    assert_eq!(loader.read_int(false), Ok(0x0403_0201));
    assert_eq!(loader.offset, 4);
    assert_eq!(loader.read_int(false), Ok(1_000_000));
    assert_eq!(loader.offset, 8);
}

#[test]
fn read_int_big_endian() {
    let mut loader: VoxLoader = VoxLoader::with_data(vec![1, 2, 3, 4, 0, 0, 1, 0x0b]);
    assert_eq!(loader.read_int(true), Ok(0x0102_0304));
    assert_eq!(loader.read_int(true), Ok(267));
    assert_eq!(loader.offset, 8);
}

#[test]
fn read_int_extremes() {
    let mut loader: VoxLoader =
        VoxLoader::with_data(vec![0xff, 0xff, 0xff, 0xff, 0, 0, 0, 0x80, 0x80, 0, 0, 0]);
    assert_eq!(loader.read_int(true), Ok(u32::MAX));
    assert_eq!(loader.read_int(false), Ok(0x8000_0000));
    assert_eq!(loader.read_int(true), Ok(0x8000_0000));
}

#[test]
fn read_int_needs_four_bytes() {
    let mut loader: VoxLoader = VoxLoader::with_data(vec![1, 2, 3]);
    assert_eq!(loader.read_int(false), Err(DecodeError::TruncatedInput));
    assert_eq!(loader.read_int(true), Err(DecodeError::TruncatedInput));
    assert_eq!(loader.offset, 0);
    let mut loader: VoxLoader = VoxLoader::with_data(vec![9, 1, 2, 3, 4, 5, 6]);
    assert_eq!(loader.read_byte(), Ok(9));
    assert_eq!(loader.read_int(false), Ok(0x0403_0201));
    assert_eq!(loader.read_int(false), Err(DecodeError::TruncatedInput));
    assert_eq!(loader.offset, 5);
}

#[test]
fn read_string_takes_four_characters() {
    let mut loader: VoxLoader = VoxLoader::with_data(b"VOX MAIN".to_vec());
    assert_eq!(loader.read_string(), Ok("VOX ".to_string()));
    assert_eq!(loader.offset, 4);
    assert_eq!(loader.read_string(), Ok("MAIN".to_string()));
    assert_eq!(loader.read_string(), Err(DecodeError::TruncatedInput));
    assert_eq!(loader.offset, 8);
}

#[test]
fn read_string_passes_bytes_through_as_code_points() {
    let mut loader: VoxLoader = VoxLoader::with_data(vec![0xe9, 0x41, 0xff, 0x00]);
    let tag: String = loader.read_string().unwrap();
    let chars: Vec<char> = tag.chars().collect();
    assert_eq!(chars, vec!['\u{e9}', 'A', '\u{ff}', '\0']);
    assert_eq!(tag.len(), 6);
}

#[test]
fn read_string_needs_four_bytes() {
    let mut loader: VoxLoader = VoxLoader::with_data(b"VOX".to_vec());
    assert_eq!(loader.read_string(), Err(DecodeError::TruncatedInput));
    assert_eq!(loader.offset, 0);
}

#[test]
fn skip_moves_the_cursor() {
    let mut loader: VoxLoader = VoxLoader::with_data(vec![1, 2, 3, 4, 5]);
    assert_eq!(loader.skip(0), Ok(()));
    assert_eq!(loader.offset, 0);
    assert_eq!(loader.skip(3), Ok(()));
    assert_eq!(loader.offset, 3);
    assert_eq!(loader.read_byte(), Ok(4));
    assert_eq!(loader.skip(2), Err(DecodeError::TruncatedInput));
    assert_eq!(loader.offset, 4);
    assert_eq!(loader.skip(1), Ok(()));
    assert_eq!(loader.offset, 5);
    assert_eq!(loader.skip(u32::MAX), Err(DecodeError::TruncatedInput));
}

#[test]
fn chunk_kinds() {
    assert_eq!(chunk_named("MAIN", 0, 1).kind(), ChunkKind::Main);
    assert_eq!(chunk_named("MAIN", 0, 0).kind(), ChunkKind::Unknown);
    assert_eq!(chunk_named("MAIN", 5, 0).kind(), ChunkKind::Unknown);
    assert_eq!(chunk_named("SIZE", 12, 0).kind(), ChunkKind::Size);
    assert_eq!(chunk_named("SIZE", 0, 7).kind(), ChunkKind::Size);
    assert_eq!(chunk_named("XYZI", 4, 0).kind(), ChunkKind::VoxelData);
    assert_eq!(chunk_named("RGBA", 1024, 0).kind(), ChunkKind::Palette);
    assert_eq!(chunk_named("RGBA", 3, 0).kind(), ChunkKind::Palette);
    assert_eq!(chunk_named("PACK", 4, 0).kind(), ChunkKind::Unknown);
    assert_eq!(chunk_named("main", 0, 1).kind(), ChunkKind::Unknown);
    assert_eq!(chunk_named("VOX ", 0, 0).kind(), ChunkKind::Unknown);
    assert_eq!(chunk_named("", 0, 0).kind(), ChunkKind::Unknown);
}

#[test]
fn read_chunk_returns_the_header() {
    let mut data: Vec<u8> = header(b"SIZE", 12, 0);
    data.extend_from_slice(&[2, 0, 0, 0, 3, 0, 0, 0, 4, 0, 0, 0]);
    data.extend_from_slice(&[0xaa, 0xbb]);
    let mut loader: VoxLoader = VoxLoader::with_data(data);
    let chunk: Chunk = loader.read_chunk().unwrap();
    assert_eq!(chunk.id, "SIZE");
    assert_eq!(chunk.length, 12);
    assert_eq!(chunk.child_length, 0);
    assert_eq!(loader.offset, 24);
    assert_eq!(loader.size, Size { x: 2, y: 3, z: 4 });
    assert_eq!(loader.read_byte(), Ok(0xaa));
}

#[test]
fn read_chunk_reads_a_voxel_layer() {
    let mut data: Vec<u8> = header(b"XYZI", 12, 0);
    data.extend_from_slice(&2u32.to_le_bytes());
    data.extend_from_slice(&[1, 2, 3, 10, 4, 5, 6, 20]);
    let mut loader: VoxLoader = VoxLoader::with_data(data);
    let chunk: Chunk = loader.read_chunk().unwrap();
    assert_eq!(chunk.id, "XYZI");
    assert_eq!(chunk.length, 12);
    assert_eq!(loader.offset, 24);
    assert_eq!(
        loader.voxels,
        vec![vec![Voxel { x: 1, y: 2, z: 3, c: 10 }, Voxel { x: 4, y: 5, z: 6, c: 20 }]]
    );
}

#[test]
fn read_chunk_leaves_a_short_palette_as_read() {
    // the chunk reader adds what it reads; only `new` settles the palette
    let mut data: Vec<u8> = header(b"RGBA", 1024, 0);
    for i in 0..256u32 {
        data.extend_from_slice(&i.to_be_bytes());
    }
    let mut loader: VoxLoader = VoxLoader::with_data(data);
    loader.palette.push(0xdead_beef);
    let chunk: Chunk = loader.read_chunk().unwrap();
    assert_eq!(chunk.id, "RGBA");
    assert_eq!(loader.palette.len(), 257);
    assert_eq!(loader.palette[0], 0xdead_beef);
    assert_eq!(loader.palette[1], 0);
    assert_eq!(loader.palette[256], 255);
    assert_eq!(loader.offset, 12 + 1024);
}

#[test]
fn read_chunk_consumes_exactly_the_declared_children() {
    let mut data: Vec<u8> = header(b"MAIN", 0, 39);
    data.extend_from_slice(&header(b"SIZE", 12, 0));
    data.extend_from_slice(&[2, 0, 0, 0, 3, 0, 0, 0, 4, 0, 0, 0]);
    data.extend_from_slice(&header(b"NOTE", 3, 0));
    data.extend_from_slice(&[1, 2, 3]);
    data.extend_from_slice(&[0x55]);
    let mut loader: VoxLoader = VoxLoader::with_data(data);
    let chunk: Chunk = loader.read_chunk().unwrap();
    assert_eq!(chunk.id, "MAIN");
    assert_eq!(chunk.length, 0);
    assert_eq!(chunk.child_length, 39);
    assert_eq!(loader.offset, 12 + 39);
    assert_eq!(loader.read_byte(), Ok(0x55));
    assert_eq!(loader.skipped, vec!["NOTE".to_string()]);
}

#[test]
fn read_chunk_notes_a_tag_that_is_not_ascii() {
    let mut data: Vec<u8> = header(&[0xe9, b'x', 0x80, b'!'], 2, 0);
    data.extend_from_slice(&[1, 2, 3]);
    let mut loader: VoxLoader = VoxLoader::with_data(data);
    let chunk: Chunk = loader.read_chunk().unwrap();
    assert_eq!(chunk.id, "\u{e9}x\u{80}!");
    assert_eq!(loader.skipped, vec!["\u{e9}x\u{80}!".to_string()]);
    assert_eq!(loader.offset, 14);
}

#[test]
fn read_chunk_rejects_a_child_that_overruns() {
    let mut data: Vec<u8> = header(b"MAIN", 0, 38);
    data.extend_from_slice(&header(b"SIZE", 12, 0));
    data.extend_from_slice(&[2, 0, 0, 0, 3, 0, 0, 0, 4, 0, 0, 0]);
    data.extend_from_slice(&header(b"NOTE", 3, 0));
    data.extend_from_slice(&[1, 2, 3]);
    let mut loader: VoxLoader = VoxLoader::with_data(data);
    assert_eq!(loader.read_chunk().unwrap_err(), DecodeError::MalformedChunkTree);
}

#[test]
fn read_chunk_child_with_largest_content_length_overruns() {
    let mut data: Vec<u8> = header(b"MAIN", 0, u32::MAX);
    data.extend_from_slice(&header(b"MAIN", u32::MAX, 0));
    let mut loader: VoxLoader = VoxLoader::with_data(data.clone());
    // the inner chunk has no children, so its content is skipped: too long
    assert_eq!(loader.read_chunk().unwrap_err(), DecodeError::TruncatedInput);
    let mut data: Vec<u8> = header(b"MAIN", 0, u32::MAX);
    data.extend_from_slice(&header(b"SIZE", u32::MAX, 0));
    data.extend_from_slice(&[2, 0, 0, 0, 3, 0, 0, 0, 4, 0, 0, 0]);
    let mut loader: VoxLoader = VoxLoader::with_data(data);
    // 12 + (2^32 - 1) is more than any children length can hold
    assert_eq!(loader.read_chunk().unwrap_err(), DecodeError::MalformedChunkTree);
}

#[test]
fn read_chunk_at_the_end_is_truncated() {
    let mut loader: VoxLoader = VoxLoader::with_data(Vec::new());
    assert_eq!(loader.read_chunk().unwrap_err(), DecodeError::TruncatedInput);
    let mut loader: VoxLoader = VoxLoader::with_data(b"SIZE\x0c\0\0\0\0\0\0".to_vec());
    assert_eq!(loader.read_chunk().unwrap_err(), DecodeError::TruncatedInput);
}

#[test]
fn load_reads_signature_version_and_root() {
    let mut data: Vec<u8> = b"VOX ".to_vec();
    data.extend_from_slice(&150u32.to_le_bytes());
    data.extend_from_slice(&header(b"SIZE", 12, 0));
    data.extend_from_slice(&[2, 0, 0, 0, 3, 0, 0, 0, 4, 0, 0, 0]);
    let mut loader: VoxLoader = VoxLoader::with_data(data);
    assert_eq!(loader.load(), Ok(()));
    assert_eq!(loader.offset, 32);
    assert_eq!(loader.size, Size { x: 2, y: 3, z: 4 });
    // `load` does not settle the palette
    assert!(loader.palette.is_empty());
}

#[test]
fn load_rejects_another_signature() {
    let mut data: Vec<u8> = b"VOX\t".to_vec();
    data.extend_from_slice(&150u32.to_le_bytes());
    data.extend_from_slice(&header(b"SIZE", 12, 0));
    data.extend_from_slice(&[2, 0, 0, 0, 3, 0, 0, 0, 4, 0, 0, 0]);
    let mut loader: VoxLoader = VoxLoader::with_data(data);
    assert_eq!(loader.load(), Err(DecodeError::BadSignature));
}

#[test]
fn reads_beyond_the_data_are_truncated() {
    let mut loader: VoxLoader = VoxLoader::with_data(vec![1, 2, 3]);
    loader.offset = 10;
    assert_eq!(loader.read_byte(), Err(DecodeError::TruncatedInput));
    assert_eq!(loader.read_int(false), Err(DecodeError::TruncatedInput));
    assert_eq!(loader.read_string(), Err(DecodeError::TruncatedInput));
    assert_eq!(loader.skip(0), Err(DecodeError::TruncatedInput));
    assert_eq!(loader.read_header(), Err(DecodeError::TruncatedInput));
    assert_eq!(loader.read_chunk(), Err(DecodeError::TruncatedInput));
    assert_eq!(loader.load(), Err(DecodeError::TruncatedInput));
    assert_eq!(loader.offset, 10);
}

#[test]
fn read_header_takes_twelve_bytes() {
    let mut data: Vec<u8> = header(b"XYZI", 0x0102_0304, 7);
    data.push(0x99);
    let mut loader: VoxLoader = VoxLoader::with_data(data);
    let chunk: Chunk = loader.read_header().unwrap();
    assert_eq!(chunk, chunk_named("XYZI", 0x0102_0304, 7));
    assert_eq!(loader.offset, 12);
    assert_eq!(loader.read_header(), Err(DecodeError::TruncatedInput));
    assert_eq!(loader.offset, 12);
}

#[test]
fn read_header_reads_nothing_of_a_short_header() {
    let mut loader: VoxLoader = VoxLoader::with_data(b"SIZE\x0c\0\0\0\0\0\0".to_vec());
    assert_eq!(loader.read_header(), Err(DecodeError::TruncatedInput));
    assert_eq!(loader.offset, 0);
}

#[test]
fn read_payload_of_each_kind() {
    let mut data: Vec<u8> = Vec::new();
    data.extend_from_slice(&[2, 0, 0, 0, 3, 0, 0, 0, 4, 0, 0, 0]);
    data.extend_from_slice(&[1, 0, 0, 0, 9, 8, 7, 6]);
    data.extend_from_slice(&[0xaa, 0xbb, 0xcc]);
    let mut loader: VoxLoader = VoxLoader::with_data(data);
    assert_eq!(loader.read_payload(&chunk_named("MAIN", 5, 24)), Ok(()));
    assert_eq!(loader.offset, 0);
    assert_eq!(loader.read_payload(&chunk_named("SIZE", 12, 0)), Ok(()));
    assert_eq!(loader.offset, 12);
    assert_eq!(loader.size, Size { x: 2, y: 3, z: 4 });
    assert_eq!(loader.read_payload(&chunk_named("XYZI", 8, 0)), Ok(()));
    assert_eq!(loader.offset, 20);
    assert_eq!(loader.voxels, vec![vec![Voxel { x: 9, y: 8, z: 7, c: 6 }]]);
    assert_eq!(loader.read_payload(&chunk_named("rest", 2, 0)), Ok(()));
    assert_eq!(loader.offset, 22);
    assert_eq!(loader.skipped, vec!["rest".to_string()]);
    assert_eq!(
        loader.read_payload(&chunk_named("RGBA", 1024, 0)),
        Err(DecodeError::TruncatedInput)
    );
    assert_eq!(loader.read_payload(&chunk_named("RGBA", 1, 0)), Err(DecodeError::MalformedChunkTree));
    assert_eq!(loader.read_payload(&chunk_named("more", 2, 0)), Err(DecodeError::TruncatedInput));
    assert_eq!(loader.read_payload(&chunk_named("more", 1, 0)), Ok(()));
    assert_eq!(loader.offset, 23);
}

#[test]
fn containers_in_containers_are_read_to_any_depth() {
    let depth: usize = 200_000;
    let mut data: Vec<u8> = Vec::new();
    for _ in 0..depth {
        data.extend_from_slice(&header(b"MAIN", 0, 12));
    }
    data.extend_from_slice(&header(b"SIZE", 0, 0));
    data.extend_from_slice(&[2, 0, 0, 0, 3, 0, 0, 0, 4, 0, 0, 0]);
    let end: usize = data.len();
    data.extend_from_slice(&[0x77]);
    let mut loader: VoxLoader = VoxLoader::with_data(data);
    let chunk: Chunk = loader.read_chunk().unwrap();
    assert_eq!(chunk, chunk_named("MAIN", 0, 12));
    assert_eq!(loader.size, Size { x: 2, y: 3, z: 4 });
    assert_eq!(loader.offset, end);
}

#[test]
fn fault_deep_inside_is_the_fault_of_the_whole() {
    let mut data: Vec<u8> = Vec::new();
    for _ in 0..1000 {
        data.extend_from_slice(&header(b"MAIN", 0, 12));
    }
    let mut truncated: Vec<u8> = data.clone();
    truncated.extend_from_slice(&header(b"SIZE", 0, 0));
    truncated.extend_from_slice(&[2, 0, 0, 0, 3, 0, 0, 0, 4, 0, 0]);
    let mut loader: VoxLoader = VoxLoader::with_data(truncated);
    assert_eq!(loader.read_chunk(), Err(DecodeError::TruncatedInput));
    let mut overrun: Vec<u8> = data.clone();
    overrun.extend_from_slice(&header(b"SIZE", 1, 0));
    overrun.extend_from_slice(&[2, 0, 0, 0, 3, 0, 0, 0, 4, 0, 0, 0]);
    let mut loader: VoxLoader = VoxLoader::with_data(overrun);
    assert_eq!(loader.read_chunk(), Err(DecodeError::MalformedChunkTree));
}

#[test]
fn containers_close_in_turn() {
    // outer container: an inner container of two children, then a sibling
    let mut data: Vec<u8> = header(b"MAIN", 0, 36);
    data.extend_from_slice(&header(b"MAIN", 12, 27));
    data.extend_from_slice(&header(b"aaaa", 0, 0));
    data.extend_from_slice(&header(b"bbbb", 3, 0));
    data.extend_from_slice(&[1, 2, 3]);
    data.extend_from_slice(&header(b"cccc", 0, 0));
    data.extend_from_slice(&header(b"dddd", 0, 0));
    let mut loader: VoxLoader = VoxLoader::with_data(data);
    let chunk: Chunk = loader.read_chunk().unwrap();
    assert_eq!(chunk, chunk_named("MAIN", 0, 36));
    // the inner container costs 12 + 12, its sibling 12: 36 in all
    assert_eq!(
        loader.skipped,
        vec!["aaaa".to_string(), "bbbb".to_string(), "cccc".to_string()]
    );
    assert_eq!(loader.offset, 12 + 12 + 12 + 15 + 12);
}
