use xdump::chunk::split;
use xdump::mode::{Type, SUBSTR_LEN_BINARY, SUBSTR_LEN_HEX, SUBSTR_LEN_OCT};

fn bytes(n: usize) -> Vec<u8> {
    (0..n).map(|i| (i % 251) as u8).collect()
}

fn lengths(chunks: &[Vec<u8>]) -> Vec<usize> {
    chunks.iter().map(|c| c.len()).collect()
}

#[test]
fn short_input_is_one_chunk() {
    assert_eq!(split(b"AB\n", 16), vec![b"AB\n".to_vec()]);
}

#[test]
fn empty_input_is_one_empty_chunk() {
    assert_eq!(split(b"", 16), vec![Vec::<u8>::new()]);
    assert_eq!(split(b"", 1), vec![Vec::<u8>::new()]);
}

#[test]
fn input_of_exactly_one_chunk_is_one_chunk() {
    for size in [1usize, 7, 14, 16] {
        let input = bytes(size);
        assert_eq!(split(&input, size), vec![input.clone()]);
    }
}

#[test]
fn one_byte_more_than_a_chunk_is_two_chunks() {
    let input = bytes(17);
    let chunks = split(&input, 16);
    assert_eq!(chunks, vec![input[..16].to_vec(), input[16..].to_vec()]);
}

#[test]
fn multiple_of_the_size_ends_with_a_full_chunk() {
    let input = bytes(32);
    let chunks = split(&input, 16);
    assert_eq!(chunks, vec![input[..16].to_vec(), input[16..].to_vec()]);
    assert_eq!(lengths(&split(&bytes(21), 7)), vec![7, 7, 7]);
    assert_eq!(lengths(&split(&bytes(28), 14)), vec![14, 14]);
}

#[test]
fn last_chunk_holds_the_rest() {
    assert_eq!(lengths(&split(&bytes(40), 16)), vec![16, 16, 8]);
    assert_eq!(lengths(&split(&bytes(15), 7)), vec![7, 7, 1]);
    assert_eq!(lengths(&split(&bytes(29), 14)), vec![14, 14, 1]);
    assert_eq!(split(b"abcde", 2), vec![b"ab".to_vec(), b"cd".to_vec(), b"e".to_vec()]);
}

#[test]
fn size_one_gives_one_chunk_per_byte() {
    assert_eq!(split(b"xyz", 1), vec![b"x".to_vec(), b"y".to_vec(), b"z".to_vec()]);
}

#[test]
fn chunks_joined_are_the_input() {
    for len in 0..70usize {
        let input = bytes(len);
        for size in [1usize, 2, 3, 7, 14, 16, 100] {
            let chunks = split(&input, size);
            assert_eq!(chunks.concat(), input, "len {len}, size {size}");
        }
    }
}

#[test]
fn every_chunk_but_the_last_is_full_and_the_last_is_not_empty() {
    for len in 1..70usize {
        let input = bytes(len);
        for size in [1usize, 2, 3, 7, 14, 16, 100] {
            let chunks = split(&input, size);
            assert_eq!(chunks.len(), (len + size - 1) / size, "len {len}, size {size}");
            let (last, full) = chunks.split_last().unwrap();
            assert!(full.iter().all(|c| c.len() == size), "len {len}, size {size}");
            assert!(1 <= last.len() && last.len() <= size, "len {len}, size {size}");
        }
    }
}

#[test]
fn bytes_that_are_no_text_are_kept() {
    let input = [0xffu8, 0x00, 0xc3, 0x28, 0x0a];
    assert_eq!(split(&input, 2), vec![vec![0xff, 0x00], vec![0xc3, 0x28], vec![0x0a]]);
}

#[test]
fn chunk_sizes_of_the_bases() {
    assert_eq!(SUBSTR_LEN_HEX, 16);
    assert_eq!(SUBSTR_LEN_OCT, 14);
    assert_eq!(SUBSTR_LEN_BINARY, 7);
    assert_eq!(Type::HEX.chunk_size(), 16);
    assert_eq!(Type::DEC.chunk_size(), 14);
    assert_eq!(Type::OCT.chunk_size(), 14);
    assert_eq!(Type::BIN.chunk_size(), 7);
}

#[test]
fn names_of_the_bases() {
    assert_eq!(Type::HEX.value(), "hex");
    assert_eq!(Type::DEC.value(), "dec");
    assert_eq!(Type::OCT.value(), "oct");
    assert_eq!(Type::BIN.value(), "bin");
}

#[test]
fn field_widths_bases_and_fill_of_the_bases() {
    assert_eq!(Type::HEX.field_width(), 2);
    assert_eq!(Type::DEC.field_width(), 3);
    assert_eq!(Type::OCT.field_width(), 3);
    assert_eq!(Type::BIN.field_width(), 8);
    assert_eq!(Type::HEX.radix(), 16);
    assert_eq!(Type::DEC.radix(), 10);
    assert_eq!(Type::OCT.radix(), 8);
    assert_eq!(Type::BIN.radix(), 2);
    assert_eq!(Type::HEX.fill(), b'0');
    assert_eq!(Type::DEC.fill(), b' ');
    assert_eq!(Type::OCT.fill(), b'0');
    assert_eq!(Type::BIN.fill(), b'0');
}
