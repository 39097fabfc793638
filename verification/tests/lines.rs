use xdump::mode::Type;
use xdump::render::dump_line;

fn text(line: Vec<u8>) -> String {
    String::from_utf8(line).unwrap()
}

fn spaces(n: usize) -> String {
    " ".repeat(n)
}

#[test]
fn hex_line_of_a_short_chunk() {
    let line = text(dump_line(b"AB\n", &Type::HEX));
    assert_eq!(line, format!("41 42 0a {}  |AB.|", spaces(39)));
    assert!(line.starts_with("41 42 0a "));
    assert!(line.ends_with("|AB.|"));
}

#[test]
fn dec_line_of_a_short_chunk() {
    let line = text(dump_line(b"AB\n", &Type::DEC));
    assert_eq!(line, format!(" 65  66  10 {}  |AB.|", spaces(44)));
}

#[test]
fn oct_line_of_a_short_chunk() {
    let line = text(dump_line(b"AB\n", &Type::OCT));
    assert_eq!(line, format!("101 102 012 {}  |AB.|", spaces(44)));
}

#[test]
fn bin_line_of_a_short_chunk() {
    let line = text(dump_line(b"AB\n", &Type::BIN));
    assert_eq!(line, format!("01000001 01000010 00001010 {}  |AB.|", spaces(36)));
}

#[test]
fn full_hex_line_has_no_padding() {
    let line = text(dump_line(b"0123456789abcdef", &Type::HEX));
    assert_eq!(
        line,
        "30 31 32 33 34 35 36 37 38 39 61 62 63 64 65 66   |0123456789abcdef|"
    );
}

#[test]
fn full_dec_line_has_no_padding() {
    let line = text(dump_line(b"0123456789abcd", &Type::DEC));
    assert_eq!(
        line,
        " 48  49  50  51  52  53  54  55  56  57  97  98  99 100   |0123456789abcd|"
    );
}

#[test]
fn full_oct_line_has_no_padding() {
    let line = text(dump_line(b"0123456789abcd", &Type::OCT));
    assert_eq!(
        line,
        "060 061 062 063 064 065 066 067 070 071 141 142 143 144   |0123456789abcd|"
    );
}

#[test]
fn full_bin_line_has_no_padding() {
    let line = text(dump_line(b"0123abc", &Type::BIN));
    assert_eq!(
        line,
        "00110000 00110001 00110010 00110011 01100001 01100010 01100011   |0123abc|"
    );
}

#[test]
fn line_of_the_empty_chunk_is_all_padding() {
    assert_eq!(text(dump_line(b"", &Type::HEX)), format!("{}  ||", spaces(48)));
    assert_eq!(text(dump_line(b"", &Type::DEC)), format!("{}  ||", spaces(56)));
    assert_eq!(text(dump_line(b"", &Type::OCT)), format!("{}  ||", spaces(56)));
    assert_eq!(text(dump_line(b"", &Type::BIN)), format!("{}  ||", spaces(63)));
}

#[test]
fn smallest_and_largest_byte_in_each_base() {
    let chunk = [0u8, 255];
    assert_eq!(dump_line(&chunk, &Type::HEX)[..6].to_vec(), b"00 ff ".to_vec());
    assert_eq!(dump_line(&chunk, &Type::DEC)[..8].to_vec(), b"  0 255 ".to_vec());
    assert_eq!(dump_line(&chunk, &Type::OCT)[..8].to_vec(), b"000 377 ".to_vec());
    assert_eq!(
        dump_line(&chunk, &Type::BIN)[..18].to_vec(),
        b"00000000 11111111 ".to_vec()
    );
}

#[test]
fn decimal_is_filled_with_spaces_and_the_others_with_zeros() {
    let chunk = [7u8];
    assert_eq!(dump_line(&chunk, &Type::HEX)[..3].to_vec(), b"07 ".to_vec());
    assert_eq!(dump_line(&chunk, &Type::DEC)[..4].to_vec(), b"  7 ".to_vec());
    assert_eq!(dump_line(&chunk, &Type::OCT)[..4].to_vec(), b"007 ".to_vec());
    assert_eq!(dump_line(&chunk, &Type::BIN)[..9].to_vec(), b"00000111 ".to_vec());
}

#[test]
fn hex_digits_are_lower_case() {
    let chunk = [0xabu8, 0xcd, 0xef];
    assert_eq!(dump_line(&chunk, &Type::HEX)[..9].to_vec(), b"ab cd ef ".to_vec());
}

#[test]
fn every_byte_has_one_token_of_the_field_width() {
    for t in [Type::HEX, Type::DEC, Type::OCT, Type::BIN] {
        let width = t.field_width();
        let radix = t.radix() as u32;
        for len in 0..=t.chunk_size() {
            let chunk: Vec<u8> = (0..len).map(|i| (i * 37 % 256) as u8).collect();
            let line = dump_line(&chunk, &t);
            for (i, b) in chunk.iter().enumerate() {
                let from = i * (width + 1);
                let token = std::str::from_utf8(&line[from..from + width]).unwrap();
                assert_eq!(token.len(), width);
                assert_eq!(u32::from_str_radix(token.trim_start(), radix), Ok(*b as u32));
                assert_eq!(line[from + width], b' ');
            }
        }
    }
}

#[test]
fn every_byte_value_reads_back_in_each_base() {
    for t in [Type::HEX, Type::DEC, Type::OCT, Type::BIN] {
        let width = t.field_width();
        for b in 0..=255u8 {
            let line = dump_line(&[b], &t);
            let token = std::str::from_utf8(&line[..width]).unwrap();
            assert_eq!(u8::from_str_radix(token.trim_start(), t.radix() as u32), Ok(b));
        }
    }
}

#[test]
fn tokens_are_what_the_standard_formatting_gives() {
    for b in 0..=255u8 {
        assert_eq!(dump_line(&[b], &Type::HEX)[..3].to_vec(), format!("{:>02x} ", b).into_bytes());
        assert_eq!(dump_line(&[b], &Type::DEC)[..4].to_vec(), format!("{:>3} ", b).into_bytes());
        assert_eq!(dump_line(&[b], &Type::OCT)[..4].to_vec(), format!("{:>03o} ", b).into_bytes());
        assert_eq!(dump_line(&[b], &Type::BIN)[..9].to_vec(), format!("{:>08b} ", b).into_bytes());
    }
}

#[test]
fn the_bar_before_the_text_stands_in_one_column() {
    for (t, column) in [(Type::HEX, 50), (Type::DEC, 58), (Type::OCT, 58), (Type::BIN, 65)] {
        for len in 0..=t.chunk_size() {
            let chunk = vec![b'x'; len];
            let line = dump_line(&chunk, &t);
            assert_eq!(line.len(), column + 1 + len + 1);
            assert_eq!(line[column], b'|');
            assert_eq!(line[column - 1], b' ');
            assert_eq!(line[column - 2], b' ');
            assert_eq!(line[line.len() - 1], b'|');
            let numbers = len * (t.field_width() + 1);
            assert!(line[numbers..column].iter().all(|c| *c == b' '));
        }
    }
}

#[test]
fn newlines_show_as_full_stops_one_for_one() {
    let line = dump_line(b"\n\na\n.b\n", &Type::BIN);
    assert_eq!(line[66..].to_vec(), b"..a..b.|".to_vec());
    let line = dump_line(b"\n", &Type::HEX);
    assert_eq!(line[51..].to_vec(), b".|".to_vec());
}

#[test]
fn other_bytes_pass_through_unchanged() {
    let chunk = [b'\r', b'\t', 0x00, 0x7f, 0xff, b'|', b' '];
    let line = dump_line(&chunk, &Type::BIN);
    assert_eq!(line[66..73].to_vec(), chunk.to_vec());
    for b in 0..=255u8 {
        let line = dump_line(&[b], &Type::HEX);
        let shown = if b == b'\n' { b'.' } else { b };
        assert_eq!(line[51], shown);
    }
}

#[test]
fn a_line_holds_no_newline() {
    for t in [Type::HEX, Type::DEC, Type::OCT, Type::BIN] {
        let chunk: Vec<u8> = (0..t.chunk_size()).map(|i| if i % 2 == 0 { b'\n' } else { 10 }).collect();
        let line = dump_line(&chunk, &t);
        assert!(!line.contains(&b'\n'));
    }
}
