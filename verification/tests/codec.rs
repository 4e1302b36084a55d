use tatar::Tatar;

#[test]
fn octal_of_zero_is_all_zeros() {
    assert_eq!(Tatar::dec_to_padded_octal(0, 11), "00000000000");
    assert_eq!(Tatar::dec_to_padded_octal(0, 1), "0");
}

#[test]
fn octal_is_padded_on_the_left() {
    assert_eq!(Tatar::dec_to_padded_octal(8, 3), "010");
    assert_eq!(Tatar::dec_to_padded_octal(0o777, 7), "0000777");
    assert_eq!(Tatar::dec_to_padded_octal(13, 11), "00000000015");
    assert_eq!(Tatar::dec_to_padded_octal(1469000000, 11), "12743624500");
}

#[test]
fn octal_that_fills_its_width_has_no_padding() {
    assert_eq!(Tatar::dec_to_padded_octal(511, 3), "777");
    assert_eq!(Tatar::dec_to_padded_octal(0o77777777777, 11), "77777777777");
    assert_eq!(Tatar::dec_to_padded_octal(u64::MAX, 22), "1777777777777777777777");
}

#[test]
fn octal_has_the_width_asked_for_and_reads_back() {
    let values: Vec<u64> = vec![0, 1, 7, 8, 63, 64, 511, 512, 4095, 1 << 20, 8589934591];
    for v in values {
        for w in [11usize, 12, 20] {
            let text = Tatar::dec_to_padded_octal(v, w);
            assert_eq!(text.len(), w);
            assert!(text.bytes().all(|b| (b'0'..=b'7').contains(&b)));
            assert_eq!(u64::from_str_radix(&text, 8).unwrap(), v);
        }
    }
}

#[test]
fn pad_data_is_one_short() {
    assert_eq!(Tatar::pad_data(0), "");
    assert_eq!(Tatar::pad_data(1), "");
    assert_eq!(Tatar::pad_data(2), "\0");
    assert_eq!(Tatar::pad_data(5), "\0\0\0\0");
    let long = Tatar::pad_data(1025);
    assert_eq!(long.len(), 1024);
    assert!(long.bytes().all(|b| b == 0));
}

#[test]
fn block_pad_rounds_up_to_whole_blocks() {
    assert_eq!(Tatar::block_pad(0), 512);
    assert_eq!(Tatar::block_pad(1), 512);
    assert_eq!(Tatar::block_pad(511), 512);
    assert_eq!(Tatar::block_pad(512), 512);
    assert_eq!(Tatar::block_pad(513), 1024);
    assert_eq!(Tatar::block_pad(1024), 1024);
    assert_eq!(Tatar::block_pad(1025), 1536);
    assert_eq!(Tatar::block_pad(2049), 2560);
    assert_eq!(Tatar::block_pad(10_000), 10_240);
}

#[test]
fn block_pad_is_the_least_multiple() {
    for len in 1usize..5000 {
        let padded = Tatar::block_pad(len);
        assert_eq!(padded % 512, 0);
        assert!(padded >= len);
        assert!(padded - len < 512);
    }
}

#[test]
fn empty_data_takes_one_block() {
    let block = Tatar::write_padded_data(&[]);
    assert_eq!(block, vec![0u8; 512]);
}

#[test]
fn data_is_followed_by_zeros() {
    let block = Tatar::write_padded_data(b"hello, world\n");
    assert_eq!(block.len(), 512);
    assert_eq!(&block[..13], b"hello, world\n");
    assert!(block[13..].iter().all(|b| *b == 0));
}

#[test]
fn data_of_one_block_is_left_as_it_is() {
    let data: Vec<u8> = (0..512).map(|i| (i % 251) as u8 + 1).collect();
    assert_eq!(Tatar::write_padded_data(&data), data);
}

#[test]
fn data_just_over_a_block_takes_two() {
    let data = vec![7u8; 513];
    let block = Tatar::write_padded_data(&data);
    assert_eq!(block.len(), 1024);
    assert_eq!(&block[..513], &data[..]);
    assert!(block[513..].iter().all(|b| *b == 0));
}
