use digitemp::config::{parse_config, parse_hex_byte, split_fields, Config, DEFAULT_DEVICE};

fn fields(text: &str, lines: bool) -> Vec<String> {
    split_fields(text.as_bytes(), lines)
        .into_iter()
        .map(|f| String::from_utf8(f).unwrap())
        .collect()
}

#[test]
fn default_device_is_the_first_usb_port() {
    assert_eq!(&DEFAULT_DEVICE, b"/dev/ttyUSB0");
}

#[test]
fn empty_text_gives_the_defaults() {
    let config = parse_config(b"");
    assert_eq!(config, Config { device_path: b"/dev/ttyUSB0".to_vec(), sensors: vec![] });
}

#[test]
fn words_are_runs_between_whitespace() {
    assert_eq!(fields("  ROM 0\t0x28 \r", false), vec!["ROM", "0", "0x28"]);
    assert_eq!(fields("", false), Vec::<String>::new());
    assert_eq!(fields(" \t ", false), Vec::<String>::new());
    assert_eq!(fields("a", false), vec!["a"]);
    assert_eq!(fields("ab\x0Bcd\x0Cef", false), vec!["ab", "cd", "ef"]);
}

#[test]
fn lines_are_runs_between_line_feeds() {
    assert_eq!(fields("TTY a\n\nROM b\n", true), vec!["TTY a", "ROM b"]);
    assert_eq!(fields("one\r\ntwo", true), vec!["one\r", "two"]);
    assert_eq!(fields("\n\n", true), Vec::<String>::new());
}

#[test]
fn hex_bytes_are_read_like_numbers_in_base_sixteen() {
    let cases: [(&str, Option<u8>); 14] = [
        ("28", Some(0x28)),
        ("ff", Some(0xFF)),
        ("FF", Some(0xFF)),
        ("aB", Some(0xAB)),
        ("0", Some(0)),
        ("000000ff", Some(0xFF)),
        ("+7f", Some(0x7F)),
        ("100", None),
        ("", None),
        ("+", None),
        ("-1", None),
        ("1g", None),
        ("0x28", None),
        ("++1", None),
    ];
    for (word, expected) in cases {
        assert_eq!(parse_hex_byte(word.as_bytes(), 0), expected, "word {:?}", word);
        assert_eq!(u8::from_str_radix(word, 16).ok(), expected, "word {:?}", word);
    }
    assert_eq!(parse_hex_byte(b"0x28", 2), Some(0x28));
    assert_eq!(parse_hex_byte(b"0x28", 4), None);
}

#[test]
fn a_written_configuration_is_read_back() {
    let text = "TTY /dev/ttyUSB1\nREAD_TIME 1000\nSENSORS 2\n\
                ROM 0 0x28 0xFF 0x4B 0x46 0x92 0x16 0x04 0xA1\n\
                ROM 1 0x28 0x01 0x02 0x03 0x04 0x05 0x06 0x07\n";
    let config = parse_config(text.as_bytes());
    assert_eq!(config.device_path, b"/dev/ttyUSB1".to_vec());
    assert_eq!(
        config.sensors,
        vec![
            [0x28, 0xFF, 0x4B, 0x46, 0x92, 0x16, 0x04, 0xA1],
            [0x28, 0x01, 0x02, 0x03, 0x04, 0x05, 0x06, 0x07],
        ]
    );
}

#[test]
fn the_last_device_line_wins() {
    let config = parse_config(b"TTY /dev/a\nTTY\nTTY /dev/b extra\n");
    assert_eq!(config.device_path, b"/dev/b".to_vec());
}

#[test]
fn a_line_counts_only_from_its_first_byte() {
    let config = parse_config(b" TTY /dev/a\nROMS x 1 2 3 4 5 6 7 8\ntty /dev/b\n");
    assert_eq!(config.device_path, b"/dev/ttyUSB0".to_vec());
    assert_eq!(config.sensors, vec![[1, 2, 3, 4, 5, 6, 7, 8]]);
}

#[test]
fn a_rom_line_needs_ten_words() {
    let config = parse_config(b"ROM 0 1 2 3 4 5 6 7\nROM 0 1 2 3 4 5 6 7 8 9 10\n");
    assert_eq!(config.sensors, vec![[1, 2, 3, 4, 5, 6, 7, 8]]);
}

#[test]
fn a_word_that_is_no_byte_reads_as_zero() {
    let config = parse_config(b"ROM 0 0x0x10 zz 0x100 +a 0x 0X11 1F 0xfe\r\n");
    assert_eq!(config.sensors, vec![[0x10, 0, 0, 0x0A, 0, 0, 0x1F, 0xFE]]);
}
