use boids::args::{read_directive, required, set_headless, Directive, Headless, TWO_MODES};
use boids::bytes::{append, append_be32, append_le16, word_of};
use boids::png::{crc32, write_chunk};
use boids::text::{chars_of, parse_number, push_decimal, same, string_of, NumberError};
use boids::wgsl::{ShaderError, ShaderLoader};

#[test]
fn texts_are_taken_apart_and_put_together() {
    let chars = chars_of("h\u{e9}llo \u{1f41f}");
    assert_eq!(chars.len(), 7);
    assert_eq!(string_of(&chars, 1, 4), "\u{e9}ll");
    assert_eq!(string_of(&chars, 7, 7), "");
    assert!(same("a", "a") && !same("a", "b") && !same("a", "ab"));
}

#[test]
fn numbers_are_written_and_read_back() {
    for n in [0u64, 7, 10, 4096, 100_000, u64::MAX] {
        let mut text = "n=".to_string();
        push_decimal(&mut text, n);
        assert_eq!(text, format!("n={n}"));
        assert_eq!(parse_number(&text[2..], u64::MAX), Ok(n));
    }
    assert_eq!(parse_number("", 9), Err(NumberError::Empty));
    assert_eq!(parse_number("+", 9), Err(NumberError::InvalidDigit));
    assert_eq!(parse_number("-1", 9), Err(NumberError::InvalidDigit));
    assert_eq!(parse_number("+9", 9), Ok(9));
    assert_eq!(parse_number("10", 9), Err(NumberError::TooLarge));
    for (text, error) in [
        ("", NumberError::Empty),
        ("x", NumberError::InvalidDigit),
        ("18446744073709551616", NumberError::TooLarge),
    ] {
        let expected = text.parse::<u64>().unwrap_err().to_string();
        assert_eq!(parse_number(text, u64::MAX), Err(error));
        assert_eq!(error.message(), expected);
    }
}

#[test]
fn bytes_are_appended_in_their_order() {
    let mut out = vec![1u8];
    append(&mut out, &[2, 3]);
    append_be32(&mut out, 0x0405_0607);
    append_le16(&mut out, 0x0908);
    assert_eq!(out, [1, 2, 3, 4, 5, 6, 7, 8, 9]);
}

#[test]
fn chunks_carry_length_type_data_and_checksum() {
    let mut out = vec![0xaau8];
    write_chunk(&mut out, b"tEXt", b"hello");
    assert_eq!(&out[1..5], &[0, 0, 0, 5]);
    assert_eq!(&out[5..14], b"tEXthello");
    assert_eq!(out[14..], crc32(b"tEXthello").to_be_bytes());
}

#[test]
fn values_are_taken_from_behind_their_flags() {
    let args = vec!["--seed".to_string(), "9".to_string(), "--bench".to_string()];
    let mut cursor = 1;
    assert_eq!(required(&args, &mut cursor, "--seed"), Ok("9"));
    assert_eq!(cursor, 2);
    cursor = 3;
    assert_eq!(
        required(&args, &mut cursor, "--bench"),
        Err("--bench needs a value".to_string())
    );
    assert_eq!(cursor, 3);
    assert!(matches!(read_directive(&args, 0), Ok((Directive::Seed(9), 2))));
    assert!(matches!(
        read_directive(&args, 2),
        Ok((Directive::Run(Headless::Bench(120)), 3))
    ));
    assert_eq!(read_directive(&args, 1).unwrap_err(), "unknown argument 9");
}

#[test]
fn a_second_headless_mode_is_refused_and_the_first_kept() {
    let mut slot = None;
    assert_eq!(set_headless(&mut slot, Headless::Bench(3)), Ok(()));
    assert_eq!(
        set_headless(&mut slot, Headless::Export("castle.obj".to_string())),
        Err(TWO_MODES.to_string())
    );
    assert!(matches!(slot, Some(Headless::Bench(3))));
}

#[test]
fn paths_resolve_below_the_root() {
    let loader = ShaderLoader::new("/s");
    assert_eq!(loader.resolve("common/a.wgsl").unwrap(), "/s/common/a.wgsl");
    for path in ["../a", "a/../../b", "/etc/a", "a/.."] {
        assert!(
            matches!(loader.resolve(path), Err(ShaderError::EscapesRoot { .. })),
            "{path}"
        );
    }
}

#[test]
fn four_bytes_make_up_a_word() {
    assert_eq!(word_of(0x01, 0x02, 0x03, 0x04), 0x0102_0304);
    assert_eq!(word_of(0xff, 0, 0, 0x80), 0xff00_0080);
    assert_eq!(word_of(0xff, 0xff, 0xff, 0xff), u32::MAX);
}
