use japan_geoid::gsi::ascii::{parse_ascii, ParseError};
use japan_geoid::gsi::codec::{DecodeError, EncodeError};
use japan_geoid::gsi::grid::{GridInfo, MemoryGrid};
use japan_geoid::gsi::num::{parse_i32, parse_u16};
use japan_geoid::gsi::query::Grid;

fn small_info(version: &[u8]) -> GridInfo {
    GridInfo {
        x_num: 3,
        y_num: 2,
        x_denom: 40,
        y_denom: 60,
        x_min_bits: 120.0f32.to_bits(),
        y_min_bits: 20.0f32.to_bits(),
        ikind: 1,
        version: version.to_vec(),
    }
}

#[test]
fn binary_roundtrip_bit_exact() {
    // Arbitrary samples: sentinel, negatives, and extremes that force the
    // prediction deltas to wrap.
    let points = vec![9990000, -301234, i32::MAX, i32::MIN, 0, 123456789];
    let grid = MemoryGrid::new(small_info(b"ver2.2\0\0\0\0"), points.clone());
    let bytes = grid.to_binary().unwrap();
    assert_eq!(bytes.len(), 28 + 4 * 6);

    let back = MemoryGrid::from_binary(&bytes).unwrap();
    let info = back.grid_info();
    assert_eq!(info.x_num, 3);
    assert_eq!(info.y_num, 2);
    assert_eq!(info.x_denom, 40);
    assert_eq!(info.y_denom, 60);
    assert_eq!(info.x_min_bits, 120.0f32.to_bits());
    assert_eq!(info.y_min_bits, 20.0f32.to_bits());
    assert_eq!(info.ikind, 1);
    assert_eq!(info.version, b"ver2.2\0\0\0\0".to_vec());
    assert_eq!(back.samples(), &points);
}

#[test]
fn binary_roundtrip_pads_version() {
    let points = vec![100, 200, 300, 400, 500, 600];
    let grid = MemoryGrid::new(small_info(b"ver2.2"), points.clone());
    let bytes = grid.to_binary().unwrap();
    let back = MemoryGrid::from_binary(&bytes).unwrap();
    // The header stores the version as a fixed 10-byte zero-padded field.
    assert_eq!(back.grid_info().version, b"ver2.2\0\0\0\0".to_vec());
    assert_eq!(back.samples(), &points);
}

#[test]
fn encode_rejects_long_version() {
    let grid = MemoryGrid::new(small_info(b"ver22222222222222"), vec![0; 6]);
    assert_eq!(grid.to_binary(), Err(EncodeError::VersionTooLong));
}

#[test]
fn decode_rejects_truncated_data() {
    assert!(matches!(MemoryGrid::from_binary(&[0u8; 10]), Err(DecodeError::Truncated)));
    // A full header that promises 3 x 2 samples, but no payload after it.
    let grid = MemoryGrid::new(small_info(b"v"), vec![1, 2, 3, 4, 5, 6]);
    let bytes = grid.to_binary().unwrap();
    assert!(matches!(MemoryGrid::from_binary(&bytes[..28]), Err(DecodeError::Truncated)));
    assert!(matches!(
        MemoryGrid::from_binary(&bytes[..bytes.len() - 1]),
        Err(DecodeError::Truncated)
    ));
}

const DUMMY_ASC: &str = "20.00000 120.00000 0.016667 0.025000 2 3 1 ver2.2\n30.1234 30.2234 30.3234\n31.1234 -31.2234 999.0000\n";

#[test]
fn ascii_to_binary() {
    // from ascii
    let parsed = parse_ascii(DUMMY_ASC.as_bytes()).unwrap();
    assert_eq!(parsed.x_num, 3);
    assert_eq!(parsed.y_num, 2);
    assert_eq!(parsed.ikind, 1);
    assert_eq!(parsed.version, b"ver2.2".to_vec());
    assert_eq!(parsed.x_min_token, b"120.00000".to_vec());
    assert_eq!(parsed.y_min_token, b"20.00000".to_vec());
    assert_eq!(
        parsed.points,
        vec![301234, 302234, 303234, 311234, -312234, 9990000]
    );

    // the caller turns the validated origin tokens into float bits
    let x_min: f32 = std::str::from_utf8(&parsed.x_min_token).unwrap().parse().unwrap();
    let y_min: f32 = std::str::from_utf8(&parsed.y_min_token).unwrap().parse().unwrap();
    let geoid = parsed.into_grid(x_min.to_bits(), y_min.to_bits());

    // to binary
    let buffer = geoid.to_binary().unwrap();

    // from binary
    let geoid = MemoryGrid::from_binary(&buffer).unwrap();
    assert_eq!(geoid.grid_info().x_min_bits, 120.0f32.to_bits());
    assert_eq!(
        geoid.samples(),
        &vec![301234, 302234, 303234, 311234, -312234, 9990000]
    );

    // to binary (broken data)
    let broken = MemoryGrid::new(
        GridInfo {
            x_num: 3,
            y_num: 2,
            x_denom: 40,
            y_denom: 60,
            x_min_bits: 120.0f32.to_bits(),
            y_min_bits: 20.0f32.to_bits(),
            ikind: 1,
            version: b"ver22222222222222".to_vec(),
        },
        vec![301234, 302234, 303234, 311234, -312234, 9990000],
    );
    broken
        .to_binary()
        .expect_err("version string must be shorter than 10 characters");
}

#[test]
fn broken_asc_headers() {
    let headers = vec![
        "20.aaa00 120.00000 0.016667 0.025000 1801 1201 1 ver2.2",
        "20.00000 120.0bbb0 0.016667 0.025000 1801 1201 1 ver2.2",
        "20.00000 120.00000 0.116667 0.025000 1801 1201 1 ver2.2",
        "20.00000 120.00000 0.016667 0.225000 1801 1201 1 ver2.2",
        "20.00000 120.00000 0.016667 0.025000 -1801 1201 1 ver2.2",
        "20.00000 120.00000 0.016667 0.025000 1801 -1201 1 ver2.2",
        "20.00000 120.00000 0.016667 0.025000 1801 1201 z ver2.2",
        "20.00000 120.00000 0.016667 0.025000 1801 1201 1 ver2.2 foobar",
        "20.00000 120.00000 0.016667 0.025000 1801 1201 1 ver2.2\n000.000a",
    ];

    for h in headers {
        let err = match parse_ascii(h.as_bytes()) {
            Err(err) => err,
            Ok(_) => panic!("expected error"),
        };
        println!("{:?}", err);
    }
}

#[test]
fn parse_error_variants() {
    // wrong field count
    assert!(matches!(
        parse_ascii(b"20.0 120.0 0.016667 0.025000 2 3 1"),
        Err(ParseError::HeaderFieldCount)
    ));
    // altered interval literals
    assert!(matches!(
        parse_ascii(b"20.0 120.0 0.116667 0.025000 2 3 1 v"),
        Err(ParseError::LatInterval)
    ));
    assert!(matches!(
        parse_ascii(b"20.0 120.0 0.016667 0.225000 2 3 1 v"),
        Err(ParseError::LonInterval)
    ));
    // non-numeric fields
    assert!(matches!(
        parse_ascii(b"20.0 120.0 0.016667 0.025000 2 3 z v"),
        Err(ParseError::HeaderNumber)
    ));
    assert!(matches!(
        parse_ascii(b"20.aaa00 120.0 0.016667 0.025000 2 3 1 v"),
        Err(ParseError::HeaderNumber)
    ));
    // a bad data token
    assert!(matches!(
        parse_ascii(b"20.0 120.0 0.016667 0.025000 2 3 1 v\n30.12a4"),
        Err(ParseError::DataNumber)
    ));
    // a short data section
    assert!(matches!(
        parse_ascii(b"20.0 120.0 0.016667 0.025000 2 3 1 v\n30.1234 30.2234"),
        Err(ParseError::SampleCount)
    ));
}

#[test]
fn origin_tokens_take_exponent_form() {
    let content = "15.0 1.2e2 0.016667 0.025000 1 1 0 v\n30.1234\n";
    let parsed = parse_ascii(content.as_bytes()).unwrap();
    assert_eq!(parsed.x_min_token, b"1.2e2".to_vec());
    let x_min: f32 = std::str::from_utf8(&parsed.x_min_token).unwrap().parse().unwrap();
    assert_eq!(x_min, 120.0f32);
}

#[test]
fn compressed_roundtrip() {
    let points = vec![301234, 302234, 303234, 311234, -312234, 9990000];
    let grid = MemoryGrid::new(small_info(b"ver2.2"), points.clone());
    let bytes = grid.to_binary().unwrap();
    let packed = lz4_flex::compress_prepend_size(&bytes);
    // The packed form really differs from the raw stream, and unpacking it
    // restores the same model the raw stream decodes to.
    assert_ne!(packed, bytes);
    let back = MemoryGrid::from_compressed_binary(&packed).unwrap();
    assert_eq!(back.samples(), &points);
    assert_eq!(back.grid_info().version, b"ver2.2\0\0\0\0".to_vec());

    assert!(matches!(
        MemoryGrid::from_compressed_binary(&bytes),
        Err(DecodeError::Compression)
    ));
}

#[test]
fn decimal_parsers_match_std() {
    assert_eq!(parse_u16(b"1801"), Some(1801));
    assert_eq!(parse_u16(b"+65535"), Some(65535));
    assert_eq!(parse_u16(b"65536"), None);
    assert_eq!(parse_u16(b"-1"), None);
    assert_eq!(parse_u16(b""), None);
    assert_eq!(parse_u16(b"+"), None);
    assert_eq!(parse_u16(b"00042"), Some(42));

    assert_eq!(parse_i32(b"-2147483648"), Some(i32::MIN));
    assert_eq!(parse_i32(b"2147483648"), None);
    assert_eq!(parse_i32(b"2147483647"), Some(i32::MAX));
    assert_eq!(parse_i32(b"+301234"), Some(301234));
    assert_eq!(parse_i32(b"-"), None);
    assert_eq!(parse_i32(b"1 2"), None);
}
