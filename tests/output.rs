use adb_control::output::{
    contains_bytes, dimensions_from_output, output_status, parse_dimensions, parse_size_line,
    parse_u32, split_bytes,
};
use adb_control::{ControlError, Dimensions};

fn dims(width: u32, height: u32) -> Dimensions {
    Dimensions { width, height }
}

#[test]
fn physical_size_is_read() {
    assert_eq!(
        parse_dimensions(b"Physical size: 1080x1920\n"),
        Ok(dims(1080, 1920))
    );
    assert_eq!(
        dimensions_from_output(b"Physical size: 1080x1920\n"),
        Ok(dims(1080, 1920))
    );
}

#[test]
fn first_marked_line_wins() {
    let out = b"Override size: 720x1280\nPhysical size: 1440x2560\nPhysical size: 1x1\n";
    assert_eq!(parse_dimensions(out), Ok(dims(1440, 2560)));
}

#[test]
fn no_marker_gives_zero() {
    assert_eq!(parse_dimensions(b"Override size: 720x1280\n"), Ok(dims(0, 0)));
    assert_eq!(parse_dimensions(b""), Ok(dims(0, 0)));
    assert_eq!(dimensions_from_output(b""), Ok(dims(0, 0)));
}

#[test]
fn malformed_size_is_an_error() {
    assert_eq!(
        parse_dimensions(b"Physical size: garbage"),
        Err(ControlError::MalformedSize)
    );
    assert_eq!(parse_dimensions(b"Physical size:"), Err(ControlError::MalformedSize));
    assert_eq!(
        parse_dimensions(b"Physical size: 1080"),
        Err(ControlError::MalformedSize)
    );
    assert_eq!(
        parse_dimensions(b"Physical size: 1x2x3"),
        Err(ControlError::MalformedSize)
    );
    assert_eq!(
        parse_dimensions(b"Physical size: 4294967296x1"),
        Err(ControlError::MalformedSize)
    );
    assert_eq!(
        parse_dimensions(b"Physical size:  1080x1920"),
        Err(ControlError::MalformedSize)
    );
}

#[test]
fn size_line_fields() {
    assert_eq!(parse_size_line(b"Physical size: 4294967295x0"), Some(dims(4294967295, 0)));
    assert_eq!(parse_size_line(b"Physical size: +7x08 extra"), Some(dims(7, 8)));
    assert_eq!(parse_size_line(b"Physical size: x"), None);
}

#[test]
fn output_that_is_not_utf8_is_an_error() {
    assert_eq!(dimensions_from_output(&[0xff, 0xfe]), Err(ControlError::OutputNotUtf8));
    assert_eq!(output_status(&[0xc3]), Err(ControlError::OutputNotUtf8));
}

#[test]
fn empty_output_means_success() {
    assert_eq!(output_status(b""), Ok(true));
    assert_eq!(output_status(b"Error: unknown command"), Ok(false));
    assert_eq!(output_status(b"\n"), Ok(false));
    assert_eq!(output_status("é".as_bytes()), Ok(false));
}

#[test]
fn unsigned_numbers() {
    assert_eq!(parse_u32(b"0"), Some(0));
    assert_eq!(parse_u32(b"+12"), Some(12));
    assert_eq!(parse_u32(b"4294967295"), Some(4294967295));
    assert_eq!(parse_u32(b"4294967296"), None);
    assert_eq!(parse_u32(b""), None);
    assert_eq!(parse_u32(b"+"), None);
    assert_eq!(parse_u32(b"-1"), None);
    assert_eq!(parse_u32(b"12a"), None);
}

#[test]
fn splitting_keeps_empty_pieces() {
    assert_eq!(split_bytes(b"a b", b' '), vec![b"a".to_vec(), b"b".to_vec()]);
    assert_eq!(split_bytes(b"", b' '), vec![Vec::<u8>::new()]);
    assert_eq!(
        split_bytes(b"a  b\n", b' '),
        vec![b"a".to_vec(), Vec::new(), b"b\n".to_vec()]
    );
}

#[test]
fn marker_search() {
    assert!(contains_bytes(b"  Physical size: 1x1", b"Physical size:"));
    assert!(!contains_bytes(b"Physical size", b"Physical size:"));
    assert!(contains_bytes(b"", b""));
    assert!(!contains_bytes(b"", b"a"));
}

#[test]
fn size_line_round_trip() {
    for (w, h) in [(0u32, 0u32), (1, 9), (10, 100), (720, 1280), (4294967295, 4294967295)] {
        let line = format!("Physical size: {}x{}", w, h);
        assert_eq!(parse_size_line(line.as_bytes()), Some(dims(w, h)));
        let text = format!("Override size: 1x1\n{}\n", line);
        assert_eq!(dimensions_from_output(text.as_bytes()), Ok(dims(w, h)));
    }
}
