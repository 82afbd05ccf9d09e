use ips_rs::{apply_patch, Error};

#[test]
fn test_blank_patch_file() {
    let rom: Vec<u8> = Vec::new();
    let patch: Vec<u8> = Vec::new(); // Blank patch file.

    let result = apply_patch(&patch, &rom);

    assert!(matches!(result, Err(Error::ExpectedHeader)));
}

#[test]
fn test_incomplete_patch_file() {
    let rom: Vec<u8> = Vec::new();

    let patch: Vec<u8> = vec![
        // Header
        b'P', b'A', b'T', b'C', b'H',
        0, 0, 0, // Record offset
        // Missing record size and data

        // EOF
        b'E', b'O', b'F',
    ];

    let result = apply_patch(&patch, &rom);

    assert!(matches!(result, Err(Error::UnexpectedEof)));
}

#[test]
fn test_simple_patch() {
    let rom = vec![0, 0, 0, 0];

    let patch = vec![
        // Header
        b'P', b'A', b'T', b'C', b'H',
        0, 0, 0, // Record offset
        0, 1, // Record size
        1, // Record data

        // EOF
        b'E', b'O', b'F',
    ];

    let result = apply_patch(&patch, &rom);

    match result {
        Ok(out) => {
            assert_eq!(out, vec![1, 0, 0, 0]);
        }

        Err(e) => {
            panic!("{}", e.message());
        }
    }
}

#[test]
fn test_patch_with_run_length_encoded_record() {
    let rom = vec![0, 0, 0, 0];

    let patch = vec![
        // Header
        b'P', b'A', b'T', b'C', b'H',
        0, 0, 1, // Record offset
        0, 0, // Record size, 0 = RLE
        0, 2, // RLE size
        1, // Data to repeat

        // EOF
        b'E', b'O', b'F',
    ];

    let result = apply_patch(&patch, &rom);

    match result {
        Ok(out) => {
            assert_eq!(out, vec![0, 1, 1, 0]);
        }

        Err(e) => {
            panic!("{}", e.message());
        }
    }
}

#[test]
fn test_patch_with_multiple_records() {
    let rom = vec![0, 0, 0, 0];

    let patch = vec![
        // Header
        b'P', b'A', b'T', b'C', b'H',
        // Record 1
        0, 0, 0,
        0, 1,
        1,
        // Record 2 - RLE
        0, 0, 1,
        0, 0,
        0, 2,
        1,
        // Record 3
        0, 0, 3,
        0, 1,
        1,
        // EOF
        b'E', b'O', b'F',
    ];

    let result = apply_patch(&patch, &rom);

    match result {
        Ok(out) => {
            assert_eq!(out, vec![1, 1, 1, 1]);
        }

        Err(e) => {
            panic!("{}", e.message());
        }
    }
}

#[test]
fn test_marker_only_patch_is_identity() {
    let rom = vec![9, 8, 7];
    let patch = vec![b'P', b'A', b'T', b'C', b'H', b'E', b'O', b'F'];

    let result = apply_patch(&patch, &rom);

    assert_eq!(result, Ok(vec![9, 8, 7]));
}

#[test]
fn test_apply_twice_same_output() {
    let patch = vec![
        b'P', b'A', b'T', b'C', b'H',
        0, 0, 1,
        0, 0,
        0, 3,
        4,
        b'E', b'O', b'F',
    ];

    let first = apply_patch(&patch, &vec![0, 0, 0, 0]).unwrap();
    let second = apply_patch(&patch, &vec![0, 0, 0, 0]).unwrap();

    assert_eq!(first, vec![0, 4, 4, 4]);
    assert_eq!(first, second);
}

#[test]
fn test_overlapping_records_later_wins() {
    let rom = vec![0, 0, 0, 0];

    let patch = vec![
        b'P', b'A', b'T', b'C', b'H',
        // Literal record: three bytes of 5 at offset 0.
        0, 0, 0,
        0, 3,
        5, 5, 5,
        // Literal record overlapping the middle: one byte of 7 at offset 1.
        0, 0, 1,
        0, 1,
        7,
        b'E', b'O', b'F',
    ];

    let result = apply_patch(&patch, &rom);

    assert_eq!(result, Ok(vec![5, 7, 5, 0]));
}

#[test]
fn test_zero_run_length_is_noop() {
    let rom = vec![3, 3, 3, 3];

    let patch = vec![
        b'P', b'A', b'T', b'C', b'H',
        // Run-length record with count 0: writes nothing.
        0, 0, 2,
        0, 0,
        0, 0,
        9,
        b'E', b'O', b'F',
    ];

    let result = apply_patch(&patch, &rom);

    assert_eq!(result, Ok(vec![3, 3, 3, 3]));
}

#[test]
fn test_write_past_end_extends_image() {
    let rom = vec![1, 2];

    let patch = vec![
        b'P', b'A', b'T', b'C', b'H',
        // Literal record past the end: the gap is zero-filled.
        0, 0, 4,
        0, 1,
        9,
        b'E', b'O', b'F',
    ];

    let result = apply_patch(&patch, &rom);

    assert_eq!(result, Ok(vec![1, 2, 0, 0, 9]));
}

#[test]
fn test_wrong_magic_rejected() {
    let rom = vec![0, 0];
    let patch = vec![b'P', b'A', b'T', b'C', b'X', b'E', b'O', b'F'];

    let result = apply_patch(&patch, &rom);

    assert!(matches!(result, Err(Error::ExpectedHeader)));
}

#[test]
fn test_short_stream_rejected_as_header() {
    let rom = vec![0, 0];
    let patch = vec![b'P', b'A', b'T'];

    let result = apply_patch(&patch, &rom);

    assert!(matches!(result, Err(Error::ExpectedHeader)));
}

#[test]
fn test_truncated_in_offset() {
    let patch = vec![b'P', b'A', b'T', b'C', b'H', 0, 0];

    let result = apply_patch(&patch, &Vec::new());

    assert!(matches!(result, Err(Error::UnexpectedEof)));
}

#[test]
fn test_truncated_in_size() {
    let patch = vec![b'P', b'A', b'T', b'C', b'H', 0, 0, 0, 0];

    let result = apply_patch(&patch, &Vec::new());

    assert!(matches!(result, Err(Error::UnexpectedEof)));
}

#[test]
fn test_truncated_run_length() {
    let patch = vec![b'P', b'A', b'T', b'C', b'H', 0, 0, 0, 0, 0, 0];

    let result = apply_patch(&patch, &Vec::new());

    assert!(matches!(result, Err(Error::UnexpectedEof)));
}

#[test]
fn test_missing_fill_byte() {
    let patch = vec![b'P', b'A', b'T', b'C', b'H', 0, 0, 0, 0, 0, 0, 2];

    let result = apply_patch(&patch, &Vec::new());

    assert!(matches!(result, Err(Error::UnexpectedEof)));
}

#[test]
fn test_short_literal_payload() {
    let patch = vec![b'P', b'A', b'T', b'C', b'H', 0, 0, 0, 0, 2, 1];

    let result = apply_patch(&patch, &Vec::new());

    assert!(matches!(result, Err(Error::UnexpectedEof)));
}

#[test]
fn test_missing_sentinel() {
    // A complete record, but the stream ends without the EOF sentinel.
    let patch = vec![b'P', b'A', b'T', b'C', b'H', 0, 0, 0, 0, 1, 1];

    let result = apply_patch(&patch, &vec![0, 0]);

    assert!(matches!(result, Err(Error::UnexpectedEof)));
}

#[test]
fn test_error_messages() {
    assert_eq!(
        Error::ExpectedHeader.message(),
        "Invalid patch file with unknown header"
    );
    assert_eq!(
        Error::UnexpectedEof.message(),
        "Reached end of patch file while decoding"
    );
    assert_eq!(Error::IoError.message(), "Underlying I/O operation failed");
}
