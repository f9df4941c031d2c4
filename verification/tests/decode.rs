//! Zigzag coding and the geometry command parser.

use papariki::{Command, DecodeError, GeometryParser};

fn drain(parser: &mut GeometryParser) -> Result<Vec<Command>, DecodeError> {
    let mut out = Vec::new();
    loop {
        match parser.next() {
            Ok(Some(cmd)) => out.push(cmd),
            Ok(None) => return Ok(out),
            Err(e) => return Err(e),
        }
    }
}

#[test]
fn zigzag_decodes_small_values() {
    assert_eq!(papariki::zigzag_decode(0), 0);
    assert_eq!(papariki::zigzag_decode(1), -1);
    assert_eq!(papariki::zigzag_decode(2), 1);
    assert_eq!(papariki::zigzag_decode(3), -2);
    assert_eq!(papariki::zigzag_decode(10), 5);
}

#[test]
fn zigzag_encodes_small_values() {
    assert_eq!(papariki::zigzag_encode(0), 0);
    assert_eq!(papariki::zigzag_encode(-1), 1);
    assert_eq!(papariki::zigzag_encode(1), 2);
    assert_eq!(papariki::zigzag_encode(-2), 3);
    assert_eq!(papariki::zigzag_encode(5), 10);
}

#[test]
fn zigzag_round_trip_representative_range() {
    for d in [
        0i32,
        1,
        -1,
        2,
        -2,
        4096,
        -4096,
        0x3FFF_FFFF,
        -0x4000_0000,
    ] {
        assert_eq!(papariki::zigzag_decode(papariki::zigzag_encode(d)), d);
    }
}

#[test]
fn zigzag_decode_of_top_bit_values_follows_the_signed_shift() {
    // Parameters with the top bit set go through the arithmetic right
    // shift of the 32-bit decoder.
    assert_eq!(papariki::zigzag_decode(0x8000_0000), -0x4000_0000);
    assert_eq!(papariki::zigzag_decode(0xFFFF_FFFF), 0);
    assert_eq!(papariki::zigzag_encode(i32::MIN), 0xFFFF_FFFF);
}

#[test]
fn empty_geometry_decodes_to_nothing() {
    let mut parser = GeometryParser::new(&[]);
    assert_eq!(drain(&mut parser), Ok(vec![]));
}

#[test]
fn parser_yields_move_and_line_with_running_cursor() {
    let mut parser = GeometryParser::new(&[9, 0, 0, 10, 10, 0]);
    assert_eq!(drain(&mut parser), Ok(vec![
        Command::MoveTo(0, 0),
        Command::LineTo(5, 0),
    ]));
}

#[test]
fn parser_accumulates_deltas() {
    // MoveTo +3,+3 then a LineTo run of two repetitions: +1,0 and +2,-2.
    let mut parser = GeometryParser::new(&[9, 6, 6, 18, 2, 0, 4, 3]);
    assert_eq!(drain(&mut parser), Ok(vec![
        Command::MoveTo(3, 3),
        Command::LineTo(4, 3),
        Command::LineTo(6, 1),
    ]));
}

#[test]
fn parser_repeats_close_path() {
    // Opcode 7 with repeat count 2 yields two ClosePath commands.
    let mut parser = GeometryParser::new(&[9, 2, 2, 23]);
    assert_eq!(drain(&mut parser), Ok(vec![
        Command::MoveTo(1, 1),
        Command::ClosePath,
        Command::ClosePath,
    ]));
}

#[test]
fn parser_ends_at_zero_repeat_count() {
    // A command integer with repeat count zero ends decoding; the rest of
    // the array is never reached.
    let mut parser = GeometryParser::new(&[1, 99, 99]);
    assert_eq!(drain(&mut parser), Ok(vec![]));
}

#[test]
fn parser_reports_unknown_opcode() {
    // Low three bits 3 is no opcode; repeat count 1.
    let mut parser = GeometryParser::new(&[11]);
    assert_eq!(drain(&mut parser), Err(DecodeError::UnknownOpcode(3)));
}

#[test]
fn parser_reports_truncated_parameters() {
    // A MoveTo needs two parameters; only one is present.
    let mut parser = GeometryParser::new(&[9, 0]);
    assert_eq!(drain(&mut parser), Err(DecodeError::TruncatedParameters));
}

#[test]
fn parser_reports_cursor_overflow() {
    // Three MoveTo repetitions of +(2^30 - 1) in x: the third leaves i32.
    let big = papariki::zigzag_encode(0x3FFF_FFFF);
    let mut parser = GeometryParser::new(&[25, big, 0, big, 0, big, 0]);
    assert_eq!(drain(&mut parser), Err(DecodeError::CursorOverflow));
}

#[test]
fn parser_stays_ended_after_error() {
    let mut parser = GeometryParser::new(&[11, 9, 0, 0]);
    assert_eq!(parser.next(), Err(DecodeError::UnknownOpcode(3)));
    assert_eq!(parser.next(), Ok(None));
}

#[test]
fn decoding_is_repeatable_on_the_same_input() {
    let geom = [9, 6, 6, 18, 2, 0, 4, 3, 15];
    let mut first = GeometryParser::new(&geom);
    let mut second = GeometryParser::new(&geom);
    assert_eq!(drain(&mut first), drain(&mut second));
}
