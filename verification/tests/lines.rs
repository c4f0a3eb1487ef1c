use crlf_lines::errors::LineError;
use crlf_lines::reader::{LineReader, MemSource, ReadCrlfLine};
use crlf_lines::writer::{LineWriter, MemSink, WriteCrlfLine};

#[test]
fn read_single_line() {
    let mut line = String::with_capacity(15);
    let mut buf_reader = LineReader::new(MemSource::new(
        "This is a text\r\nwith two lines".as_bytes().to_vec(),
    ));

    let result = buf_reader.read_crlf_line(&mut line);

    assert_eq!(line, "This is a text");
    assert_eq!(result.unwrap(), 16);
}

#[test]
fn read_two_lines() {
    let mut line = String::with_capacity(32);
    let mut buf_reader = LineReader::new(MemSource::new(
        "This is a text\r\nwith three lines\r\nseparated by crlf"
            .as_bytes()
            .to_vec(),
    ));

    let first_result = buf_reader.read_crlf_line(&mut line);
    assert_eq!(line, "This is a text");
    assert_eq!(first_result.unwrap(), 16);

    line.clear();

    let second_result = buf_reader.read_crlf_line(&mut line);
    assert_eq!(line, "with three lines");
    assert_eq!(second_result.unwrap(), 18);
}

#[test]
fn read_reads_to_end_when_theres_no_crlf() {
    let mut line = String::with_capacity(32);
    let mut buf_reader = LineReader::new(MemSource::new(
        "this is a line with no crlf".as_bytes().to_vec(),
    ));

    let result = buf_reader.read_crlf_line(&mut line);

    assert_eq!(line, "this is a line with no crlf");
    assert_eq!(result.unwrap(), 27);
}

#[test]
fn read_multiline_without_crlf_as_single_line() {
    let mut line = String::with_capacity(128);
    let mut buf_reader = LineReader::new(MemSource::new(
        "this is\nseveral lines\nseparated by newlines\nwithout carriage return"
            .as_bytes()
            .to_vec(),
    ));

    let result = buf_reader.read_crlf_line(&mut line);

    assert_eq!(
        line,
        "this is\nseveral lines\nseparated by newlines\nwithout carriage return"
    );
    assert_eq!(result.unwrap(), 67);
}

#[test]
fn write_single_line() {
    let mut buf_writer = LineWriter::new(MemSink::new());

    let result = buf_writer.write_crlf_line("single line".as_bytes());

    assert!(result.is_ok());

    let bytes = buf_writer.into_sink().into_bytes();
    assert_eq!("single line\r\n", String::from_utf8(bytes).unwrap())
}

#[test]
fn write_multiple_lines() {
    let mut buf_writer = LineWriter::new(MemSink::new());

    buf_writer.write_crlf_line("first line".as_bytes()).unwrap();
    buf_writer.write_crlf_line("second line".as_bytes()).unwrap();

    let bytes = buf_writer.into_sink().into_bytes();
    assert_eq!(
        "first line\r\nsecond line\r\n",
        String::from_utf8(bytes).unwrap()
    );
}

#[test]
fn write_then_read_round_trips_one_line() {
    let mut buf_writer = LineWriter::new(MemSink::new());
    buf_writer.write_crlf_line("hello there".as_bytes()).unwrap();
    let bytes = buf_writer.into_sink().into_bytes();

    let mut line = String::new();
    let mut buf_reader = LineReader::new(MemSource::new(bytes));
    let result = buf_reader.read_crlf_line(&mut line);

    assert_eq!(line, "hello there");
    assert_eq!(result.unwrap(), "hello there".len() + 2);
}

#[test]
fn read_three_lines_and_then_end_of_stream() {
    let mut line = String::new();
    let mut buf_reader = LineReader::new(MemSource::new("A\r\nB\r\nC".as_bytes().to_vec()));

    assert_eq!(buf_reader.read_crlf_line(&mut line).unwrap(), 3);
    assert_eq!(line, "A");
    line.clear();

    assert_eq!(buf_reader.read_crlf_line(&mut line).unwrap(), 3);
    assert_eq!(line, "B");
    line.clear();

    assert_eq!(buf_reader.read_crlf_line(&mut line).unwrap(), 1);
    assert_eq!(line, "C");
    line.clear();

    assert_eq!(buf_reader.read_crlf_line(&mut line).unwrap(), 0);
    assert_eq!(line, "");
}

#[test]
fn read_empty_stream_yields_zero_and_leaves_output_alone() {
    let mut line = String::from("kept");
    let mut buf_reader = LineReader::new(MemSource::new(Vec::new()));

    assert_eq!(buf_reader.read_crlf_line(&mut line).unwrap(), 0);
    assert_eq!(line, "kept");
}

#[test]
fn read_after_end_keeps_yielding_zero() {
    let mut line = String::new();
    let mut buf_reader = LineReader::new(MemSource::new("x\r\n".as_bytes().to_vec()));

    assert_eq!(buf_reader.read_crlf_line(&mut line).unwrap(), 3);
    assert_eq!(buf_reader.read_crlf_line(&mut line).unwrap(), 0);
    assert_eq!(buf_reader.read_crlf_line(&mut line).unwrap(), 0);
    assert_eq!(line, "x");
}

#[test]
fn round_trip_of_several_lines_in_order() {
    let payloads = ["first", "", "third one", "4"];

    let mut buf_writer = LineWriter::new(MemSink::new());
    for p in payloads.iter() {
        buf_writer.write_crlf_line(p.as_bytes()).unwrap();
    }
    let bytes = buf_writer.into_sink().into_bytes();

    let mut buf_reader = LineReader::new(MemSource::new(bytes));
    let mut line = String::new();
    for p in payloads.iter() {
        line.clear();
        let consumed = buf_reader.read_crlf_line(&mut line).unwrap();
        assert_eq!(&line, p);
        assert_eq!(consumed, p.len() + 2);
    }
    line.clear();
    assert_eq!(buf_reader.read_crlf_line(&mut line).unwrap(), 0);
    assert_eq!(line, "");
}

#[test]
fn read_line_straddling_several_fetches() {
    let mut line = String::new();
    let mut buf_reader = LineReader::new(MemSource::with_granularity(
        "a longer line\r\nshort".as_bytes().to_vec(),
        1,
    ));

    assert_eq!(buf_reader.read_crlf_line(&mut line).unwrap(), 15);
    assert_eq!(line, "a longer line");

    line.clear();
    assert_eq!(buf_reader.read_crlf_line(&mut line).unwrap(), 5);
    assert_eq!(line, "short");
}

#[test]
fn read_terminator_split_across_fetches() {
    let mut line = String::new();
    let mut buf_reader = LineReader::new(MemSource::with_granularity(
        "ab\r\ncd".as_bytes().to_vec(),
        3,
    ));

    assert_eq!(buf_reader.read_crlf_line(&mut line).unwrap(), 4);
    assert_eq!(line, "ab");

    line.clear();
    assert_eq!(buf_reader.read_crlf_line(&mut line).unwrap(), 2);
    assert_eq!(line, "cd");
}

#[test]
fn read_empty_line_at_stream_start() {
    let mut line = String::new();
    let mut buf_reader = LineReader::new(MemSource::new("\r\nrest".as_bytes().to_vec()));

    assert_eq!(buf_reader.read_crlf_line(&mut line).unwrap(), 2);
    assert_eq!(line, "");
}

#[test]
fn bare_cr_and_bare_lf_are_ordinary_content() {
    let mut line = String::new();
    let mut buf_reader = LineReader::new(MemSource::new("a\rb\nc\r\nd".as_bytes().to_vec()));

    assert_eq!(buf_reader.read_crlf_line(&mut line).unwrap(), 7);
    assert_eq!(line, "a\rb\nc");
}

#[test]
fn read_trailing_lone_cr_is_content() {
    let mut line = String::new();
    let mut buf_reader = LineReader::new(MemSource::new("abc\r".as_bytes().to_vec()));

    assert_eq!(buf_reader.read_crlf_line(&mut line).unwrap(), 4);
    assert_eq!(line, "abc\r");
}

#[test]
fn read_decodes_multi_byte_characters() {
    let mut line = String::new();
    let mut buf_reader = LineReader::new(MemSource::with_granularity(
        "héllo wörld\r\n".as_bytes().to_vec(),
        2,
    ));

    let consumed = buf_reader.read_crlf_line(&mut line).unwrap();
    assert_eq!(line, "héllo wörld");
    assert_eq!(consumed, "héllo wörld".len() + 2);
}

#[test]
fn invalid_utf8_fails_and_consumes_nothing() {
    let mut data = vec![0xFFu8, 0xFEu8];
    data.extend_from_slice("ab\r\nnext".as_bytes());
    let mut line = String::new();
    let mut buf_reader = LineReader::new(MemSource::new(data));

    assert_eq!(
        buf_reader.read_crlf_line(&mut line),
        Err(LineError::Encoding)
    );
    assert_eq!(line, "");

    // nothing was consumed: the same line fails again
    assert_eq!(
        buf_reader.read_crlf_line(&mut line),
        Err(LineError::Encoding)
    );
    assert_eq!(line, "");

    // substituting a valid-UTF-8 interpretation of the same bytes succeeds
    let mut corrected = String::new();
    let mut retry_reader = LineReader::new(MemSource::new("??ab\r\nnext".as_bytes().to_vec()));
    assert_eq!(retry_reader.read_crlf_line(&mut corrected).unwrap(), 6);
    assert_eq!(corrected, "??ab");
}

#[test]
fn write_does_not_escape_embedded_cr_lf() {
    let mut buf_writer = LineWriter::new(MemSink::new());
    buf_writer.write_crlf_line("a\r\nb".as_bytes()).unwrap();

    let bytes = buf_writer.into_sink().into_bytes();
    assert_eq!("a\r\nb\r\n", String::from_utf8(bytes).unwrap());
}

#[test]
fn write_empty_payload_is_a_bare_terminator() {
    let mut buf_writer = LineWriter::new(MemSink::new());
    buf_writer.write_crlf_line("".as_bytes()).unwrap();

    let bytes = buf_writer.into_sink().into_bytes();
    assert_eq!("\r\n", String::from_utf8(bytes).unwrap());
}
