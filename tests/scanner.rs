use na::stream::{advance, write_stream, ByteSource, Discard, ReadBuffer, WriteBuffer};

fn scan(input: &[u8], max_len: usize, boundary: &str) -> (usize, Vec<u8>) {
    let mut output = vec![0u8; input.len() + 16];
    let w;
    {
        let mut reader = ReadBuffer::new(input);
        let mut writer = WriteBuffer::new(&mut output);
        w = write_stream(&mut reader, &mut writer, max_len, boundary.to_string()).unwrap();
    }
    output.truncate(w);
    (w, output)
}

fn numbered(len: usize) -> Vec<u8> {
    (0..len).map(|i| (i % 50) as u8).collect()
}

fn place(input: &mut [u8], at: usize, text: &str) {
    input[at..at + text.len()].copy_from_slice(text.as_bytes());
}

#[test]
fn boundary_inside_one_chunk_gives_its_offset() {
    let mut input = numbered(2048);
    place(&mut input, 100, "foobar");
    let (w, out) = scan(&input, 3000, "foobar");
    assert_eq!(100, w);
    assert_eq!(&input[..100], &out[..]);
}

#[test]
fn boundary_split_over_two_reads_gives_its_offset() {
    let mut input = numbered(2048);
    place(&mut input, 1021, "foobar");
    let (w, out) = scan(&input, 3000, "foobar");
    assert_eq!(1021, w);
    assert_eq!(&input[..1021], &out[..]);
}

#[test]
fn boundary_at_a_read_boundary_gives_its_offset() {
    let mut input = numbered(2048);
    place(&mut input, 1024, "foobar");
    let (w, out) = scan(&input, 3000, "foobar");
    assert_eq!(1024, w);
    assert_eq!(&input[..1024], &out[..]);
}

#[test]
fn no_boundary_echoes_the_whole_input() {
    let input = numbered(2048);
    let (w, out) = scan(&input, 3000, "foobar");
    assert_eq!(2048, w);
    assert_eq!(&input[..], &out[..]);
}

#[test]
fn no_boundary_is_cut_at_the_cap() {
    let input = numbered(2048);
    let (w, out) = scan(&input, 1500, "foobar");
    assert_eq!(1500, w);
    assert_eq!(&input[..1500], &out[..]);
}

#[test]
fn cap_before_the_boundary_cuts_exactly() {
    let mut input = numbered(2048);
    place(&mut input, 1300, "foobar");
    let (w, out) = scan(&input, 1030, "foobar");
    assert_eq!(1030, w);
    assert_eq!(&input[..1030], &out[..]);
}

#[test]
fn content_then_boundary_is_a_prefix_of_the_input() {
    let mut input = numbered(2048);
    place(&mut input, 700, "foobar");
    let (w, mut out) = scan(&input, 3000, "foobar");
    out.extend_from_slice(b"foobar");
    assert_eq!(&input[..w + 6], &out[..]);
}

#[test]
fn partial_match_at_the_end_is_content() {
    let mut input = numbered(1030);
    place(&mut input, 1027, "foo");
    let (w, out) = scan(&input, 3000, "foobar");
    assert_eq!(1030, w);
    assert_eq!(&input[..], &out[..]);
}

#[test]
fn broken_partial_match_across_reads_is_content() {
    let mut input = numbered(2048);
    place(&mut input, 1021, "foobaX");
    place(&mut input, 1800, "foobar");
    let (w, out) = scan(&input, 3000, "foobar");
    assert_eq!(1800, w);
    assert_eq!(&input[..1800], &out[..]);
}

#[test]
fn cap_inside_held_bytes() {
    let mut input = numbered(2048);
    place(&mut input, 1020, "foobaX");
    let (w, out) = scan(&input, 1022, "foobar");
    assert_eq!(1022, w);
    assert_eq!(&input[..1022], &out[..]);
    assert_eq!(b"fo", &out[1020..]);
}

#[test]
fn byte_that_breaks_a_run_is_not_retried() {
    let input = b"xxffoobar".to_vec();
    let (w, _) = scan(&input, 100, "foobar");
    assert_eq!(9, w);
    let input = b"xxfoobar".to_vec();
    let (w, _) = scan(&input, 100, "foobar");
    assert_eq!(2, w);
}

#[test]
fn zero_cap_or_empty_boundary_forward_nothing() {
    let input = numbered(100);
    assert_eq!(0, scan(&input, 0, "foobar").0);
    assert_eq!(0, scan(&input, 100, "").0);
}

#[test]
fn full_sink_takes_a_prefix() {
    let input = numbered(40);
    let mut small = [0u8; 10];
    let w;
    {
        let mut reader = ReadBuffer::new(&input);
        let mut writer = WriteBuffer::new(&mut small);
        w = write_stream(&mut reader, &mut writer, 100, "foobar".to_string()).unwrap();
    }
    assert_eq!(10, w);
    assert_eq!(&input[..10], &small[..]);
}

#[test]
fn advance_skips_past_the_boundary() {
    let mut input = numbered(2048);
    place(&mut input, 400, "foobar");
    let mut reader = ReadBuffer::new(&input);
    let skipped = advance(&mut reader, 3000, "foobar".to_string()).unwrap();
    assert_eq!(400, skipped);
    let mut rest = [0u8; 2048];
    assert_eq!(1024, reader.read(&mut rest).unwrap());
    assert_eq!(&input[1024..], &rest[..1024]);
}

#[test]
fn discarding_sink_takes_everything() {
    let input = numbered(2048);
    let mut sink = Discard::new();
    let mut reader = ReadBuffer::new(&input);
    assert_eq!(1500, write_stream(&mut reader, &mut sink, 1500, "foobar".to_string()).unwrap());
}
