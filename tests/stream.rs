use na::stream::{write_stream, ByteSink, ByteSource, ReadBuffer, WriteBuffer};

#[test]
pub fn test_read_buffer() {
    let mut buff: [u8; 1000] = [42; 1000];
    buff[7] = 6;
    buff[299] = 3;
    buff[999] = 2;
    buff[300] = 5;

    let mut reader = ReadBuffer::new(&buff);
    let mut into: [u8; 300] = [0; 300];

    assert_eq!(300, reader.read(&mut into).unwrap());
    assert_eq!(3, into[299]);
    assert_eq!(6, into[7]);
    assert_eq!(300, reader.read(&mut into).unwrap());
    assert_eq!(5, into[0]);
    assert_eq!(300, reader.read(&mut into).unwrap());
    assert_eq!(100, reader.read(&mut into).unwrap());
    assert_eq!(2, into[99]);
}

#[test]
pub fn test_write_buffer() {
    let mut buffer: [u8; 1000] = [0; 1000];

    {
        let mut writer = WriteBuffer::new(&mut buffer);
        let mut input: [u8; 1000] = [42; 1000];
        input[0] = 1;
        input[299] = 2;
        input[300] = 3;
        input[999] = 4;

        assert_eq!(150, writer.write(&input[0..150]).unwrap());
        assert_eq!(177, writer.write(&input[150..327]).unwrap());
        assert_eq!(273, writer.write(&input[327..600]).unwrap());
        assert_eq!(300, writer.write(&input[600..900]).unwrap());
        assert_eq!(100, writer.write(&input[900..1000]).unwrap());
    }

    assert_eq!(1, buffer[0]);
    assert_eq!(2, buffer[299]);
    assert_eq!(3, buffer[300]);
    assert_eq!(4, buffer[999]);
}

#[test]
pub fn test_write_stream_case1() {
    // Boundary at the beginning of the second read
    let boundary = "foobar".as_bytes();
    let decoy = "fooba".as_bytes();

    let mut input: [u8; 2048] = [0; 2048];
    let mut output: [u8; 2048] = [0; 2048];

    input[500] = decoy[0];
    input[501] = decoy[1];
    input[502] = decoy[2];
    input[503] = decoy[3];
    input[504] = decoy[4];

    input[1023] = 42;
    input[1024] = boundary[0];
    input[1025] = boundary[1];
    input[1026] = boundary[2];
    input[1027] = boundary[3];
    input[1028] = boundary[4];
    input[1029] = boundary[5];

    let w;
    {
        let mut reader = ReadBuffer::new(&input);
        let mut writer = WriteBuffer::new(&mut output);
        w = write_stream(&mut reader, &mut writer, 3000, "foobar".to_string()).unwrap();
    }
    assert_eq!(1024, w);
    assert_eq!(output[1023], 42);
    assert_eq!(output[1024], 0);
}

#[test]
pub fn test_write_stream_case2() {
    // Boundary at the ~middle of the second read
    let boundary = "foobar".as_bytes();
    let decoy = "fooba".as_bytes();

    let mut input: [u8; 2048] = [0; 2048];
    let mut output: [u8; 2048] = [0; 2048];

    input[1022] = decoy[0];
    input[1023] = decoy[1];
    input[1024] = decoy[2];
    input[1025] = decoy[3];
    input[1026] = decoy[4];

    input[1523] = 42;
    input[1524] = boundary[0];
    input[1525] = boundary[1];
    input[1526] = boundary[2];
    input[1527] = boundary[3];
    input[1528] = boundary[4];
    input[1529] = boundary[5];

    let w;
    {
        let mut reader = ReadBuffer::new(&input);
        let mut writer = WriteBuffer::new(&mut output);
        w = write_stream(&mut reader, &mut writer, 3000, "foobar".to_string()).unwrap();
    }
    assert_eq!(output[1523], 42);
    assert_eq!(1524, w);
    assert_eq!(output[1524], 0);
}

#[test]
pub fn test_write_stream_case3() {
    // boundary split across two reads
    let boundary = "foobar".as_bytes();

    let mut input: [u8; 2048] = [0; 2048];
    let mut output: [u8; 2048] = [0; 2048];

    input[1520] = 42;
    input[1521] = boundary[0];
    input[1522] = boundary[1];
    input[1523] = boundary[2];
    input[1524] = boundary[3];
    input[1525] = boundary[4];
    input[1526] = boundary[5];

    let w;
    {
        let mut reader = ReadBuffer::new(&input);
        let mut writer = WriteBuffer::new(&mut output);
        w = write_stream(&mut reader, &mut writer, 3000, "foobar".to_string()).unwrap();
    }
    assert_eq!(1521, w);
    assert_eq!(output[1520], 42);
    assert_eq!(output[1521], 0);
}

#[test]
pub fn test_write_stream_case4() {
    // no boundary found
    let mut input: [u8; 2048] = [0; 2048];
    let mut output: [u8; 2048] = [0; 2048];

    input[2047] = 42;

    let w;
    {
        let mut reader = ReadBuffer::new(&input);
        let mut writer = WriteBuffer::new(&mut output);
        w = write_stream(&mut reader, &mut writer, 3000, "foobar".to_string()).unwrap();
    }
    assert_eq!(2048, w);
    assert_eq!(output[2047], 42);
}

#[test]
pub fn test_write_stream_case5() {
    // max_len early exit
    let boundary = "foobar".as_bytes();

    let mut input: [u8; 2048] = [0; 2048];
    let mut output: [u8; 2048] = [0; 2048];

    input[1449] = 42;
    input[1521] = boundary[0];
    input[1522] = boundary[1];
    input[1523] = boundary[2];
    input[1524] = boundary[3];
    input[1525] = boundary[4];
    input[1526] = boundary[5];

    let w;
    {
        let mut reader = ReadBuffer::new(&input);
        let mut writer = WriteBuffer::new(&mut output);
        w = write_stream(&mut reader, &mut writer, 1450, "foobar".to_string()).unwrap();
    }
    assert_eq!(1450, w);
    assert_eq!(output[1449], 42);
}

#[test]
pub fn test_write_stream_case6() {
    let mut input: [u8; 2048] = [0; 2048];
    let mut output: [u8; 2048] = [0; 2048];

    input[199] = 42;
    input[200] = 84;

    let w;
    {
        let mut reader = ReadBuffer::new(&input);
        let mut writer = WriteBuffer::new(&mut output);
        w = write_stream(&mut reader, &mut writer, 200, "foobar".to_string()).unwrap();
    }
    assert_eq!(200, w);
    assert_eq!(output[199], 42);
    assert_eq!(output[200], 0)
}
