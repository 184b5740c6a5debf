use cldj::io::wav::{decode_samples, encode_samples, DataHeader, FMTHeader, RIFFHeader, WAV};

fn riff_bytes() -> [u8; 12] {
    [b'R', b'I', b'F', b'F', 0x24, 0x08, 0x00, 0x00, b'W', b'A', b'V', b'E']
}

fn fmt_bytes() -> [u8; 24] {
    [
        b'f', b'm', b't', b' ', // tag
        0x10, 0x00, 0x00, 0x00, // header size 16
        0x01, 0x00, // format 1
        0x02, 0x00, // two channels
        0x44, 0xac, 0x00, 0x00, // 44100 samples a second
        0x10, 0xb1, 0x02, 0x00, // 176400 bytes a second
        0x04, 0x00, // four bytes to a block
        0x10, 0x00, // 16 bits to a sample
    ]
}

fn data_bytes() -> [u8; 8] {
    [b'd', b'a', b't', b'a', 0x00, 0x08, 0x00, 0x00]
}

fn file_bytes(samples: &[i16]) -> Vec<u8> {
    let mut bytes = Vec::new();
    bytes.extend_from_slice(&riff_bytes());
    bytes.extend_from_slice(&fmt_bytes());
    bytes.extend_from_slice(&data_bytes());
    for sample in samples {
        bytes.extend_from_slice(&sample.to_le_bytes());
    }
    bytes
}

fn std_message(bytes: &[u8]) -> String {
    std::str::from_utf8(bytes).unwrap_err().to_string()
}

#[test]
fn riff_header_is_read() {
    let header = RIFFHeader::new(&riff_bytes()).unwrap();
    assert_eq!(header.riff, "RIFF");
    assert_eq!(header.file_size, 2084);
    assert_eq!(header.four_cc, "WAVE");
}

#[test]
fn riff_header_reads_the_largest_size() {
    let mut bytes = riff_bytes();
    bytes[4] = 0xff;
    bytes[5] = 0xff;
    bytes[6] = 0xff;
    bytes[7] = 0xff;
    assert_eq!(RIFFHeader::new(&bytes).unwrap().file_size, u32::MAX);
    bytes[4] = 0x01;
    bytes[5] = 0x02;
    bytes[6] = 0x03;
    bytes[7] = 0x04;
    assert_eq!(RIFFHeader::new(&bytes).unwrap().file_size, 0x0403_0201);
}

#[test]
fn riff_header_refuses_another_tag() {
    let mut bytes = riff_bytes();
    bytes[3] = b'X';
    assert_eq!(
        RIFFHeader::new(&bytes).unwrap_err(),
        "first four bytes are not RIFF"
    );
    let lower = [b'r', b'i', b'f', b'f', 0, 0, 0, 0, b'W', b'A', b'V', b'E'];
    assert_eq!(
        RIFFHeader::new(&lower).unwrap_err(),
        "first four bytes are not RIFF"
    );
    assert_eq!(
        RIFFHeader::new(&[0u8; 12]).unwrap_err(),
        "first four bytes are not RIFF"
    );
}

#[test]
fn riff_header_refuses_a_tag_that_is_not_utf8() {
    let mut bytes = riff_bytes();
    bytes[0] = 0xff;
    let message = RIFFHeader::new(&bytes).unwrap_err();
    assert_eq!(message, std_message(&bytes[0..4]));
    assert_eq!(message, "invalid utf-8 sequence of 1 bytes from index 0");
}

#[test]
fn riff_header_refuses_a_tag_that_breaks_off() {
    let mut bytes = riff_bytes();
    bytes[3] = 0xc3;
    let message = RIFFHeader::new(&bytes).unwrap_err();
    assert_eq!(message, std_message(&bytes[0..4]));
    assert_eq!(message, "incomplete utf-8 byte sequence from index 3");
}

#[test]
fn riff_header_refuses_a_content_name_that_is_not_utf8() {
    let mut bytes = riff_bytes();
    bytes[10] = 0x80;
    let message = RIFFHeader::new(&bytes).unwrap_err();
    assert_eq!(message, std_message(&bytes[8..12]));
    assert_eq!(message, "invalid utf-8 sequence of 1 bytes from index 2");
}

#[test]
fn riff_header_tag_is_judged_before_the_content_name() {
    let mut bytes = riff_bytes();
    bytes[0] = b'X';
    bytes[8] = 0xff;
    assert_eq!(
        RIFFHeader::new(&bytes).unwrap_err(),
        "first four bytes are not RIFF"
    );
}

#[test]
fn riff_header_keeps_a_content_name_of_fewer_characters() {
    let mut bytes = riff_bytes();
    bytes[8] = 0xc3;
    bytes[9] = 0xa9;
    let header = RIFFHeader::new(&bytes).unwrap();
    assert_eq!(header.four_cc, "\u{e9}VE");
}

#[test]
fn riff_header_is_written() {
    let header = RIFFHeader {
        riff: "RIFF".to_string(),
        file_size: 2084,
        four_cc: "WAVE".to_string(),
    };
    let mut written = vec![7u8];
    header.write(&mut written);
    let mut expected = vec![7u8];
    expected.extend_from_slice(&riff_bytes());
    assert_eq!(written, expected);
}

#[test]
fn fmt_header_is_read() {
    let header = FMTHeader::new(&fmt_bytes()).unwrap();
    assert_eq!(header.fmt, "fmt ");
    assert_eq!(header.header_size, 16);
    assert_eq!(header.format, 1);
    assert_eq!(header.nchannels, 2);
    assert_eq!(header.sample_rate, 44100);
    assert_eq!(header.byte_rate, 176400);
    assert_eq!(header.block_align, 4);
    assert_eq!(header.bits_per_sample, 16);
}

#[test]
fn fmt_header_reads_each_field_from_its_own_bytes() {
    let mut bytes = fmt_bytes();
    for (at, byte) in bytes.iter_mut().enumerate().skip(4) {
        *byte = at as u8;
    }
    let header = FMTHeader::new(&bytes).unwrap();
    assert_eq!(header.header_size, 0x0706_0504);
    assert_eq!(header.format, 0x0908);
    assert_eq!(header.nchannels, 0x0b0a);
    assert_eq!(header.sample_rate, 0x0f0e_0d0c);
    assert_eq!(header.byte_rate, 0x1312_1110);
    assert_eq!(header.block_align, 0x1514);
    assert_eq!(header.bits_per_sample, 0x1716);
}

#[test]
fn fmt_header_refuses_another_tag() {
    let mut bytes = fmt_bytes();
    bytes[3] = 0;
    assert_eq!(
        FMTHeader::new(&bytes).unwrap_err(),
        "header does not start with FMT"
    );
}

#[test]
fn fmt_header_refuses_a_tag_that_is_not_utf8() {
    let mut bytes = fmt_bytes();
    bytes[1] = 0xf8;
    let message = FMTHeader::new(&bytes).unwrap_err();
    assert_eq!(message, std_message(&bytes[0..4]));
    assert_eq!(message, "invalid utf-8 sequence of 1 bytes from index 1");
}

#[test]
fn fmt_header_is_written() {
    let header = FMTHeader {
        fmt: "fmt ".to_string(),
        header_size: 16,
        format: 1,
        nchannels: 2,
        sample_rate: 44100,
        byte_rate: 176400,
        block_align: 4,
        bits_per_sample: 16,
    };
    let mut written = Vec::new();
    header.write(&mut written);
    assert_eq!(written, fmt_bytes().to_vec());
}

#[test]
fn data_header_is_read() {
    let header = DataHeader::new(&data_bytes()).unwrap();
    assert_eq!(header.data, "data");
    assert_eq!(header.size, 2048);
}

#[test]
fn data_header_refuses_another_tag() {
    let bytes = [b'L', b'I', b'S', b'T', 0, 0, 0, 0];
    assert_eq!(
        DataHeader::new(&bytes).unwrap_err(),
        "header does not start with data"
    );
}

#[test]
fn data_header_refuses_a_tag_that_is_not_utf8() {
    let bytes = [b'd', b'a', 0xed, 0xa0, 0, 0, 0, 0];
    let message = DataHeader::new(&bytes).unwrap_err();
    assert_eq!(message, std_message(&bytes[0..4]));
    assert_eq!(message, "invalid utf-8 sequence of 1 bytes from index 2");
}

#[test]
fn data_header_is_written() {
    let header = DataHeader {
        data: "data".to_string(),
        size: 0x8070_6050,
    };
    let mut written = Vec::new();
    header.write(&mut written);
    assert_eq!(
        written,
        vec![b'd', b'a', b't', b'a', 0x50, 0x60, 0x70, 0x80]
    );
}

#[test]
fn samples_are_read_least_significant_byte_first() {
    let bytes = [0x01, 0x00, 0xff, 0xff, 0x00, 0x80, 0xff, 0x7f, 0x34, 0x12, 0x18, 0xfc];
    assert_eq!(
        decode_samples(&bytes),
        vec![1, -1, -32768, 32767, 0x1234, -1000]
    );
}

#[test]
fn no_bytes_hold_no_samples() {
    assert_eq!(decode_samples(&[]), Vec::<i16>::new());
}

#[test]
fn samples_are_written_least_significant_byte_first() {
    let mut written = vec![0xaa];
    encode_samples(&[1, -1, -32768, 32767, 0x1234, -1000], &mut written);
    assert_eq!(
        written,
        vec![0xaa, 0x01, 0x00, 0xff, 0xff, 0x00, 0x80, 0xff, 0x7f, 0x34, 0x12, 0x18, 0xfc]
    );
}

#[test]
fn every_sample_survives_writing_and_reading() {
    let samples: Vec<i16> = (i16::MIN..=i16::MAX).collect();
    let mut written = Vec::new();
    encode_samples(&samples, &mut written);
    assert_eq!(written.len(), 2 * samples.len());
    assert_eq!(decode_samples(&written), samples);
}

#[test]
fn container_is_read() {
    let samples = [0i16, 1000, -1000, 32767, -32768];
    let wav = WAV::from_bytes(&file_bytes(&samples)).unwrap();
    assert_eq!(wav.riff_header.riff, "RIFF");
    assert_eq!(wav.riff_header.file_size, 2084);
    assert_eq!(wav.riff_header.four_cc, "WAVE");
    assert_eq!(wav.fmt_header.fmt, "fmt ");
    assert_eq!(wav.fmt_header.sample_rate, 44100);
    assert_eq!(wav.fmt_header.nchannels, 2);
    assert_eq!(wav.data_header.data, "data");
    assert_eq!(wav.data_header.size, 2048);
    assert_eq!(wav.signal, samples.to_vec());
}

#[test]
fn lossless_read_write_in_memory() {
    let samples: Vec<i16> = (0..4410)
        .map(|n: i32| (((n * 7919) % 65536) - 32768) as i16)
        .collect();
    let input = file_bytes(&samples);
    let wav = WAV::from_bytes(&input).unwrap();
    let mut output = Vec::new();
    wav.write(&mut output);
    assert_eq!(input, output);
}

#[test]
fn container_written_then_read_is_the_same() {
    let wav = WAV {
        riff_header: RIFFHeader {
            riff: "RIFF".to_string(),
            file_size: 44,
            four_cc: "WAVE".to_string(),
        },
        fmt_header: FMTHeader {
            fmt: "fmt ".to_string(),
            header_size: 16,
            format: 1,
            nchannels: 1,
            sample_rate: 8000,
            byte_rate: 16000,
            block_align: 2,
            bits_per_sample: 16,
        },
        data_header: DataHeader {
            data: "data".to_string(),
            size: 8,
        },
        signal: vec![3, -3, 300, -300],
    };
    let mut bytes = Vec::new();
    wav.write(&mut bytes);
    assert_eq!(bytes.len(), 52);
    let read = WAV::from_bytes(&bytes).unwrap();
    assert_eq!(read.riff_header.file_size, 44);
    assert_eq!(read.riff_header.four_cc, "WAVE");
    assert_eq!(read.fmt_header.sample_rate, 8000);
    assert_eq!(read.fmt_header.byte_rate, 16000);
    assert_eq!(read.data_header.size, 8);
    assert_eq!(read.signal, vec![3, -3, 300, -300]);
}

#[test]
fn container_reports_the_first_header_that_is_refused() {
    let mut bytes = file_bytes(&[1, 2, 3]);
    bytes[36] = b'D';
    assert_eq!(
        WAV::from_bytes(&bytes).unwrap_err(),
        "header does not start with data"
    );
    bytes[12] = b'F';
    assert_eq!(
        WAV::from_bytes(&bytes).unwrap_err(),
        "header does not start with FMT"
    );
    bytes[0] = b'r';
    assert_eq!(
        WAV::from_bytes(&bytes).unwrap_err(),
        "first four bytes are not RIFF"
    );
}

#[test]
fn container_without_samples_is_read() {
    let wav = WAV::from_bytes(&file_bytes(&[])).unwrap();
    assert!(wav.signal.is_empty());
    assert_eq!(wav.data_header.size, 2048);
}

#[test]
fn file_that_ends_early_is_filled_with_zeros() {
    let whole = file_bytes(&[]);
    let wav = WAV::from_bytes(&whole[..41]).unwrap();
    assert_eq!(wav.data_header.data, "data");
    assert_eq!(wav.data_header.size, 0);
    assert!(wav.signal.is_empty());
    let wav = WAV::from_bytes(&whole[..30]);
    assert_eq!(wav.unwrap_err(), "header does not start with data");
    let wav = WAV::from_bytes(&whole[..10]);
    assert_eq!(wav.unwrap_err(), "header does not start with FMT");
    let wav = WAV::from_bytes(&[]);
    assert_eq!(wav.unwrap_err(), "first four bytes are not RIFF");
}

#[test]
fn file_that_ends_early_in_the_content_name() {
    let whole = file_bytes(&[]);
    let (riff_header, _, _) = WAV::read_headers(&whole[..41]).unwrap();
    assert_eq!(riff_header.four_cc, "WAVE");
    let mut short = whole[..10].to_vec();
    short.extend_from_slice(&whole[10..]);
    short.truncate(10);
    let headers = WAV::read_headers(&short);
    assert_eq!(headers.unwrap_err(), "header does not start with FMT");
}

#[test]
fn headers_are_read_whatever_follows() {
    let mut bytes = file_bytes(&[5, 6]);
    bytes.push(0x7f);
    let (riff_header, fmt_header, data_header) = WAV::read_headers(&bytes).unwrap();
    assert_eq!(riff_header.file_size, 2084);
    assert_eq!(fmt_header.bits_per_sample, 16);
    assert_eq!(data_header.size, 2048);
    bytes[37] = 0xff;
    assert_eq!(
        WAV::read_headers(&bytes).unwrap_err(),
        std_message(&bytes[36..40])
    );
}

#[test]
fn bad_headers_are_reported_before_an_odd_byte_matters() {
    let mut bytes = file_bytes(&[5, 6]);
    bytes.push(0x7f);
    bytes[0] = b'X';
    assert_eq!(
        WAV::from_bytes(&bytes).unwrap_err(),
        "first four bytes are not RIFF"
    );
}
