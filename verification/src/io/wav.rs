//! The RIFF/WAVE container: three headers of fixed size, then the samples as
//! signed 16-bit little-endian integers.

use crate::endian::{i16_from_le, i16_le_bytes, u16_from_le, u16_le_bytes, u32_from_le, u32_le_bytes};
use crate::endian::{lemma_i16_le_bytes_of_value, lemma_i16_le_round_trip};
use crate::endian::{lemma_u16_le_bytes_of_value, lemma_u16_le_round_trip};
use crate::endian::{lemma_u32_le_bytes_of_value, lemma_u32_le_round_trip};
use crate::endian::{read_i16_le, read_u16_le, read_u32_le};
use crate::endian::{write_i16_le, write_u16_le, write_u32_le};
use crate::text::{same_text, text_of_utf8, utf8_error_text};
use vstd::prelude::*;
use vstd::slice::slice_subrange;
use vstd::utf8::{decode_utf8, encode_utf8, valid_utf8};

verus! {

/// What reading a four-byte tag gives: the tag's text where the bytes are
/// UTF-8 and spell `expected`; else an error, which is std's own message
/// where the bytes are not UTF-8 and `mismatch` where they spell something
/// else.
pub open spec fn read_tag(tag: Seq<u8>, expected: Seq<char>, mismatch: Seq<char>) -> Result<
    Seq<char>,
    Seq<char>,
> {
    if !valid_utf8(tag) {
        Err(utf8_error_text(tag))
    } else if decode_utf8(tag) != expected {
        Err(mismatch)
    } else {
        Ok(expected)
    }
}

/// Reads the four-byte tag that opens a header.
fn expect_tag(tag: &[u8], expected: &str, mismatch: &str) -> (r: Result<String, String>)
    ensures
        match r {
            Ok(text) => read_tag(tag@, expected@, mismatch@) == Ok::<Seq<char>, Seq<char>>(text@),
            Err(message) => read_tag(tag@, expected@, mismatch@) == Err::<Seq<char>, Seq<char>>(
                message@,
            ),
        },
{
    match text_of_utf8(tag) {
        Ok(text) => {
            if same_text(text, expected) {
                Ok(expected.to_owned())
            } else {
                Err(mismatch.to_owned())
            }
        },
        Err(message) => Err(message),
    }
}

/// The first header of the container.
#[derive(Debug)]
pub struct RIFFHeader {
    pub riff: String,
    pub file_size: u32,
    pub four_cc: String,
}

/// A `RIFFHeader` as mathematical values.
pub struct RIFFHeaderView {
    pub riff: Seq<char>,
    pub file_size: u32,
    pub four_cc: Seq<char>,
}

impl RIFFHeaderView {
    /// The bytes that stand for the header in a file.
    pub open spec fn encoded(self) -> Seq<u8> {
        encode_utf8(self.riff) + u32_le_bytes(self.file_size) + encode_utf8(self.four_cc)
    }
}

impl View for RIFFHeader {
    type V = RIFFHeaderView;

    open spec fn view(&self) -> RIFFHeaderView {
        RIFFHeaderView { riff: self.riff@, file_size: self.file_size, four_cc: self.four_cc@ }
    }
}

impl RIFFHeader {
    /// What the twelve bytes of a RIFF header hold: the tag `RIFF`, the
    /// size of the file as a little-endian integer, and four bytes of text
    /// that name the kind of content.
    pub open spec fn parse(bytes: Seq<u8>) -> Result<RIFFHeaderView, Seq<char>> {
        match read_tag(bytes.subrange(0, 4), "RIFF"@, "first four bytes are not RIFF"@) {
            Err(message) => Err(message),
            Ok(riff) => {
                if !valid_utf8(bytes.subrange(8, 12)) {
                    Err(utf8_error_text(bytes.subrange(8, 12)))
                } else {
                    Ok(
                        RIFFHeaderView {
                            riff,
                            file_size: u32_from_le(bytes.subrange(4, 8)),
                            four_cc: decode_utf8(bytes.subrange(8, 12)),
                        },
                    )
                }
            },
        }
    }

    /// Reads a RIFF header from its twelve bytes.
    pub fn new(bytes: &[u8; 12]) -> (r: Result<RIFFHeader, String>)
        ensures
            match r {
                Ok(header) => Self::parse(bytes@) == Ok::<RIFFHeaderView, Seq<char>>(header@),
                Err(message) => Self::parse(bytes@) == Err::<RIFFHeaderView, Seq<char>>(message@),
            },
    {
        let bytes = bytes.as_slice();
        let riff = match expect_tag(
            slice_subrange(bytes, 0, 4),
            "RIFF",
            "first four bytes are not RIFF",
        ) {
            Ok(riff) => riff,
            Err(message) => return Err(message),
        };
        let file_size = read_u32_le(bytes, 4);
        let four_cc = match text_of_utf8(slice_subrange(bytes, 8, 12)) {
            Ok(text) => text.to_owned(),
            Err(message) => return Err(message),
        };
        Ok(RIFFHeader { riff, file_size, four_cc })
    }

    /// Appends the header's bytes to `writer`.
    pub fn write(self, writer: &mut Vec<u8>)
        ensures
            final(writer)@ == old(writer)@ + self@.encoded(),
    {
        writer.extend_from_slice(self.riff.as_str().as_bytes());
        write_u32_le(writer, self.file_size);
        writer.extend_from_slice(self.four_cc.as_str().as_bytes());
    }
}

/// The second header of the container: how the samples are laid out.
#[derive(Debug)]
pub struct FMTHeader {
    pub fmt: String,
    pub header_size: u32,
    pub format: u16,
    pub nchannels: u16,
    pub sample_rate: u32,
    pub byte_rate: u32,
    pub block_align: u16,
    pub bits_per_sample: u16,
}

/// An `FMTHeader` as mathematical values.
pub struct FMTHeaderView {
    pub fmt: Seq<char>,
    pub header_size: u32,
    pub format: u16,
    pub nchannels: u16,
    pub sample_rate: u32,
    pub byte_rate: u32,
    pub block_align: u16,
    pub bits_per_sample: u16,
}

impl FMTHeaderView {
    /// The bytes that stand for the header in a file.
    pub open spec fn encoded(self) -> Seq<u8> {
        encode_utf8(self.fmt) + u32_le_bytes(self.header_size) + u16_le_bytes(self.format)
            + u16_le_bytes(self.nchannels) + u32_le_bytes(self.sample_rate) + u32_le_bytes(
            self.byte_rate,
        ) + u16_le_bytes(self.block_align) + u16_le_bytes(self.bits_per_sample)
    }
}

impl View for FMTHeader {
    type V = FMTHeaderView;

    open spec fn view(&self) -> FMTHeaderView {
        FMTHeaderView {
            fmt: self.fmt@,
            header_size: self.header_size,
            format: self.format,
            nchannels: self.nchannels,
            sample_rate: self.sample_rate,
            byte_rate: self.byte_rate,
            block_align: self.block_align,
            bits_per_sample: self.bits_per_sample,
        }
    }
}

impl FMTHeader {
    /// What the twenty-four bytes of a format header hold: the tag `fmt `,
    /// then seven little-endian integers.
    pub open spec fn parse(bytes: Seq<u8>) -> Result<FMTHeaderView, Seq<char>> {
        match read_tag(bytes.subrange(0, 4), "fmt "@, "header does not start with FMT"@) {
            Err(message) => Err(message),
            Ok(fmt) => Ok(
                FMTHeaderView {
                    fmt,
                    header_size: u32_from_le(bytes.subrange(4, 8)),
                    format: u16_from_le(bytes.subrange(8, 10)),
                    nchannels: u16_from_le(bytes.subrange(10, 12)),
                    sample_rate: u32_from_le(bytes.subrange(12, 16)),
                    byte_rate: u32_from_le(bytes.subrange(16, 20)),
                    block_align: u16_from_le(bytes.subrange(20, 22)),
                    bits_per_sample: u16_from_le(bytes.subrange(22, 24)),
                },
            ),
        }
    }

    /// Reads a format header from its twenty-four bytes.
    pub fn new(bytes: &[u8; 24]) -> (r: Result<FMTHeader, String>)
        ensures
            match r {
                Ok(header) => Self::parse(bytes@) == Ok::<FMTHeaderView, Seq<char>>(header@),
                Err(message) => Self::parse(bytes@) == Err::<FMTHeaderView, Seq<char>>(message@),
            },
    {
        let bytes = bytes.as_slice();
        let fmt = match expect_tag(
            slice_subrange(bytes, 0, 4),
            "fmt ",
            "header does not start with FMT",
        ) {
            Ok(fmt) => fmt,
            Err(message) => return Err(message),
        };
        let header_size = read_u32_le(bytes, 4);
        let format = read_u16_le(bytes, 8);
        let nchannels = read_u16_le(bytes, 10);
        let sample_rate = read_u32_le(bytes, 12);
        let byte_rate = read_u32_le(bytes, 16);
        let block_align = read_u16_le(bytes, 20);
        let bits_per_sample = read_u16_le(bytes, 22);
        Ok(
            FMTHeader {
                fmt,
                header_size,
                format,
                nchannels,
                sample_rate,
                byte_rate,
                block_align,
                bits_per_sample,
            },
        )
    }

    /// Appends the header's bytes to `writer`.
    pub fn write(self, writer: &mut Vec<u8>)
        ensures
            final(writer)@ == old(writer)@ + self@.encoded(),
    {
        writer.extend_from_slice(self.fmt.as_str().as_bytes());
        write_u32_le(writer, self.header_size);
        write_u16_le(writer, self.format);
        write_u16_le(writer, self.nchannels);
        write_u32_le(writer, self.sample_rate);
        write_u32_le(writer, self.byte_rate);
        write_u16_le(writer, self.block_align);
        write_u16_le(writer, self.bits_per_sample);
    }
}

/// The third header of the container: it opens the samples.
#[derive(Debug)]
pub struct DataHeader {
    pub data: String,
    pub size: u32,
}

/// A `DataHeader` as mathematical values.
pub struct DataHeaderView {
    pub data: Seq<char>,
    pub size: u32,
}

impl DataHeaderView {
    /// The bytes that stand for the header in a file.
    pub open spec fn encoded(self) -> Seq<u8> {
        encode_utf8(self.data) + u32_le_bytes(self.size)
    }
}

impl View for DataHeader {
    type V = DataHeaderView;

    open spec fn view(&self) -> DataHeaderView {
        DataHeaderView { data: self.data@, size: self.size }
    }
}

impl DataHeader {
    /// What the eight bytes of a data header hold: the tag `data`, then the
    /// size of the samples as a little-endian integer.
    pub open spec fn parse(bytes: Seq<u8>) -> Result<DataHeaderView, Seq<char>> {
        match read_tag(bytes.subrange(0, 4), "data"@, "header does not start with data"@) {
            Err(message) => Err(message),
            Ok(data) => Ok(DataHeaderView { data, size: u32_from_le(bytes.subrange(4, 8)) }),
        }
    }

    /// Reads a data header from its eight bytes.
    pub fn new(bytes: &[u8; 8]) -> (r: Result<DataHeader, String>)
        ensures
            match r {
                Ok(header) => Self::parse(bytes@) == Ok::<DataHeaderView, Seq<char>>(header@),
                Err(message) => Self::parse(bytes@) == Err::<DataHeaderView, Seq<char>>(message@),
            },
    {
        let bytes = bytes.as_slice();
        let data = match expect_tag(
            slice_subrange(bytes, 0, 4),
            "data",
            "header does not start with data",
        ) {
            Ok(data) => data,
            Err(message) => return Err(message),
        };
        let size = read_u32_le(bytes, 4);
        Ok(DataHeader { data, size })
    }

    /// Appends the header's bytes to `writer`.
    pub fn write(self, writer: &mut Vec<u8>)
        ensures
            final(writer)@ == old(writer)@ + self@.encoded(),
    {
        writer.extend_from_slice(self.data.as_str().as_bytes());
        write_u32_le(writer, self.size);
    }
}

/// The samples that a run of bytes holds: each pair of bytes is one signed
/// 16-bit integer, least significant byte first.
pub open spec fn samples_of(bytes: Seq<u8>) -> Seq<i16> {
    Seq::new((bytes.len() / 2) as nat, |i: int| i16_from_le(bytes.subrange(2 * i, 2 * i + 2)))
}

/// The bytes that hold a run of samples, two for each.
pub open spec fn bytes_of(samples: Seq<i16>) -> Seq<u8> {
    Seq::new(2 * samples.len(), |j: int| i16_le_bytes(samples[j / 2])[j % 2])
}

/// Reads the samples out of their bytes.
pub fn decode_samples(bytes: &[u8]) -> (samples: Vec<i16>)
    requires
        bytes.len() % 2 == 0,
    ensures
        samples@ == samples_of(bytes@),
{
    let count = bytes.len() / 2;
    let mut samples: Vec<i16> = Vec::new();
    let mut done: usize = 0;
    while done < count
        invariant
            count == bytes.len() / 2,
            done <= count,
            samples@.len() == done,
            forall|i: int| 0 <= i < done ==> samples@[i] == samples_of(bytes@)[i],
        decreases count - done,
    {
        let sample = read_i16_le(bytes, 2 * done);
        samples.push(sample);
        done += 1;
    }
    assert(samples@ =~= samples_of(bytes@));
    samples
}

/// Appends the bytes of a run of samples to `writer`.
pub fn encode_samples(samples: &[i16], writer: &mut Vec<u8>)
    ensures
        final(writer)@ == old(writer)@ + bytes_of(samples@),
{
    let mut done: usize = 0;
    while done < samples.len()
        invariant
            done <= samples.len(),
            writer@ == old(writer)@ + bytes_of(samples@.subrange(0, done as int)),
        decreases samples.len() - done,
    {
        write_i16_le(writer, samples[done]);
        proof {
            let before = samples@.subrange(0, done as int);
            let after = samples@.subrange(0, done + 1);
            assert(bytes_of(after) =~= bytes_of(before) + i16_le_bytes(samples@[done as int]));
        }
        done += 1;
    }
    assert(samples@.subrange(0, done as int) =~= samples@);
}

/// The `len` bytes that a reader takes at `start` into a buffer of zeros:
/// where the input ends early the zeros stay.
pub open spec fn chunk(bytes: Seq<u8>, start: int, len: nat) -> Seq<u8> {
    Seq::new(
        len,
        |i: int|
            if start + i < bytes.len() {
                bytes[start + i]
            } else {
                0u8
            },
    )
}

/// What follows the three headers.
pub open spec fn payload(bytes: Seq<u8>) -> Seq<u8> {
    if bytes.len() > 44 {
        bytes.skip(44)
    } else {
        Seq::empty()
    }
}

/// Copies the `N` bytes at `start` into a buffer of zeros.
fn take_chunk<const N: usize>(bytes: &[u8], start: usize) -> (out: [u8; N])
    requires
        start + N <= usize::MAX,
    ensures
        out@ == chunk(bytes@, start as int, N as nat),
{
    let mut out: [u8; N] = [0u8; N];
    let mut at: usize = 0;
    while at < N
        invariant
            start + N <= usize::MAX,
            at <= N,
            out@.len() == N,
            forall|i: int| 0 <= i < at ==> out@[i] == chunk(bytes@, start as int, N as nat)[i],
            forall|i: int| at <= i < N ==> out@[i] == 0u8,
        decreases N - at,
    {
        if start + at < bytes.len() {
            out[at] = bytes[start + at];
        }
        at += 1;
    }
    assert(out@ =~= chunk(bytes@, start as int, N as nat));
    out
}

/// A whole container: its three headers and its samples.
#[derive(Debug)]
pub struct WAV {
    pub riff_header: RIFFHeader,
    pub fmt_header: FMTHeader,
    pub data_header: DataHeader,
    pub signal: Vec<i16>,
}

/// A `WAV` as mathematical values.
pub struct WAVView {
    pub riff_header: RIFFHeaderView,
    pub fmt_header: FMTHeaderView,
    pub data_header: DataHeaderView,
    pub signal: Seq<i16>,
}

impl WAVView {
    /// The bytes that stand for the container in a file.
    pub open spec fn encoded(self) -> Seq<u8> {
        self.riff_header.encoded() + self.fmt_header.encoded() + self.data_header.encoded()
            + bytes_of(self.signal)
    }
}

impl View for WAV {
    type V = WAVView;

    open spec fn view(&self) -> WAVView {
        WAVView {
            riff_header: self.riff_header@,
            fmt_header: self.fmt_header@,
            data_header: self.data_header@,
            signal: self.signal@,
        }
    }
}

impl WAV {
    /// What the first forty-four bytes of a file hold. The three headers
    /// are read in turn, each from a buffer of zeros that the file fills as
    /// far as it reaches, and the first that is refused gives the error.
    pub open spec fn parse_headers(bytes: Seq<u8>) -> Result<
        (RIFFHeaderView, FMTHeaderView, DataHeaderView),
        Seq<char>,
    > {
        match RIFFHeader::parse(chunk(bytes, 0, 12)) {
            Err(message) => Err(message),
            Ok(riff_header) => match FMTHeader::parse(chunk(bytes, 12, 24)) {
                Err(message) => Err(message),
                Ok(fmt_header) => match DataHeader::parse(chunk(bytes, 36, 8)) {
                    Err(message) => Err(message),
                    Ok(data_header) => Ok((riff_header, fmt_header, data_header)),
                },
            },
        }
    }

    /// What the bytes of a file hold: the three headers, and after them
    /// nothing but samples.
    pub open spec fn parse(bytes: Seq<u8>) -> Result<WAVView, Seq<char>> {
        match Self::parse_headers(bytes) {
            Err(message) => Err(message),
            Ok(headers) => Ok(
                WAVView {
                    riff_header: headers.0,
                    fmt_header: headers.1,
                    data_header: headers.2,
                    signal: samples_of(payload(bytes)),
                },
            ),
        }
    }

    /// Reads the three headers from the bytes of a file.
    pub fn read_headers(bytes: &[u8]) -> (r: Result<(RIFFHeader, FMTHeader, DataHeader), String>)
        ensures
            match r {
                Ok(headers) => Self::parse_headers(bytes@) == Ok::<
                    (RIFFHeaderView, FMTHeaderView, DataHeaderView),
                    Seq<char>,
                >((headers.0@, headers.1@, headers.2@)),
                Err(message) => Self::parse_headers(bytes@) == Err::<
                    (RIFFHeaderView, FMTHeaderView, DataHeaderView),
                    Seq<char>,
                >(message@),
            },
    {
        let riff_bytes: [u8; 12] = take_chunk(bytes, 0);
        let riff_header = match RIFFHeader::new(&riff_bytes) {
            Ok(header) => header,
            Err(message) => return Err(message),
        };
        let fmt_bytes: [u8; 24] = take_chunk(bytes, 12);
        let fmt_header = match FMTHeader::new(&fmt_bytes) {
            Ok(header) => header,
            Err(message) => return Err(message),
        };
        let data_bytes: [u8; 8] = take_chunk(bytes, 36);
        let data_header = match DataHeader::new(&data_bytes) {
            Ok(header) => header,
            Err(message) => return Err(message),
        };
        Ok((riff_header, fmt_header, data_header))
    }

    /// Reads a container from the bytes of a file. After headers that are
    /// accepted the samples must be whole: an odd byte at the end has no
    /// meaning.
    pub fn from_bytes(bytes: &[u8]) -> (r: Result<WAV, String>)
        requires
            Self::parse_headers(bytes@) is Ok ==> payload(bytes@).len() % 2 == 0,
        ensures
            match r {
                Ok(wav) => Self::parse(bytes@) == Ok::<WAVView, Seq<char>>(wav@),
                Err(message) => Self::parse(bytes@) == Err::<WAVView, Seq<char>>(message@),
            },
    {
        let (riff_header, fmt_header, data_header) = match Self::read_headers(bytes) {
            Ok(headers) => headers,
            Err(message) => return Err(message),
        };
        let signal = if bytes.len() > 44 {
            decode_samples(slice_subrange(bytes, 44, bytes.len()))
        } else {
            Vec::new()
        };
        assert(signal@ =~= samples_of(payload(bytes@)));
        Ok(WAV { riff_header, fmt_header, data_header, signal })
    }

    /// Appends the container's bytes to `writer`: the three headers, then
    /// the samples.
    pub fn write(self, writer: &mut Vec<u8>)
        ensures
            final(writer)@ == old(writer)@ + self@.encoded(),
    {
        self.riff_header.write(writer);
        self.fmt_header.write(writer);
        self.data_header.write(writer);
        encode_samples(self.signal.as_slice(), writer);
        assert(writer@ =~= old(writer)@ + self@.encoded());
    }
}

/// A tag is accepted exactly when its bytes are the UTF-8 encoding of the
/// text that is expected.
pub proof fn lemma_tag_accepted(tag: Seq<u8>, expected: Seq<char>, mismatch: Seq<char>)
    ensures
        read_tag(tag, expected, mismatch) is Ok <==> tag == encode_utf8(expected),
        read_tag(tag, expected, mismatch) is Ok ==> read_tag(tag, expected, mismatch) == Ok::<
            Seq<char>,
            Seq<char>,
        >(expected),
{
    vstd::utf8::encode_utf8_valid_utf8(expected);
    vstd::utf8::encode_utf8_decode_utf8(expected);
    if valid_utf8(tag) {
        vstd::utf8::decode_utf8_encode_utf8(tag);
    }
}

/// The bytes of the three tags: `RIFF`, `fmt ` and `data` in ASCII.
pub proof fn lemma_tag_bytes()
    ensures
        encode_utf8("RIFF"@) == seq![0x52u8, 0x49u8, 0x46u8, 0x46u8],
        encode_utf8("fmt "@) == seq![0x66u8, 0x6du8, 0x74u8, 0x20u8],
        encode_utf8("data"@) == seq![0x64u8, 0x61u8, 0x74u8, 0x61u8],
{
    reveal_strlit("RIFF");
    reveal_strlit("fmt ");
    reveal_strlit("data");
    vstd::utf8::is_ascii_chars_encode_utf8("RIFF"@);
    vstd::utf8::is_ascii_chars_encode_utf8("fmt "@);
    vstd::utf8::is_ascii_chars_encode_utf8("data"@);
    assert(encode_utf8("RIFF"@) =~= seq![0x52u8, 0x49u8, 0x46u8, 0x46u8]);
    assert(encode_utf8("fmt "@) =~= seq![0x66u8, 0x6du8, 0x74u8, 0x20u8]);
    assert(encode_utf8("data"@) =~= seq![0x64u8, 0x61u8, 0x74u8, 0x61u8]);
}

/// A file that holds the three headers in full is its three header chunks
/// and its payload, one after the other.
pub proof fn lemma_chunks_make_file(bytes: Seq<u8>)
    requires
        bytes.len() >= 44,
    ensures
        chunk(bytes, 0, 12) + chunk(bytes, 12, 24) + chunk(bytes, 36, 8) + payload(bytes) == bytes,
{
    assert(chunk(bytes, 0, 12) + chunk(bytes, 12, 24) + chunk(bytes, 36, 8) + payload(bytes)
        =~= bytes);
}

/// Reading samples from the bytes written for them gives the samples back.
pub proof fn lemma_samples_round_trip(samples: Seq<i16>)
    ensures
        bytes_of(samples).len() == 2 * samples.len(),
        samples_of(bytes_of(samples)) == samples,
{
    let bytes = bytes_of(samples);
    assert forall|i: int| 0 <= i < samples.len() implies samples_of(bytes)[i] == samples[i] by {
        lemma_i16_le_round_trip(samples[i]);
        assert(bytes.subrange(2 * i, 2 * i + 2) =~= i16_le_bytes(samples[i]));
    }
    assert(samples_of(bytes) =~= samples);
}

/// Writing the samples read from an even number of bytes gives the bytes
/// back.
pub proof fn lemma_sample_bytes_round_trip(bytes: Seq<u8>)
    requires
        bytes.len() % 2 == 0,
    ensures
        bytes_of(samples_of(bytes)) == bytes,
{
    let samples = samples_of(bytes);
    assert forall|j: int| 0 <= j < bytes.len() implies bytes_of(samples)[j] == bytes[j] by {
        let pair = bytes.subrange(2 * (j / 2), 2 * (j / 2) + 2);
        lemma_i16_le_bytes_of_value(pair);
        assert(pair[j % 2] == bytes[j]);
    }
    assert(bytes_of(samples) =~= bytes);
}

impl RIFFHeader {
    /// A RIFF header that was read from twelve bytes is written as those
    /// twelve bytes.
    pub proof fn lemma_read_then_written(bytes: Seq<u8>)
        requires
            bytes.len() == 12,
            Self::parse(bytes) is Ok,
        ensures
            Self::parse(bytes)->Ok_0.encoded() == bytes,
    {
        lemma_tag_accepted(bytes.subrange(0, 4), "RIFF"@, "first four bytes are not RIFF"@);
        lemma_u32_le_bytes_of_value(bytes.subrange(4, 8));
        vstd::utf8::decode_utf8_encode_utf8(bytes.subrange(8, 12));
        assert(Self::parse(bytes)->Ok_0.encoded() =~= bytes);
    }

    /// A RIFF header whose tag is `RIFF` and whose content name takes four
    /// bytes is read back from the bytes written for it.
    pub proof fn lemma_written_then_read(header: RIFFHeaderView)
        requires
            header.riff == "RIFF"@,
            encode_utf8(header.four_cc).len() == 4,
        ensures
            header.encoded().len() == 12,
            Self::parse(header.encoded()) == Ok::<RIFFHeaderView, Seq<char>>(header),
    {
        let bytes = header.encoded();
        lemma_tag_bytes();
        lemma_tag_accepted(encode_utf8("RIFF"@), "RIFF"@, "first four bytes are not RIFF"@);
        lemma_u32_le_round_trip(header.file_size);
        vstd::utf8::encode_utf8_valid_utf8(header.four_cc);
        vstd::utf8::encode_utf8_decode_utf8(header.four_cc);
        assert(bytes.subrange(0, 4) =~= encode_utf8("RIFF"@));
        assert(bytes.subrange(4, 8) =~= u32_le_bytes(header.file_size));
        assert(bytes.subrange(8, 12) =~= encode_utf8(header.four_cc));
    }
}

impl FMTHeader {
    /// A format header that was read from twenty-four bytes is written as
    /// those twenty-four bytes.
    pub proof fn lemma_read_then_written(bytes: Seq<u8>)
        requires
            bytes.len() == 24,
            Self::parse(bytes) is Ok,
        ensures
            Self::parse(bytes)->Ok_0.encoded() == bytes,
    {
        lemma_tag_accepted(bytes.subrange(0, 4), "fmt "@, "header does not start with FMT"@);
        lemma_u32_le_bytes_of_value(bytes.subrange(4, 8));
        lemma_u16_le_bytes_of_value(bytes.subrange(8, 10));
        lemma_u16_le_bytes_of_value(bytes.subrange(10, 12));
        lemma_u32_le_bytes_of_value(bytes.subrange(12, 16));
        lemma_u32_le_bytes_of_value(bytes.subrange(16, 20));
        lemma_u16_le_bytes_of_value(bytes.subrange(20, 22));
        lemma_u16_le_bytes_of_value(bytes.subrange(22, 24));
        assert(Self::parse(bytes)->Ok_0.encoded() =~= bytes);
    }

    /// A format header whose tag is `fmt ` is read back from the bytes
    /// written for it.
    pub proof fn lemma_written_then_read(header: FMTHeaderView)
        requires
            header.fmt == "fmt "@,
        ensures
            header.encoded().len() == 24,
            Self::parse(header.encoded()) == Ok::<FMTHeaderView, Seq<char>>(header),
    {
        let bytes = header.encoded();
        lemma_tag_bytes();
        lemma_tag_accepted(encode_utf8("fmt "@), "fmt "@, "header does not start with FMT"@);
        lemma_u32_le_round_trip(header.header_size);
        lemma_u16_le_round_trip(header.format);
        lemma_u16_le_round_trip(header.nchannels);
        lemma_u32_le_round_trip(header.sample_rate);
        lemma_u32_le_round_trip(header.byte_rate);
        lemma_u16_le_round_trip(header.block_align);
        lemma_u16_le_round_trip(header.bits_per_sample);
        assert(bytes.subrange(0, 4) =~= encode_utf8("fmt "@));
        assert(bytes.subrange(4, 8) =~= u32_le_bytes(header.header_size));
        assert(bytes.subrange(8, 10) =~= u16_le_bytes(header.format));
        assert(bytes.subrange(10, 12) =~= u16_le_bytes(header.nchannels));
        assert(bytes.subrange(12, 16) =~= u32_le_bytes(header.sample_rate));
        assert(bytes.subrange(16, 20) =~= u32_le_bytes(header.byte_rate));
        assert(bytes.subrange(20, 22) =~= u16_le_bytes(header.block_align));
        assert(bytes.subrange(22, 24) =~= u16_le_bytes(header.bits_per_sample));
    }
}

impl DataHeader {
    /// A data header that was read from eight bytes is written as those
    /// eight bytes.
    pub proof fn lemma_read_then_written(bytes: Seq<u8>)
        requires
            bytes.len() == 8,
            Self::parse(bytes) is Ok,
        ensures
            Self::parse(bytes)->Ok_0.encoded() == bytes,
    {
        lemma_tag_accepted(bytes.subrange(0, 4), "data"@, "header does not start with data"@);
        lemma_u32_le_bytes_of_value(bytes.subrange(4, 8));
        assert(Self::parse(bytes)->Ok_0.encoded() =~= bytes);
    }

    /// A data header whose tag is `data` is read back from the bytes
    /// written for it.
    pub proof fn lemma_written_then_read(header: DataHeaderView)
        requires
            header.data == "data"@,
        ensures
            header.encoded().len() == 8,
            Self::parse(header.encoded()) == Ok::<DataHeaderView, Seq<char>>(header),
    {
        let bytes = header.encoded();
        lemma_tag_bytes();
        lemma_tag_accepted(encode_utf8("data"@), "data"@, "header does not start with data"@);
        lemma_u32_le_round_trip(header.size);
        assert(bytes.subrange(0, 4) =~= encode_utf8("data"@));
        assert(bytes.subrange(4, 8) =~= u32_le_bytes(header.size));
    }
}

impl WAV {
    /// Reading a file and writing what was read gives the file back, byte
    /// for byte: for every file that holds the three headers in full and
    /// whole samples, and whose headers are accepted.
    pub proof fn lemma_read_then_written(bytes: Seq<u8>)
        requires
            bytes.len() >= 44,
            bytes.len() % 2 == 0,
            Self::parse(bytes) is Ok,
        ensures
            Self::parse(bytes)->Ok_0.encoded() == bytes,
    {
        let wav = Self::parse(bytes)->Ok_0;
        let riff_bytes = chunk(bytes, 0, 12);
        let fmt_bytes = chunk(bytes, 12, 24);
        let data_bytes = chunk(bytes, 36, 8);
        assert(wav.riff_header.encoded() == riff_bytes) by {
            RIFFHeader::lemma_read_then_written(riff_bytes);
        }
        assert(wav.fmt_header.encoded() == fmt_bytes) by {
            FMTHeader::lemma_read_then_written(fmt_bytes);
        }
        assert(wav.data_header.encoded() == data_bytes) by {
            DataHeader::lemma_read_then_written(data_bytes);
        }
        assert(bytes_of(wav.signal) == payload(bytes)) by {
            lemma_sample_bytes_round_trip(payload(bytes));
        }
        lemma_chunks_make_file(bytes);
    }

    /// Writing a container and reading what was written gives the
    /// container back: for every container whose headers carry their tags
    /// and whose content name takes four bytes.
    pub proof fn lemma_written_then_read(wav: WAVView)
        requires
            wav.riff_header.riff == "RIFF"@,
            encode_utf8(wav.riff_header.four_cc).len() == 4,
            wav.fmt_header.fmt == "fmt "@,
            wav.data_header.data == "data"@,
        ensures
            wav.encoded().len() == 44 + 2 * wav.signal.len(),
            Self::parse(wav.encoded()) == Ok::<WAVView, Seq<char>>(wav),
    {
        let bytes = wav.encoded();
        RIFFHeader::lemma_written_then_read(wav.riff_header);
        FMTHeader::lemma_written_then_read(wav.fmt_header);
        DataHeader::lemma_written_then_read(wav.data_header);
        lemma_samples_round_trip(wav.signal);
        assert(chunk(bytes, 0, 12) =~= wav.riff_header.encoded());
        assert(chunk(bytes, 12, 24) =~= wav.fmt_header.encoded());
        assert(chunk(bytes, 36, 8) =~= wav.data_header.encoded());
        assert(payload(bytes) =~= bytes_of(wav.signal));
    }
}

} // verus!
