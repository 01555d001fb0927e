//! The FSB5 soundbank model: headers, tracks and their per-sample
//! metadata, as far as the extraction tooling reads them.
use vstd::prelude::*;

verus! {

/// The encoding of a soundbank track.
#[derive(Clone, Copy, Debug, PartialEq, Eq, Structural)]
pub enum SoundFormat {
    NoFormat,
    PCM8,
    PCM16,
    PCM24,
    PCM32,
    PCMFLOAT,
    GCADPCM,
    IMAADPCM,
    VAG,
    HEVAG,
    XMA,
    MPEG,
    CELT,
    AT9,
    XWMA,
    VORBIS,
    Unknown,
}

impl SoundFormat {
    /// The format a header's mode code names.
    pub fn from_code(num: u32) -> (r: SoundFormat)
        ensures
            num == 0 ==> r == SoundFormat::NoFormat,
            num == 1 ==> r == SoundFormat::PCM8,
            num == 2 ==> r == SoundFormat::PCM16,
            num == 3 ==> r == SoundFormat::PCM24,
            num == 4 ==> r == SoundFormat::PCM32,
            num == 5 ==> r == SoundFormat::PCMFLOAT,
            num == 6 ==> r == SoundFormat::GCADPCM,
            num == 7 ==> r == SoundFormat::IMAADPCM,
            num == 8 ==> r == SoundFormat::VAG,
            num == 9 ==> r == SoundFormat::HEVAG,
            num == 10 ==> r == SoundFormat::XMA,
            num == 11 ==> r == SoundFormat::MPEG,
            num == 12 ==> r == SoundFormat::CELT,
            num == 13 ==> r == SoundFormat::AT9,
            num == 14 ==> r == SoundFormat::XWMA,
            num == 15 ==> r == SoundFormat::VORBIS,
            num > 15 ==> r == SoundFormat::Unknown,
    {
        match num {
            0 => SoundFormat::NoFormat,
            1 => SoundFormat::PCM8,
            2 => SoundFormat::PCM16,
            3 => SoundFormat::PCM24,
            4 => SoundFormat::PCM32,
            5 => SoundFormat::PCMFLOAT,
            6 => SoundFormat::GCADPCM,
            7 => SoundFormat::IMAADPCM,
            8 => SoundFormat::VAG,
            9 => SoundFormat::HEVAG,
            10 => SoundFormat::XMA,
            11 => SoundFormat::MPEG,
            12 => SoundFormat::CELT,
            13 => SoundFormat::AT9,
            14 => SoundFormat::XWMA,
            15 => SoundFormat::VORBIS,
            _ => SoundFormat::Unknown,
        }
    }

    /// The extension a rebuilt track of this format is written under:
    /// Vorbis tracks become Ogg files, the byte-aligned PCM widths
    /// become WAV files, everything else stays raw.
    pub fn file_extension(&self) -> (r: String)
        ensures
            *self == SoundFormat::VORBIS ==> r@ == "ogg"@,
            (*self == SoundFormat::PCM8 || *self == SoundFormat::PCM16 || *self
                == SoundFormat::PCM32) ==> r@ == "wav"@,
            !(*self == SoundFormat::VORBIS || *self == SoundFormat::PCM8 || *self
                == SoundFormat::PCM16 || *self == SoundFormat::PCM32) ==> r@ == "bin"@,
    {
        match self {
            SoundFormat::VORBIS => String::from_str("ogg"),
            SoundFormat::PCM8 | SoundFormat::PCM16 | SoundFormat::PCM32 => String::from_str("wav"),
            _ => String::from_str("bin"),
        }
    }
}

/// The fixed-size header that opens an FSB5 soundbank.
pub struct Fsb5Header {
    pub id: String,
    pub version: u32,
    pub num_tracks: u32,
    pub track_header_size: u32,
    pub name_table_size: u32,
    pub data_size: u32,
    pub mode: SoundFormat,
    pub unknown_buf: Vec<u8>,
    pub size: u64,
}

/// The type tag of one per-sample metadata chunk.
#[derive(Clone, Copy, Debug, PartialEq, Eq, Structural)]
pub enum SampleMetadataType {
    Channels,
    Frequency,
    Loop,
    XmsSeek,
    DspCoeff,
    XwmaData,
    VorbisData,
    Unknown(u8),
}

impl SampleMetadataType {
    /// The tag a chunk code names.
    pub fn from_code(num: u8) -> (r: SampleMetadataType)
        ensures
            num == 1 ==> r == SampleMetadataType::Channels,
            num == 2 ==> r == SampleMetadataType::Frequency,
            num == 3 ==> r == SampleMetadataType::Loop,
            num == 6 ==> r == SampleMetadataType::XmsSeek,
            num == 7 ==> r == SampleMetadataType::DspCoeff,
            num == 10 ==> r == SampleMetadataType::XwmaData,
            num == 11 ==> r == SampleMetadataType::VorbisData,
            !(num == 1 || num == 2 || num == 3 || num == 6 || num == 7 || num == 10 || num == 11)
                ==> r == SampleMetadataType::Unknown(num),
    {
        match num {
            1 => SampleMetadataType::Channels,
            2 => SampleMetadataType::Frequency,
            3 => SampleMetadataType::Loop,
            6 => SampleMetadataType::XmsSeek,
            7 => SampleMetadataType::DspCoeff,
            10 => SampleMetadataType::XwmaData,
            11 => SampleMetadataType::VorbisData,
            _ => SampleMetadataType::Unknown(num),
        }
    }
}

/// The payload of one per-sample metadata chunk.
pub enum SampleMetadataValue {
    VorbisData { crc32: u32, unknown: Vec<u8> },
    Channels(u8),
    Frequency(u32),
    Loop(u32, u32),
    Unknown(Vec<u8>),
}

/// One track of a soundbank.
pub struct Track {
    pub name: String,
    pub frequency: u32,
    pub channels: u8,
    pub data_offset: u32,
    pub samples: u32,
    pub metadata: Vec<(SampleMetadataType, SampleMetadataValue)>,
    pub data: Vec<u8>,
}

impl Track {
    /// The sample frequency a packed header index denotes; unknown
    /// indices map onto zero and are rejected by the reader.
    pub fn get_frequency_from_idx(idx: u8) -> (r: u32)
        ensures
            idx == 1 ==> r == 8000,
            idx == 2 ==> r == 11000,
            idx == 3 ==> r == 11025,
            idx == 4 ==> r == 16000,
            idx == 5 ==> r == 22050,
            idx == 6 ==> r == 24000,
            idx == 7 ==> r == 32000,
            idx == 8 ==> r == 44100,
            idx == 9 ==> r == 48000,
            (idx == 0 || idx > 9) ==> r == 0,
    {
        match idx {
            1 => 8000,
            2 => 11000,
            3 => 11025,
            4 => 16000,
            5 => 22050,
            6 => 24000,
            7 => 32000,
            8 => 44100,
            9 => 48000,
            _ => 0,
        }
    }
}

/// A parsed soundbank: the header and its tracks.
pub struct Fsb5 {
    pub header: Fsb5Header,
    pub tracks: Vec<Track>,
}

} // verus!
