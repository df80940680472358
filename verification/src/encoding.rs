//! Decoding of text in a declared legacy encoding, accepting only lossless decodes.

use vstd::prelude::*;
use vstd::string::StringExecFns;
use crate::text::str_eq;

verus! {

/// Why bytes could not be decoded.
#[derive(Debug, Clone, PartialEq, Eq)]
pub enum DecodingError {
    /// The encoding name matches nothing in the table; holds the name as given.
    UnsupportedEncoding(String),
    /// The bytes do not decode without loss; holds the name of the encoding.
    DecodingFailed(String),
}

/// The decoders that the table of encoding names leads to.
#[allow(non_camel_case_types)]
#[derive(Debug, Clone, Copy, PartialEq, Eq, Structural)]
pub enum TextEncoding {
    /// Big5.
    Big5,
    /// EUC-JP.
    EucJp,
    /// GB18030.
    Gb18030,
    /// Windows-1252, also taken for what is labelled ISO-8859-1.
    Windows1252,
    /// ISO-8859-2.
    Iso8859_2,
    /// ISO-8859-3.
    Iso8859_3,
    /// ISO-8859-4.
    Iso8859_4,
    /// ISO-8859-5.
    Iso8859_5,
    /// ISO-8859-6.
    Iso8859_6,
    /// ISO-8859-7.
    Iso8859_7,
    /// ISO-8859-8.
    Iso8859_8,
    /// ISO-8859-10.
    Iso8859_10,
    /// ISO-8859-13.
    Iso8859_13,
    /// ISO-8859-14.
    Iso8859_14,
    /// ISO-8859-15.
    Iso8859_15,
    /// ISO-8859-16.
    Iso8859_16,
    /// KOI8-R.
    Koi8R,
    /// KOI8-U.
    Koi8U,
    /// Mac OS Roman.
    Macintosh,
    /// Mac OS Cyrillic.
    MacCyrillic,
    /// Shift-JIS.
    ShiftJis,
    /// EUC-KR, also known as UHC.
    EucKr,
    /// UTF-16, big-endian.
    Utf16Be,
    /// Windows-874.
    Windows874,
    /// Windows-1250.
    Windows1250,
    /// Windows-1251.
    Windows1251,
    /// Windows-1253.
    Windows1253,
    /// Windows-1254.
    Windows1254,
    /// Windows-1255.
    Windows1255,
    /// Windows-1256.
    Windows1256,
    /// Windows-1257.
    Windows1257,
    /// Windows-1258.
    Windows1258,
    /// UTF-8.
    Utf8,
    /// DOS code page 852, decoded by table lookup.
    Ibm852,
    /// DOS code page 855, decoded by table lookup.
    Ibm855,
    /// DOS code page 866, decoded by table lookup.
    Ibm866,
}

/// Longest input, in bytes, that is handed to a decoder: the decoders size their
/// output buffer at up to three bytes for each input byte.
pub const MAX_DECODE_LEN: usize = usize::MAX / 8;

impl TextEncoding {
    /// The code page number, for the encodings that are decoded by table lookup.
    pub open spec fn spec_code_page(self) -> Option<u16> {
        match self {
            TextEncoding::Ibm852 => Some(852u16),
            TextEncoding::Ibm855 => Some(855u16),
            TextEncoding::Ibm866 => Some(866u16),
            _ => None,
        }
    }

    /// The label under which the transcoding library knows the encoding. The
    /// table-decoded code pages have none and give the empty label.
    pub open spec fn spec_label(self) -> Seq<char> {
        match self {
            TextEncoding::Big5 => "Big5"@,
            TextEncoding::EucJp => "EUC-JP"@,
            TextEncoding::Gb18030 => "gb18030"@,
            TextEncoding::Windows1252 => "windows-1252"@,
            TextEncoding::Iso8859_2 => "ISO-8859-2"@,
            TextEncoding::Iso8859_3 => "ISO-8859-3"@,
            TextEncoding::Iso8859_4 => "ISO-8859-4"@,
            TextEncoding::Iso8859_5 => "ISO-8859-5"@,
            TextEncoding::Iso8859_6 => "ISO-8859-6"@,
            TextEncoding::Iso8859_7 => "ISO-8859-7"@,
            TextEncoding::Iso8859_8 => "ISO-8859-8"@,
            TextEncoding::Iso8859_10 => "ISO-8859-10"@,
            TextEncoding::Iso8859_13 => "ISO-8859-13"@,
            TextEncoding::Iso8859_14 => "ISO-8859-14"@,
            TextEncoding::Iso8859_15 => "ISO-8859-15"@,
            TextEncoding::Iso8859_16 => "ISO-8859-16"@,
            TextEncoding::Koi8R => "KOI8-R"@,
            TextEncoding::Koi8U => "KOI8-U"@,
            TextEncoding::Macintosh => "macintosh"@,
            TextEncoding::MacCyrillic => "x-mac-cyrillic"@,
            TextEncoding::ShiftJis => "Shift_JIS"@,
            TextEncoding::EucKr => "EUC-KR"@,
            TextEncoding::Utf16Be => "UTF-16BE"@,
            TextEncoding::Windows874 => "windows-874"@,
            TextEncoding::Windows1250 => "windows-1250"@,
            TextEncoding::Windows1251 => "windows-1251"@,
            TextEncoding::Windows1253 => "windows-1253"@,
            TextEncoding::Windows1254 => "windows-1254"@,
            TextEncoding::Windows1255 => "windows-1255"@,
            TextEncoding::Windows1256 => "windows-1256"@,
            TextEncoding::Windows1257 => "windows-1257"@,
            TextEncoding::Windows1258 => "windows-1258"@,
            TextEncoding::Utf8 => "UTF-8"@,
            _ => Seq::empty(),
        }
    }

    /// The code page number, for the encodings that are decoded by table lookup.
    pub fn code_page(&self) -> (page: Option<u16>)
        ensures
            page == self.spec_code_page(),
    {
        match self {
            TextEncoding::Ibm852 => Some(852),
            TextEncoding::Ibm855 => Some(855),
            TextEncoding::Ibm866 => Some(866),
            _ => None,
        }
    }

    /// The label under which the transcoding library knows the encoding.
    pub fn label(&self) -> (label: &'static str)
        ensures
            label@ == self.spec_label(),
    {
        match self {
            TextEncoding::Big5 => "Big5",
            TextEncoding::EucJp => "EUC-JP",
            TextEncoding::Gb18030 => "gb18030",
            TextEncoding::Windows1252 => "windows-1252",
            TextEncoding::Iso8859_2 => "ISO-8859-2",
            TextEncoding::Iso8859_3 => "ISO-8859-3",
            TextEncoding::Iso8859_4 => "ISO-8859-4",
            TextEncoding::Iso8859_5 => "ISO-8859-5",
            TextEncoding::Iso8859_6 => "ISO-8859-6",
            TextEncoding::Iso8859_7 => "ISO-8859-7",
            TextEncoding::Iso8859_8 => "ISO-8859-8",
            TextEncoding::Iso8859_10 => "ISO-8859-10",
            TextEncoding::Iso8859_13 => "ISO-8859-13",
            TextEncoding::Iso8859_14 => "ISO-8859-14",
            TextEncoding::Iso8859_15 => "ISO-8859-15",
            TextEncoding::Iso8859_16 => "ISO-8859-16",
            TextEncoding::Koi8R => "KOI8-R",
            TextEncoding::Koi8U => "KOI8-U",
            TextEncoding::Macintosh => "macintosh",
            TextEncoding::MacCyrillic => "x-mac-cyrillic",
            TextEncoding::ShiftJis => "Shift_JIS",
            TextEncoding::EucKr => "EUC-KR",
            TextEncoding::Utf16Be => "UTF-16BE",
            TextEncoding::Windows874 => "windows-874",
            TextEncoding::Windows1250 => "windows-1250",
            TextEncoding::Windows1251 => "windows-1251",
            TextEncoding::Windows1253 => "windows-1253",
            TextEncoding::Windows1254 => "windows-1254",
            TextEncoding::Windows1255 => "windows-1255",
            TextEncoding::Windows1256 => "windows-1256",
            TextEncoding::Windows1257 => "windows-1257",
            TextEncoding::Windows1258 => "windows-1258",
            TextEncoding::Utf8 => "UTF-8",
            _ => {
                proof {
                    reveal_strlit("");
                }
                assert(""@ =~= Seq::<char>::empty());
                ""
            },
        }
    }
}

/// The table of encoding names, in upper case, and the decoder each one leads to.
/// "ISO-8859-1" leads to Windows-1252, which text under that label mostly is.
pub open spec fn table_lookup(upper: Seq<char>) -> Option<TextEncoding> {
    if upper == "IBM852"@ {
        Some(TextEncoding::Ibm852)
    } else if upper == "IBM855"@ {
        Some(TextEncoding::Ibm855)
    } else if upper == "IBM866"@ {
        Some(TextEncoding::Ibm866)
    } else if upper == "BIG5"@ {
        Some(TextEncoding::Big5)
    } else if upper == "EUC-JP"@ {
        Some(TextEncoding::EucJp)
    } else if upper == "GB18030"@ {
        Some(TextEncoding::Gb18030)
    } else if upper == "ISO-8859-1"@ {
        Some(TextEncoding::Windows1252)
    } else if upper == "ISO-8859-2"@ {
        Some(TextEncoding::Iso8859_2)
    } else if upper == "ISO8859-2"@ {
        Some(TextEncoding::Iso8859_2)
    } else if upper == "ISO-8859-3"@ {
        Some(TextEncoding::Iso8859_3)
    } else if upper == "ISO8859-3"@ {
        Some(TextEncoding::Iso8859_3)
    } else if upper == "ISO-8859-4"@ {
        Some(TextEncoding::Iso8859_4)
    } else if upper == "ISO8859-4"@ {
        Some(TextEncoding::Iso8859_4)
    } else if upper == "ISO-8859-5"@ {
        Some(TextEncoding::Iso8859_5)
    } else if upper == "ISO8859-5"@ {
        Some(TextEncoding::Iso8859_5)
    } else if upper == "ISO-8859-6"@ {
        Some(TextEncoding::Iso8859_6)
    } else if upper == "ISO8859-6"@ {
        Some(TextEncoding::Iso8859_6)
    } else if upper == "ISO-8859-7"@ {
        Some(TextEncoding::Iso8859_7)
    } else if upper == "ISO8859-7"@ {
        Some(TextEncoding::Iso8859_7)
    } else if upper == "ISO-8859-8"@ {
        Some(TextEncoding::Iso8859_8)
    } else if upper == "ISO8859-8"@ {
        Some(TextEncoding::Iso8859_8)
    } else if upper == "ISO-8859-9"@ {
        Some(TextEncoding::Windows1254)
    } else if upper == "ISO8859-9"@ {
        Some(TextEncoding::Windows1254)
    } else if upper == "ISO-8859-10"@ {
        Some(TextEncoding::Iso8859_10)
    } else if upper == "ISO8859-10"@ {
        Some(TextEncoding::Iso8859_10)
    } else if upper == "ISO-8859-11"@ {
        Some(TextEncoding::Windows874)
    } else if upper == "ISO8859-11"@ {
        Some(TextEncoding::Windows874)
    } else if upper == "ISO-8859-13"@ {
        Some(TextEncoding::Iso8859_13)
    } else if upper == "ISO8859-13"@ {
        Some(TextEncoding::Iso8859_13)
    } else if upper == "ISO-8859-14"@ {
        Some(TextEncoding::Iso8859_14)
    } else if upper == "ISO8859-14"@ {
        Some(TextEncoding::Iso8859_14)
    } else if upper == "ISO-8859-15"@ {
        Some(TextEncoding::Iso8859_15)
    } else if upper == "ISO8859-15"@ {
        Some(TextEncoding::Iso8859_15)
    } else if upper == "ISO-8859-16"@ {
        Some(TextEncoding::Iso8859_16)
    } else if upper == "ISO8859-16"@ {
        Some(TextEncoding::Iso8859_16)
    } else if upper == "KOI8-R"@ {
        Some(TextEncoding::Koi8R)
    } else if upper == "KOI8R"@ {
        Some(TextEncoding::Koi8R)
    } else if upper == "KOI8-U"@ {
        Some(TextEncoding::Koi8U)
    } else if upper == "KOI8U"@ {
        Some(TextEncoding::Koi8U)
    } else if upper == "MACINTOSH"@ {
        Some(TextEncoding::Macintosh)
    } else if upper == "MAC"@ {
        Some(TextEncoding::Macintosh)
    } else if upper == "MACCENTRALEUROPE"@ {
        Some(TextEncoding::Windows1250)
    } else if upper == "MACCYRILLIC"@ {
        Some(TextEncoding::MacCyrillic)
    } else if upper == "SHIFT_JIS"@ {
        Some(TextEncoding::ShiftJis)
    } else if upper == "TIS-620"@ {
        Some(TextEncoding::Windows874)
    } else if upper == "UHC"@ {
        Some(TextEncoding::EucKr)
    } else if upper == "UTF-16"@ {
        Some(TextEncoding::Utf16Be)
    } else if upper == "WINDOWS-874"@ {
        Some(TextEncoding::Windows874)
    } else if upper == "CP874"@ {
        Some(TextEncoding::Windows874)
    } else if upper == "WINDOWS-1250"@ {
        Some(TextEncoding::Windows1250)
    } else if upper == "CP1250"@ {
        Some(TextEncoding::Windows1250)
    } else if upper == "WINDOWS-1251"@ {
        Some(TextEncoding::Windows1251)
    } else if upper == "CP1251"@ {
        Some(TextEncoding::Windows1251)
    } else if upper == "WINDOWS-1252"@ {
        Some(TextEncoding::Windows1252)
    } else if upper == "CP1252"@ {
        Some(TextEncoding::Windows1252)
    } else if upper == "WINDOWS-1253"@ {
        Some(TextEncoding::Windows1253)
    } else if upper == "CP1253"@ {
        Some(TextEncoding::Windows1253)
    } else if upper == "WINDOWS-1254"@ {
        Some(TextEncoding::Windows1254)
    } else if upper == "CP1254"@ {
        Some(TextEncoding::Windows1254)
    } else if upper == "WINDOWS-1255"@ {
        Some(TextEncoding::Windows1255)
    } else if upper == "CP1255"@ {
        Some(TextEncoding::Windows1255)
    } else if upper == "WINDOWS-1256"@ {
        Some(TextEncoding::Windows1256)
    } else if upper == "CP1256"@ {
        Some(TextEncoding::Windows1256)
    } else if upper == "WINDOWS-1257"@ {
        Some(TextEncoding::Windows1257)
    } else if upper == "CP1257"@ {
        Some(TextEncoding::Windows1257)
    } else if upper == "WINDOWS-1258"@ {
        Some(TextEncoding::Windows1258)
    } else if upper == "CP1258"@ {
        Some(TextEncoding::Windows1258)
    } else if upper == "UTF-8"@ {
        Some(TextEncoding::Utf8)
    } else if upper == "UTF8"@ {
        Some(TextEncoding::Utf8)
    } else {
        None
    }
}

/// Looks an upper-case encoding name up in the table.
pub fn lookup_encoding(upper: &str) -> (found: Option<TextEncoding>)
    ensures
        found == table_lookup(upper@),
{
    if str_eq(upper, "IBM852") {
        Some(TextEncoding::Ibm852)
    } else if str_eq(upper, "IBM855") {
        Some(TextEncoding::Ibm855)
    } else if str_eq(upper, "IBM866") {
        Some(TextEncoding::Ibm866)
    } else if str_eq(upper, "BIG5") {
        Some(TextEncoding::Big5)
    } else if str_eq(upper, "EUC-JP") {
        Some(TextEncoding::EucJp)
    } else if str_eq(upper, "GB18030") {
        Some(TextEncoding::Gb18030)
    } else if str_eq(upper, "ISO-8859-1") {
        Some(TextEncoding::Windows1252)
    } else if str_eq(upper, "ISO-8859-2") {
        Some(TextEncoding::Iso8859_2)
    } else if str_eq(upper, "ISO8859-2") {
        Some(TextEncoding::Iso8859_2)
    } else if str_eq(upper, "ISO-8859-3") {
        Some(TextEncoding::Iso8859_3)
    } else if str_eq(upper, "ISO8859-3") {
        Some(TextEncoding::Iso8859_3)
    } else if str_eq(upper, "ISO-8859-4") {
        Some(TextEncoding::Iso8859_4)
    } else if str_eq(upper, "ISO8859-4") {
        Some(TextEncoding::Iso8859_4)
    } else if str_eq(upper, "ISO-8859-5") {
        Some(TextEncoding::Iso8859_5)
    } else if str_eq(upper, "ISO8859-5") {
        Some(TextEncoding::Iso8859_5)
    } else if str_eq(upper, "ISO-8859-6") {
        Some(TextEncoding::Iso8859_6)
    } else if str_eq(upper, "ISO8859-6") {
        Some(TextEncoding::Iso8859_6)
    } else if str_eq(upper, "ISO-8859-7") {
        Some(TextEncoding::Iso8859_7)
    } else if str_eq(upper, "ISO8859-7") {
        Some(TextEncoding::Iso8859_7)
    } else if str_eq(upper, "ISO-8859-8") {
        Some(TextEncoding::Iso8859_8)
    } else if str_eq(upper, "ISO8859-8") {
        Some(TextEncoding::Iso8859_8)
    } else if str_eq(upper, "ISO-8859-9") {
        Some(TextEncoding::Windows1254)
    } else if str_eq(upper, "ISO8859-9") {
        Some(TextEncoding::Windows1254)
    } else if str_eq(upper, "ISO-8859-10") {
        Some(TextEncoding::Iso8859_10)
    } else if str_eq(upper, "ISO8859-10") {
        Some(TextEncoding::Iso8859_10)
    } else if str_eq(upper, "ISO-8859-11") {
        Some(TextEncoding::Windows874)
    } else if str_eq(upper, "ISO8859-11") {
        Some(TextEncoding::Windows874)
    } else if str_eq(upper, "ISO-8859-13") {
        Some(TextEncoding::Iso8859_13)
    } else if str_eq(upper, "ISO8859-13") {
        Some(TextEncoding::Iso8859_13)
    } else if str_eq(upper, "ISO-8859-14") {
        Some(TextEncoding::Iso8859_14)
    } else if str_eq(upper, "ISO8859-14") {
        Some(TextEncoding::Iso8859_14)
    } else if str_eq(upper, "ISO-8859-15") {
        Some(TextEncoding::Iso8859_15)
    } else if str_eq(upper, "ISO8859-15") {
        Some(TextEncoding::Iso8859_15)
    } else if str_eq(upper, "ISO-8859-16") {
        Some(TextEncoding::Iso8859_16)
    } else if str_eq(upper, "ISO8859-16") {
        Some(TextEncoding::Iso8859_16)
    } else if str_eq(upper, "KOI8-R") {
        Some(TextEncoding::Koi8R)
    } else if str_eq(upper, "KOI8R") {
        Some(TextEncoding::Koi8R)
    } else if str_eq(upper, "KOI8-U") {
        Some(TextEncoding::Koi8U)
    } else if str_eq(upper, "KOI8U") {
        Some(TextEncoding::Koi8U)
    } else if str_eq(upper, "MACINTOSH") {
        Some(TextEncoding::Macintosh)
    } else if str_eq(upper, "MAC") {
        Some(TextEncoding::Macintosh)
    } else if str_eq(upper, "MACCENTRALEUROPE") {
        Some(TextEncoding::Windows1250)
    } else if str_eq(upper, "MACCYRILLIC") {
        Some(TextEncoding::MacCyrillic)
    } else if str_eq(upper, "SHIFT_JIS") {
        Some(TextEncoding::ShiftJis)
    } else if str_eq(upper, "TIS-620") {
        Some(TextEncoding::Windows874)
    } else if str_eq(upper, "UHC") {
        Some(TextEncoding::EucKr)
    } else if str_eq(upper, "UTF-16") {
        Some(TextEncoding::Utf16Be)
    } else if str_eq(upper, "WINDOWS-874") {
        Some(TextEncoding::Windows874)
    } else if str_eq(upper, "CP874") {
        Some(TextEncoding::Windows874)
    } else if str_eq(upper, "WINDOWS-1250") {
        Some(TextEncoding::Windows1250)
    } else if str_eq(upper, "CP1250") {
        Some(TextEncoding::Windows1250)
    } else if str_eq(upper, "WINDOWS-1251") {
        Some(TextEncoding::Windows1251)
    } else if str_eq(upper, "CP1251") {
        Some(TextEncoding::Windows1251)
    } else if str_eq(upper, "WINDOWS-1252") {
        Some(TextEncoding::Windows1252)
    } else if str_eq(upper, "CP1252") {
        Some(TextEncoding::Windows1252)
    } else if str_eq(upper, "WINDOWS-1253") {
        Some(TextEncoding::Windows1253)
    } else if str_eq(upper, "CP1253") {
        Some(TextEncoding::Windows1253)
    } else if str_eq(upper, "WINDOWS-1254") {
        Some(TextEncoding::Windows1254)
    } else if str_eq(upper, "CP1254") {
        Some(TextEncoding::Windows1254)
    } else if str_eq(upper, "WINDOWS-1255") {
        Some(TextEncoding::Windows1255)
    } else if str_eq(upper, "CP1255") {
        Some(TextEncoding::Windows1255)
    } else if str_eq(upper, "WINDOWS-1256") {
        Some(TextEncoding::Windows1256)
    } else if str_eq(upper, "CP1256") {
        Some(TextEncoding::Windows1256)
    } else if str_eq(upper, "WINDOWS-1257") {
        Some(TextEncoding::Windows1257)
    } else if str_eq(upper, "CP1257") {
        Some(TextEncoding::Windows1257)
    } else if str_eq(upper, "WINDOWS-1258") {
        Some(TextEncoding::Windows1258)
    } else if str_eq(upper, "CP1258") {
        Some(TextEncoding::Windows1258)
    } else if str_eq(upper, "UTF-8") {
        Some(TextEncoding::Utf8)
    } else if str_eq(upper, "UTF8") {
        Some(TextEncoding::Utf8)
    } else {
        None
    }
}

/// The upper-case form of a text, as the standard library computes it.
pub uninterp spec fn uppercase_of(text: Seq<char>) -> Seq<char>;

/// Calls `str::to_uppercase`. The contract names the result, which depends on
/// the text alone.
#[verifier::external_body]
fn to_uppercase(text: &str) -> (upper: String)
    ensures
        upper@ == uppercase_of(text@),
{
    text.to_uppercase()
}

/// What the transcoding library makes of `bytes` read in the encoding that
/// `label` stands for, and in no other: `None` where it knows no such label; else
/// the decoded text, and whether a malformed sequence had to be replaced. A byte
/// order mark at the start is read like any other bytes.
pub uninterp spec fn transcoded(label: Seq<char>, bytes: Seq<u8>) -> Option<(Seq<char>, bool)>;

/// Whether `label` is the label of a decoder of the table.
pub open spec fn is_table_label(label: Seq<char>) -> bool {
    exists|encoding: TextEncoding|
        encoding.spec_code_page() is None && #[trigger] encoding.spec_label() == label
}

/// Calls `encoding_rs::Encoding::for_label` on the label and, where that finds an
/// encoding, `Encoding::decode_without_bom_handling` on the bytes. The contract
/// names the outcome, which depends on the label and the bytes alone, and says
/// that `for_label` finds an encoding for each label of the table: the library's
/// list of labels holds them all. The decoder fails on inputs so long that three
/// times their length overflows, which `requires` leaves out.
#[verifier::external_body]
fn transcode(label: &str, bytes: &[u8]) -> (decoded: Option<(String, bool)>)
    requires
        bytes@.len() <= MAX_DECODE_LEN,
    ensures
        match decoded {
            Some((text, lossy)) => transcoded(label@, bytes@) == Some((text@, lossy)),
            None => transcoded(label@, bytes@) is None,
        },
        is_table_label(label@) ==> decoded is Some,
{
    let encoding = encoding_rs::Encoding::for_label(label.as_bytes())?;
    let (text, lossy) = encoding.decode_without_bom_handling(bytes);
    Some((text.into_owned(), lossy))
}

/// The upper half of a DOS code page: the characters of the bytes 128 to 255.
pub uninterp spec fn code_page_table(code_page: u16) -> Seq<char>;

/// Reads `oem_cp::code_table::DECODING_TABLE_CP_MAP` at `code_page` and hands out
/// the table where it is a complete one. The map holds complete tables for the
/// code pages 852, 855 and 866.
#[verifier::external_body]
fn complete_table(code_page: u16) -> (table: Option<&'static [char; 128]>)
    ensures
        table matches Some(t) ==> t@ == code_page_table(code_page),
        code_page == 852 || code_page == 855 || code_page == 866 ==> table is Some,
{
    match oem_cp::code_table::DECODING_TABLE_CP_MAP.get(&code_page) {
        Some(oem_cp::code_table_type::TableType::Complete(table)) => Some(*table),
        _ => None,
    }
}

/// The character of one byte under a code page: itself below 128, else the
/// table's entry.
pub open spec fn table_char(byte: u8, table: Seq<char>) -> char {
    if byte < 128 {
        byte as char
    } else {
        table[byte - 128]
    }
}

/// The text of `bytes` under a code page: one character for each byte.
pub open spec fn table_text(bytes: Seq<u8>, table: Seq<char>) -> Seq<char> {
    Seq::new(bytes.len(), |i: int| table_char(bytes[i], table))
}

/// Calls `oem_cp::decode_string_complete_table`, which maps each byte below 128 to
/// the character of the same number and each other byte to the table's entry at the
/// byte's low seven bits.
#[verifier::external_body]
fn decode_complete_table(bytes: &[u8], table: &[char; 128]) -> (text: String)
    requires
        bytes@.len() <= MAX_DECODE_LEN,
    ensures
        text@ == table_text(bytes@, table@),
{
    oem_cp::decode_string_complete_table(bytes, table)
}

/// What decoding comes to.
pub ghost enum Decoded {
    /// The text that the bytes stand for.
    Text(Seq<char>),
    /// The encoding is not supported.
    Unsupported,
    /// The bytes do not decode without loss.
    Malformed,
}

/// What the transcoding library's outcome comes to: a text only where the label
/// was known and nothing had to be replaced.
pub open spec fn accepted(outcome: Option<(Seq<char>, bool)>) -> Decoded {
    match outcome {
        None => Decoded::Unsupported,
        Some((text, lossy)) => if lossy {
            Decoded::Malformed
        } else {
            Decoded::Text(text)
        },
    }
}

/// What decoding `bytes` with a given decoder comes to.
pub open spec fn decoded_with(encoding: TextEncoding, bytes: Seq<u8>) -> Decoded {
    if bytes.len() > MAX_DECODE_LEN {
        Decoded::Malformed
    } else {
        match encoding.spec_code_page() {
            Some(page) => Decoded::Text(table_text(bytes, code_page_table(page))),
            None => accepted(transcoded(encoding.spec_label(), bytes)),
        }
    }
}

/// What decoding `bytes` under an encoding name comes to: the name is put in upper
/// case and looked up in the table, and the decoder found decodes the bytes.
pub open spec fn decoded(bytes: Seq<u8>, encoding_name: Seq<char>) -> Decoded {
    match table_lookup(uppercase_of(encoding_name)) {
        None => Decoded::Unsupported,
        Some(encoding) => decoded_with(encoding, bytes),
    }
}

/// Whether a result says what `expected` says, with `encoding_name` in its error.
pub open spec fn agrees(
    result: Result<String, DecodingError>,
    expected: Decoded,
    encoding_name: Seq<char>,
) -> bool {
    match result {
        Ok(text) => expected == Decoded::Text(text@),
        Err(DecodingError::UnsupportedEncoding(name)) => expected == Decoded::Unsupported
            && name@ == encoding_name,
        Err(DecodingError::DecodingFailed(name)) => expected == Decoded::Malformed && name@
            == encoding_name,
    }
}

/// Finds the decoder for an encoding name, whatever its case.
pub fn resolve_encoding(encoding_name: &str) -> (found: Option<TextEncoding>)
    ensures
        found == table_lookup(uppercase_of(encoding_name@)),
{
    let upper = to_uppercase(encoding_name);
    lookup_encoding(upper.as_str())
}

/// Turns the transcoding library's outcome into the result of decoding: the text
/// where nothing had to be replaced, else an error that holds `encoding_name`.
pub fn accept_decoded(outcome: Option<(String, bool)>, encoding_name: &str) -> (result: Result<
    String,
    DecodingError,
>)
    ensures
        agrees(
            result,
            accepted(
                match outcome {
                    Some((text, lossy)) => Some((text@, lossy)),
                    None => None,
                },
            ),
            encoding_name@,
        ),
{
    match outcome {
        None => Err(DecodingError::UnsupportedEncoding(String::from_str(encoding_name))),
        Some((text, lossy)) => {
            if lossy {
                Err(DecodingError::DecodingFailed(String::from_str(encoding_name)))
            } else {
                Ok(text)
            }
        },
    }
}

/// Whether a result is the error of an unsupported encoding.
pub open spec fn is_unsupported(result: Result<String, DecodingError>) -> bool {
    result is Err && result->Err_0 is UnsupportedEncoding
}

/// Decodes `bytes` with a decoder; `encoding_name` goes into the error. Every
/// decoder of the table is supported, so the error is never that of an
/// unsupported encoding.
pub fn decode_with(encoding: TextEncoding, bytes: &[u8], encoding_name: &str) -> (result: Result<
    String,
    DecodingError,
>)
    ensures
        agrees(result, decoded_with(encoding, bytes@), encoding_name@),
        !is_unsupported(result),
{
    if bytes.len() > MAX_DECODE_LEN {
        return Err(DecodingError::DecodingFailed(String::from_str(encoding_name)));
    }
    match encoding.code_page() {
        Some(page) => {
            match complete_table(page) {
                Some(table) => Ok(decode_complete_table(bytes, table)),
                None => Err(DecodingError::DecodingFailed(String::from_str(encoding_name))),
            }
        },
        None => {
            assert(is_table_label(encoding.spec_label()));
            accept_decoded(transcode(encoding.label(), bytes), encoding_name)
        },
    }
}

/// Decodes `bytes` of the encoding called `encoding_name` into text. The name is
/// matched against the table whatever its case, and the error is that of an
/// unsupported encoding exactly when the name matches nothing. The bytes are read
/// in the encoding that the name leads to, and a decode that would replace
/// anything fails as a whole.
pub fn decode_to_string(bytes: &[u8], encoding_name: &str) -> (result: Result<
    String,
    DecodingError,
>)
    ensures
        agrees(result, decoded(bytes@, encoding_name@), encoding_name@),
        is_unsupported(result) <==> table_lookup(uppercase_of(encoding_name@)) is None,
{
    match resolve_encoding(encoding_name) {
        None => Err(DecodingError::UnsupportedEncoding(String::from_str(encoding_name))),
        Some(encoding) => decode_with(encoding, bytes, encoding_name),
    }
}

} // verus!
