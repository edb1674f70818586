//! Share file formats: their names, detection of a text format from content,
//! and the plain record of a share that the text formats carry.
use vstd::prelude::*;
use vstd::string::StringSliceAdditionalSpecFns;

use crate::gf256::GF256;
use crate::share::Share;

verus! {

/// The formats in which shares are written.
#[derive(Debug, Clone, Copy, PartialEq, Eq, Structural)]
pub enum OutputFormat {
    Json,
    Hex,
    Base64,
    Binary,
}

/// The formats in which shares are read.
#[derive(Debug, Clone, Copy, PartialEq, Eq, Structural)]
pub enum InputFormat {
    Json,
    Hex,
    Base64,
    Binary,
}

impl OutputFormat {
    /// The file extension of the format.
    pub fn extension(&self) -> (r: &'static str)
        ensures
            *self == OutputFormat::Json ==> r@ == "json"@,
            *self == OutputFormat::Hex ==> r@ == "hex"@,
            *self == OutputFormat::Base64 ==> r@ == "b64"@,
            *self == OutputFormat::Binary ==> r@ == "bin"@,
    {
        match self {
            OutputFormat::Json => "json",
            OutputFormat::Hex => "hex",
            OutputFormat::Base64 => "b64",
            OutputFormat::Binary => "bin",
        }
    }
}

/// An ASCII hexadecimal digit.
pub open spec fn is_hex_digit(b: u8) -> bool {
    (0x30 <= b <= 0x39) || (0x41 <= b <= 0x46) || (0x61 <= b <= 0x66)
}

/// A character of the base64 alphabet or its padding: an ASCII letter or digit, `+`, `/` or `=`.
pub open spec fn is_base64_char(b: u8) -> bool {
    (0x30 <= b <= 0x39) || (0x41 <= b <= 0x5a) || (0x61 <= b <= 0x7a) || b == 0x2b || b == 0x2f
        || b == 0x3d
}

/// The separators that base64 text may be broken by: newline, carriage return, space.
pub open spec fn is_base64_space(b: u8) -> bool {
    b == 0x0a || b == 0x0d || b == 0x20
}

/// The number of bytes of `t` that are not base64 separators.
pub open spec fn non_space_count(t: Seq<u8>) -> nat
    decreases t.len(),
{
    if t.len() == 0 {
        0
    } else {
        non_space_count(t.drop_last()) + if is_base64_space(t.last()) {
            0nat
        } else {
            1nat
        }
    }
}

/// Text that reads as base64: without separators, a multiple of four bytes of
/// the base64 alphabet.
pub open spec fn looks_like_base64(t: Seq<u8>) -> bool {
    &&& non_space_count(t) % 4 == 0
    &&& forall|i: int| 0 <= i < t.len() ==> is_base64_space(#[trigger] t[i]) || is_base64_char(t[i])
}

/// Text that reads as hex: an even number of hex digits.
pub open spec fn looks_like_hex(t: Seq<u8>) -> bool {
    &&& t.len() % 2 == 0
    &&& forall|i: int| 0 <= i < t.len() ==> is_hex_digit(#[trigger] t[i])
}

/// The format that trimmed text is taken to be in; `None` for empty text.
/// JSON when it is wrapped in braces, else hex, else base64, else JSON.
pub open spec fn detected_format(t: Seq<u8>) -> Option<InputFormat> {
    if t.len() == 0 {
        None
    } else if t[0] == 0x7b && t.last() == 0x7d {
        Some(InputFormat::Json)
    } else if looks_like_hex(t) {
        Some(InputFormat::Hex)
    } else if looks_like_base64(t) {
        Some(InputFormat::Base64)
    } else {
        Some(InputFormat::Json)
    }
}

fn same_bytes(a: &[u8], b: &[u8]) -> (r: bool)
    ensures
        r == (a@ == b@),
{
    if a.len() != b.len() {
        return false;
    }
    let mut i: usize = 0;
    while i < a.len()
        invariant
            a@.len() == b@.len(),
            i <= a@.len(),
            forall|k: int| 0 <= k < i ==> a@[k] == b@[k],
        decreases a@.len() - i,
    {
        if a[i] != b[i] {
            return false;
        }
        i += 1;
    }
    proof {
        assert(a@ =~= b@);
    }
    true
}

/// The format that a file extension names, if any: `json`; `hex`; `b64` or
/// `base64`; `bin` or `binary` (as ASCII bytes).
pub open spec fn format_of_extension(ext: Seq<u8>) -> Option<InputFormat> {
    if ext == seq![0x6au8, 0x73, 0x6f, 0x6e] {
        Some(InputFormat::Json)
    } else if ext == seq![0x68u8, 0x65, 0x78] {
        Some(InputFormat::Hex)
    } else if ext == seq![0x62u8, 0x36, 0x34] || ext == seq![0x62u8, 0x61, 0x73, 0x65, 0x36, 0x34] {
        Some(InputFormat::Base64)
    } else if ext == seq![0x62u8, 0x69, 0x6e] || ext == seq![0x62u8, 0x69, 0x6e, 0x61, 0x72, 0x79] {
        Some(InputFormat::Binary)
    } else {
        None
    }
}

/// The bytes of a string without its leading and trailing whitespace.
pub uninterp spec fn trim_of(s: Seq<u8>) -> Seq<u8>;

/// Relies on `str::trim`: the string without leading and trailing whitespace,
/// which depends on the string alone.
#[verifier::external_body]
fn trimmed(s: &str) -> (r: &str)
    ensures
        r.spec_bytes() == trim_of(s.spec_bytes()),
{
    s.trim()
}

fn all_hex_digits(t: &[u8]) -> (r: bool)
    ensures
        r == (forall|i: int| 0 <= i < t@.len() ==> is_hex_digit(#[trigger] t@[i])),
{
    let mut i: usize = 0;
    while i < t.len()
        invariant
            i <= t@.len(),
            forall|k: int| 0 <= k < i ==> is_hex_digit(#[trigger] t@[k]),
        decreases t@.len() - i,
    {
        let b = t[i];
        if !((0x30 <= b && b <= 0x39) || (0x41 <= b && b <= 0x46) || (0x61 <= b && b <= 0x66)) {
            return false;
        }
        i += 1;
    }
    true
}

impl InputFormat {
    /// Whether trimmed text reads as base64 (see `looks_like_base64`).
    pub fn is_likely_base64(t: &[u8]) -> (r: bool)
        ensures
            r == looks_like_base64(t@),
    {
        let mut count: usize = 0;
        let mut i: usize = 0;
        while i < t.len()
            invariant
                i <= t@.len(),
                count == non_space_count(t@.take(i as int)),
                count <= i,
                forall|k: int| 0 <= k < i ==> is_base64_space(#[trigger] t@[k]) || is_base64_char(t@[k]),
            decreases t@.len() - i,
        {
            let b = t[i];
            proof {
                assert(t@.take(i + 1).drop_last() =~= t@.take(i as int));
            }
            if b == 0x0a || b == 0x0d || b == 0x20 {
            } else if (0x30 <= b && b <= 0x39) || (0x41 <= b && b <= 0x5a) || (0x61 <= b && b
                <= 0x7a) || b == 0x2b || b == 0x2f || b == 0x3d {
                count += 1;
            } else {
                return false;
            }
            i += 1;
        }
        proof {
            assert(t@.take(i as int) =~= t@);
        }
        count % 4 == 0
    }

    /// The format of trimmed text (see `detected_format`); fails on empty text.
    pub fn detect_from_trimmed(t: &[u8]) -> (r: Result<InputFormat, &'static str>)
        ensures
            match r {
                Ok(f) => detected_format(t@) == Some(f),
                Err(_) => detected_format(t@) is None,
            },
    {
        if t.len() == 0 {
            return Err("Empty content");
        }
        if t[0] == 0x7b && t[t.len() - 1] == 0x7d {
            return Ok(InputFormat::Json);
        }
        if t.len() % 2 == 0 && all_hex_digits(t) {
            return Ok(InputFormat::Hex);
        }
        if InputFormat::is_likely_base64(t) {
            return Ok(InputFormat::Base64);
        }
        Ok(InputFormat::Json)
    }

    /// The format that a file extension names (see `format_of_extension`).
    pub fn detect_from_extension(ext: &[u8]) -> (r: Option<InputFormat>)
        ensures
            r == format_of_extension(ext@),
    {
        let json: [u8; 4] = [0x6a, 0x73, 0x6f, 0x6e];
        let hex: [u8; 3] = [0x68, 0x65, 0x78];
        let b64: [u8; 3] = [0x62, 0x36, 0x34];
        let base64: [u8; 6] = [0x62, 0x61, 0x73, 0x65, 0x36, 0x34];
        let bin: [u8; 3] = [0x62, 0x69, 0x6e];
        let binary: [u8; 6] = [0x62, 0x69, 0x6e, 0x61, 0x72, 0x79];
        proof {
            assert(json@ =~= seq![0x6au8, 0x73, 0x6f, 0x6e]);
            assert(hex@ =~= seq![0x68u8, 0x65, 0x78]);
            assert(b64@ =~= seq![0x62u8, 0x36, 0x34]);
            assert(base64@ =~= seq![0x62u8, 0x61, 0x73, 0x65, 0x36, 0x34]);
            assert(bin@ =~= seq![0x62u8, 0x69, 0x6e]);
            assert(binary@ =~= seq![0x62u8, 0x69, 0x6e, 0x61, 0x72, 0x79]);
        }
        if same_bytes(ext, json.as_slice()) {
            Some(InputFormat::Json)
        } else if same_bytes(ext, hex.as_slice()) {
            Some(InputFormat::Hex)
        } else if same_bytes(ext, b64.as_slice()) || same_bytes(ext, base64.as_slice()) {
            Some(InputFormat::Base64)
        } else if same_bytes(ext, bin.as_slice()) || same_bytes(ext, binary.as_slice()) {
            Some(InputFormat::Binary)
        } else {
            None
        }
    }

    /// The format of text content, after trimming its surrounding whitespace.
    pub fn detect_from_content(content: &str) -> (r: Result<InputFormat, &'static str>)
        ensures
            match r {
                Ok(f) => detected_format(trim_of(content.spec_bytes())) == Some(f),
                Err(_) => detected_format(trim_of(content.spec_bytes())) is None,
            },
    {
        let text = trimmed(content);
        InputFormat::detect_from_trimmed(text.as_bytes())
    }
}

/// The plain record of a share as the text formats carry it, with optional metadata.
pub struct ShareData {
    /// Share number, counted from 1.
    pub id: Option<u8>,
    /// X-coordinate of the share.
    pub x: u8,
    /// Y-values of the share.
    pub y: Vec<u8>,
    pub threshold: Option<u8>,
    pub total_shares: Option<u8>,
    pub created_at: Option<String>,
    pub description: Option<String>,
}

/// Relies on chrono's `Utc::now` and `DateTime::to_rfc3339`: the current time
/// as RFC 3339 text. Nothing is promised of its value.
#[verifier::external_body]
fn current_time_text() -> (r: String) {
    chrono::Utc::now().to_rfc3339()
}

impl ShareData {
    /// The record of `share`; the metadata (its number `id`, the share count,
    /// the threshold and the creation time) only when `include_metadata` is set.
    pub fn new(share: Share, id: usize, total_shares: u8, threshold: u8, include_metadata: bool) -> (r:
        ShareData)
        ensures
            r.x == share.x.0,
            r.y@ == share.y@.map_values(|g: GF256| g.0),
            r.id == (if include_metadata { Some(id as u8) } else { None }),
            r.threshold == (if include_metadata { Some(threshold) } else { None }),
            r.total_shares == (if include_metadata { Some(total_shares) } else { None }),
            r.created_at is Some == include_metadata,
            r.description is None,
    {
        let mut y: Vec<u8> = Vec::new();
        let mut i: usize = 0;
        while i < share.y.len()
            invariant
                i <= share.y@.len(),
                y@ == share.y@.take(i as int).map_values(|g: GF256| g.0),
            decreases share.y@.len() - i,
        {
            y.push(share.y[i].0);
            i += 1;
            proof {
                assert(share.y@.take(i as int).map_values(|g: GF256| g.0) =~= share.y@.take(
                    (i - 1) as int,
                ).map_values(|g: GF256| g.0).push(share.y@[i - 1].0));
            }
        }
        proof {
            assert(share.y@.take(i as int) =~= share.y@);
        }
        ShareData {
            id: if include_metadata {
                Some(id as u8)
            } else {
                None
            },
            x: share.x.0,
            y,
            threshold: if include_metadata {
                Some(threshold)
            } else {
                None
            },
            total_shares: if include_metadata {
                Some(total_shares)
            } else {
                None
            },
            created_at: if include_metadata {
                Some(current_time_text())
            } else {
                None
            },
            description: None,
        }
    }

    /// The share that this record describes.
    pub fn into_share(self) -> (r: Share)
        ensures
            r.x.0 == self.x,
            r.y@ == self.y@.map_values(|b: u8| GF256(b)),
    {
        let mut y: Vec<GF256> = Vec::new();
        let mut i: usize = 0;
        while i < self.y.len()
            invariant
                i <= self.y@.len(),
                y@ == self.y@.take(i as int).map_values(|b: u8| GF256(b)),
            decreases self.y@.len() - i,
        {
            y.push(GF256(self.y[i]));
            i += 1;
            proof {
                assert(self.y@.take(i as int).map_values(|b: u8| GF256(b)) =~= self.y@.take(
                    (i - 1) as int,
                ).map_values(|b: u8| GF256(b)).push(GF256(self.y@[i - 1])));
            }
        }
        proof {
            assert(self.y@.take(i as int) =~= self.y@);
        }
        Share::new(GF256(self.x), y)
    }

    /// The binary encoding of the share: `[x, y_0, y_1, ...]`.
    pub fn to_bytes(&self) -> (r: Vec<u8>)
        ensures
            r@ == seq![self.x] + self.y@,
    {
        let mut bytes: Vec<u8> = Vec::new();
        bytes.push(self.x);
        let mut i: usize = 0;
        while i < self.y.len()
            invariant
                i <= self.y@.len(),
                bytes@ == seq![self.x] + self.y@.take(i as int),
            decreases self.y@.len() - i,
        {
            bytes.push(self.y[i]);
            i += 1;
            proof {
                assert(seq![self.x] + self.y@.take(i as int) =~= (seq![self.x] + self.y@.take(
                    (i - 1) as int,
                )).push(self.y@[i - 1]));
            }
        }
        proof {
            assert(self.y@.take(i as int) =~= self.y@);
        }
        bytes
    }

    /// The record, without metadata, of a share in binary encoding; fails on
    /// fewer than two bytes.
    pub fn from_bytes(bytes: &[u8]) -> (r: Result<ShareData, &'static str>)
        ensures
            bytes@.len() < 2 <==> r is Err,
            r matches Ok(d) ==> d.x == bytes@[0] && d.y@ == bytes@.skip(1) && d.id is None
                && d.threshold is None && d.total_shares is None && d.created_at is None
                && d.description is None,
    {
        let share = match Share::from_bytes(bytes) {
            Ok(s) => s,
            Err(e) => {
                return Err(e);
            },
        };
        let data = ShareData::new(share, 0, 0, 0, false);
        proof {
            assert(data.y@ =~= bytes@.skip(1));
        }
        Ok(data)
    }
}

/// The lowercase hexadecimal digit of `d < 16`.
pub open spec fn hex_digit_char(d: int) -> char {
    if d < 10 {
        (0x30 + d) as char
    } else {
        (0x61 + d - 10) as char
    }
}

/// Two lowercase hex digits per byte, high digit first.
pub open spec fn hex_text(b: Seq<u8>) -> Seq<char>
    decreases b.len(),
{
    if b.len() == 0 {
        seq![]
    } else {
        hex_text(b.drop_last()) + seq![
            hex_digit_char(b.last() as int / 16),
            hex_digit_char(b.last() as int % 16),
        ]
    }
}

/// The value of a hex digit of either case.
pub open spec fn hex_value(c: u8) -> Option<u8> {
    if 0x30 <= c <= 0x39 {
        Some((c - 0x30) as u8)
    } else if 0x61 <= c <= 0x66 {
        Some((c - 0x61 + 10) as u8)
    } else if 0x41 <= c <= 0x46 {
        Some((c - 0x41 + 10) as u8)
    } else {
        None
    }
}

/// The bytes that hex text stands for: `None` unless it is an even number of
/// hex digits of either case.
pub open spec fn hex_decoded(t: Seq<u8>) -> Option<Seq<u8>>
    decreases t.len(),
{
    if t.len() == 0 {
        Some(seq![])
    } else if t.len() == 1 {
        None
    } else {
        match (
            hex_decoded(t.subrange(0, t.len() - 2)),
            hex_value(t[t.len() - 2]),
            hex_value(t[t.len() - 1]),
        ) {
            (Some(p), Some(h), Some(l)) => Some(p.push((h * 16 + l) as u8)),
            _ => None,
        }
    }
}

/// Relies on `hex::encode`: two lowercase hex digits per byte, in order.
#[verifier::external_body]
fn hex_encode(b: &[u8]) -> (r: String)
    ensures
        r@ == hex_text(b@),
{
    hex::encode(b)
}

/// Relies on `hex::decode`: the bytes of an even number of hex digits of either
/// case, and an error on anything else.
#[verifier::external_body]
fn hex_decode(t: &[u8]) -> (r: Option<Vec<u8>>)
    ensures
        match r {
            Some(v) => hex_decoded(t@) == Some(v@),
            None => hex_decoded(t@) is None,
        },
{
    hex::decode(t).ok()
}

/// The standard base64 text (with padding) of a byte sequence.
pub uninterp spec fn base64_text_of(b: Seq<u8>) -> Seq<char>;

/// The bytes that standard base64 text decodes to, if it is valid.
pub uninterp spec fn base64_bytes_of(t: Seq<u8>) -> Option<Seq<u8>>;

/// Relies on `base64::encode`: the standard base64 text of the bytes, a
/// function of them alone.
#[verifier::external_body]
fn base64_encode(b: &[u8]) -> (r: String)
    ensures
        r@ == base64_text_of(b@),
{
    base64::encode(b)
}

/// Relies on `base64::decode`: the bytes of valid standard base64 text, and an
/// error otherwise; a function of the text alone.
#[verifier::external_body]
fn base64_decode(t: &[u8]) -> (r: Option<Vec<u8>>)
    ensures
        match r {
            Some(v) => base64_bytes_of(t@) == Some(v@),
            None => base64_bytes_of(t@) is None,
        },
{
    base64::decode(t).ok()
}

/// The record that decoded bytes describe, if they decoded and hold a share.
pub open spec fn record_from(decoded: Option<Seq<u8>>, d: ShareData) -> bool {
    decoded matches Some(b) && b.len() >= 2 && d.x == b[0] && d.y@ == b.skip(1) && d.id is None
        && d.threshold is None && d.total_shares is None && d.created_at is None
        && d.description is None
}

impl ShareData {
    /// The binary encoding of the share as lowercase hex.
    pub fn to_hex(&self) -> (r: String)
        ensures
            r@ == hex_text(seq![self.x] + self.y@),
    {
        let bytes = self.to_bytes();
        hex_encode(bytes.as_slice())
    }

    /// The record of a share in hex text, surrounding whitespace ignored.
    pub fn from_hex(text: &str) -> (r: Result<ShareData, &'static str>)
        ensures
            match r {
                Ok(d) => record_from(hex_decoded(trim_of(text.spec_bytes())), d),
                Err(_) => !(hex_decoded(trim_of(text.spec_bytes())) matches Some(b) && b.len()
                    >= 2),
            },
    {
        let t = trimmed(text);
        match hex_decode(t.as_bytes()) {
            None => Err("Invalid hex encoding"),
            Some(bytes) => ShareData::from_bytes(bytes.as_slice()),
        }
    }

    /// The binary encoding of the share as standard base64.
    pub fn to_base64(&self) -> (r: String)
        ensures
            r@ == base64_text_of(seq![self.x] + self.y@),
    {
        let bytes = self.to_bytes();
        base64_encode(bytes.as_slice())
    }

    /// The record of a share in base64 text, surrounding whitespace ignored.
    pub fn from_base64(text: &str) -> (r: Result<ShareData, &'static str>)
        ensures
            match r {
                Ok(d) => record_from(base64_bytes_of(trim_of(text.spec_bytes())), d),
                Err(_) => !(base64_bytes_of(trim_of(text.spec_bytes())) matches Some(b) && b.len()
                    >= 2),
            },
    {
        let t = trimmed(text);
        match base64_decode(t.as_bytes()) {
            None => Err("Invalid base64 encoding"),
            Some(bytes) => ShareData::from_bytes(bytes.as_slice()),
        }
    }
}

} // verus!
