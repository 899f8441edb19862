//! The ustar header codec: a typed record for one archive member's
//! metadata, decoded from and encoded to a fixed 512-byte block.
//!
//! Field layout (byte offset, length): name 0,100; mode 100,8; uid 108,8;
//! gid 116,8; size 124,12; mtime 136,12; chksum 148,8; typeflag 156,1;
//! linkname 157,100; magic 257,6; version 263,2; uname 265,32; gname
//! 297,32; devmajor 329,8; devminor 337,8; prefix 345,155 (or the
//! alternate 131-byte layout); atime 476,12; ctime 488,12.

use vstd::prelude::*;
use crate::errors::TarError;
use crate::fields::{
    decode_number, decode_text, field_number, lemma_digits_of_pad, lemma_field_number_small,
    lemma_field_number_zeros, lemma_oct_digits_props, lemma_octal_field_len,
    lemma_octal_field_roundtrip, lemma_sum_bytes_bound, lemma_sum_bytes_concat,
    lemma_text_field_roundtrip, lemma_text_filter_zeros, oct_digits, octal_field, pow8,
    push_oct_digits, push_octal_field, push_text_field, push_zeros, spaces, sum_bytes,
    text_field, text_filter, valid_text, zeros,
};
use crate::time::{timestamp_second_ok, zoned_of_second, TS_MAX_SECOND, TS_MIN_SECOND};

verus! {

/// The kind of an archive member, stored in the header's typeflag byte.
#[derive(Debug, Clone, Copy, PartialEq, Eq, Structural)]
pub enum TarType {
    Normal,
    HardLink,
    SymbolicLink,
    CharacterSpecial,
    BlockSpecial,
    Directory,
    FIFO,
    Contiguous,
    ExtendedHeader,
    ExtendedNext,
}

impl TarType {
    /// The numeric code of a member kind: the octal digit values zero
    /// through seven for the basic kinds, and the bytes `'g'` and `'x'`
    /// for the extended-header markers.
    pub open spec fn code_spec(self) -> int {
        match self {
            TarType::Normal => 0,
            TarType::HardLink => 1,
            TarType::SymbolicLink => 2,
            TarType::CharacterSpecial => 3,
            TarType::BlockSpecial => 4,
            TarType::Directory => 5,
            TarType::FIFO => 6,
            TarType::Contiguous => 7,
            TarType::ExtendedHeader => 103,
            TarType::ExtendedNext => 120,
        }
    }

    /// The member kind a numeric code names, where it names one of the
    /// eight basic kinds.
    pub open spec fn from_value_spec(value: int) -> Option<TarType> {
        if value == 0 {
            Some(TarType::Normal)
        } else if value == 1 {
            Some(TarType::HardLink)
        } else if value == 2 {
            Some(TarType::SymbolicLink)
        } else if value == 3 {
            Some(TarType::CharacterSpecial)
        } else if value == 4 {
            Some(TarType::BlockSpecial)
        } else if value == 5 {
            Some(TarType::Directory)
        } else if value == 6 {
            Some(TarType::FIFO)
        } else if value == 7 {
            Some(TarType::Contiguous)
        } else {
            None
        }
    }

    /// Maps a numeric typeflag value to a member kind: the values zero
    /// through seven name the basic kinds, anything else is refused.
    pub fn try_from(value: isize) -> (r: Result<TarType, TarError>)
        ensures
            match TarType::from_value_spec(value as int) {
                Some(t) => r matches Ok(got) && got == t,
                None => r matches Err(e) && e matches TarError::InvalidArchive(m) && m@
                    == "invalid typeflag value"@,
            },
    {
        match value {
            0 => Ok(TarType::Normal),
            1 => Ok(TarType::HardLink),
            2 => Ok(TarType::SymbolicLink),
            3 => Ok(TarType::CharacterSpecial),
            4 => Ok(TarType::BlockSpecial),
            5 => Ok(TarType::Directory),
            6 => Ok(TarType::FIFO),
            7 => Ok(TarType::Contiguous),
            _ => Err(TarError::InvalidArchive("invalid typeflag value".to_owned())),
        }
    }
}

/// The member kind a typeflag byte decodes to: a digit byte `'0'` through
/// `'7'` names the corresponding basic kind, and any other byte degrades
/// to `Normal` (the permissive default).
pub open spec fn typeflag_of_byte(b: u8) -> TarType {
    match TarType::from_value_spec(b - 48) {
        Some(t) => t,
        None => TarType::Normal,
    }
}

/// The mathematical content of a `Header`: each text field as its
/// character sequence, each numeric field as its value.
pub struct HeaderView {
    pub name: Seq<char>,
    pub mode: u16,
    pub uid: u32,
    pub gid: u32,
    pub size: usize,
    pub mtime: i64,
    pub chksum: usize,
    pub typeflag: TarType,
    pub linkname: Seq<char>,
    pub magic: Option<Seq<char>>,
    pub version: Option<u16>,
    pub uname: Option<Seq<char>>,
    pub gname: Option<Seq<char>>,
    pub devmajor: Option<usize>,
    pub devminor: Option<usize>,
    pub prefix: Option<Seq<char>>,
    pub star_prefix: Option<Seq<char>>,
    pub atime: Option<i64>,
    pub ctime: Option<i64>,
}

/// One archive member's metadata.  The name, mode, uid, gid, size, mtime,
/// chksum, typeflag and linkname fields are common to every tar dialect;
/// the rest are the ustar and star extensions, decoded when present.
/// Timestamps are held as seconds since the Unix epoch.
#[derive(Debug)]
pub struct Header {
    name: String,
    mode: u16,
    uid: u32,
    gid: u32,
    size: usize,
    mtime: i64,
    chksum: usize,
    typeflag: TarType,
    linkname: String,
    magic: Option<String>,
    version: Option<u16>,
    uname: Option<String>,
    gname: Option<String>,
    devmajor: Option<usize>,
    devminor: Option<usize>,
    prefix: Option<String>,
    star_prefix: Option<String>,
    atime: Option<i64>,
    ctime: Option<i64>,
}

/// The view of an optional text field.
pub open spec fn opt_text_view(s: Option<String>) -> Option<Seq<char>> {
    match s {
        Some(t) => Some(t@),
        None => None,
    }
}

impl View for Header {
    type V = HeaderView;

    closed spec fn view(&self) -> HeaderView {
        HeaderView {
            name: self.name@,
            mode: self.mode,
            uid: self.uid,
            gid: self.gid,
            size: self.size,
            mtime: self.mtime,
            chksum: self.chksum,
            typeflag: self.typeflag,
            linkname: self.linkname@,
            magic: opt_text_view(self.magic),
            version: self.version,
            uname: opt_text_view(self.uname),
            gname: opt_text_view(self.gname),
            devmajor: self.devmajor,
            devminor: self.devminor,
            prefix: opt_text_view(self.prefix),
            star_prefix: opt_text_view(self.star_prefix),
            atime: self.atime,
            ctime: self.ctime,
        }
    }
}

/// What decoding a 512-byte block yields: every field read independently
/// from its own byte region, text fields filtered, numeric fields read as
/// octal with failures degrading to zero.
pub open spec fn decode_spec(b: Seq<u8>) -> HeaderView {
    HeaderView {
        name: text_filter(b.subrange(0, 100)),
        mode: field_number(b.subrange(100, 108), u16::MAX as nat) as u16,
        uid: field_number(b.subrange(108, 116), u32::MAX as nat) as u32,
        gid: field_number(b.subrange(116, 124), u32::MAX as nat) as u32,
        size: field_number(b.subrange(124, 136), usize::MAX as nat) as usize,
        mtime: field_number(b.subrange(136, 148), i64::MAX as nat) as i64,
        chksum: field_number(b.subrange(148, 156), usize::MAX as nat) as usize,
        typeflag: typeflag_of_byte(b[156]),
        linkname: text_filter(b.subrange(157, 257)),
        magic: Some(text_filter(b.subrange(257, 263))),
        version: Some(field_number(b.subrange(263, 265), u16::MAX as nat) as u16),
        uname: Some(text_filter(b.subrange(265, 297))),
        gname: Some(text_filter(b.subrange(297, 329))),
        devmajor: Some(field_number(b.subrange(329, 337), usize::MAX as nat) as usize),
        devminor: Some(field_number(b.subrange(337, 345), usize::MAX as nat) as usize),
        prefix: Some(text_filter(b.subrange(345, 500))),
        star_prefix: Some(text_filter(b.subrange(345, 476))),
        atime: Some(field_number(b.subrange(476, 488), i64::MAX as nat) as i64),
        ctime: Some(field_number(b.subrange(488, 500), i64::MAX as nat) as i64),
    }
}

impl Default for Header {
    /// An all-empty header: empty texts, zero numerics, kind `Normal`,
    /// the epoch timestamp, and no extension fields.
    fn default() -> (r: Self)
        ensures
            r@.name.len() == 0,
            r@.mode == 0,
            r@.uid == 0,
            r@.gid == 0,
            r@.size == 0,
            r@.mtime == 0,
            r@.chksum == 0,
            r@.typeflag == TarType::Normal,
            r@.linkname.len() == 0,
            r@.magic is None,
            r@.version is None,
            r@.uname is None,
            r@.gname is None,
            r@.devmajor is None,
            r@.devminor is None,
            r@.prefix is None,
            r@.star_prefix is None,
            r@.atime is None,
            r@.ctime is None,
    {
        Header {
            name: String::new(),
            mode: 0u16,
            uid: 0u32,
            gid: 0u32,
            size: 0usize,
            mtime: 0i64,
            chksum: 0usize,
            typeflag: TarType::Normal,
            linkname: String::new(),
            magic: None,
            version: None,
            uname: None,
            gname: None,
            devmajor: None,
            devminor: None,
            prefix: None,
            star_prefix: None,
            atime: None,
            ctime: None,
        }
    }
}

impl Header {
    /// Decodes one 512-byte block into a header.  Every field decodes
    /// independently; a numeric field that fails to parse degrades to
    /// zero, so the only failure a block can provoke is a timestamp
    /// outside the representable range — which a 12-byte octal field can
    /// never reach, so decoding always succeeds.
    pub fn parse(block: &[u8]) -> (r: Result<Self, TarError>)
        requires
            block@.len() == 512,
        ensures
            r matches Ok(h) && h@ == decode_spec(block@),
    {
        let mtime_raw = decode_number(block, 136, 12, i64::MAX as u64);
        let atime_raw = decode_number(block, 476, 12, i64::MAX as u64);
        let ctime_raw = decode_number(block, 488, 12, i64::MAX as u64);
        proof {
            lemma_field_number_small(block@.subrange(136, 148), i64::MAX as nat);
            lemma_field_number_small(block@.subrange(476, 488), i64::MAX as nat);
            lemma_field_number_small(block@.subrange(488, 500), i64::MAX as nat);
            assert(pow8(12) == 68719476736) by {
                reveal_with_fuel(pow8, 13);
            }
        }
        if !timestamp_second_ok(mtime_raw as i64) {
            return Err(TarError::InvalidArchive("mtime out of range".to_owned()));
        }
        if !timestamp_second_ok(atime_raw as i64) {
            return Err(TarError::InvalidArchive("atime out of range".to_owned()));
        }
        if !timestamp_second_ok(ctime_raw as i64) {
            return Err(TarError::InvalidArchive("ctime out of range".to_owned()));
        }
        let tf_byte = block[156];
        let tf_value: isize = if 48 <= tf_byte && tf_byte <= 57 {
            (tf_byte - 48) as isize
        } else {
            0
        };
        let typeflag = match TarType::try_from(tf_value) {
            Ok(t) => t,
            Err(_) => TarType::Normal,
        };
        assert(typeflag == typeflag_of_byte(block@[156]));
        let h = Header {
            name: decode_text(block, 0, 100),
            mode: decode_number(block, 100, 8, u16::MAX as u64) as u16,
            uid: decode_number(block, 108, 8, u32::MAX as u64) as u32,
            gid: decode_number(block, 116, 8, u32::MAX as u64) as u32,
            size: decode_number(block, 124, 12, usize::MAX as u64) as usize,
            mtime: mtime_raw as i64,
            chksum: decode_number(block, 148, 8, usize::MAX as u64) as usize,
            typeflag,
            linkname: decode_text(block, 157, 100),
            magic: Some(decode_text(block, 257, 6)),
            version: Some(decode_number(block, 263, 2, u16::MAX as u64) as u16),
            uname: Some(decode_text(block, 265, 32)),
            gname: Some(decode_text(block, 297, 32)),
            devmajor: Some(decode_number(block, 329, 8, usize::MAX as u64) as usize),
            devminor: Some(decode_number(block, 337, 8, usize::MAX as u64) as usize),
            prefix: Some(decode_text(block, 345, 155)),
            star_prefix: Some(decode_text(block, 345, 131)),
            atime: Some(atime_raw as i64),
            ctime: Some(ctime_raw as i64),
        };
        Ok(h)
    }

    /// The byte length of the member's data.
    pub fn size(&self) -> (r: usize)
        ensures
            r == self@.size,
    {
        self.size
    }

    /// The member's path inside the archive.
    pub fn name(&self) -> (r: &str)
        ensures
            r@ == self@.name,
    {
        self.name.as_str()
    }

    /// The member's permission bits field.
    pub fn mode(&self) -> (r: u16)
        ensures
            r == self@.mode,
    {
        self.mode
    }

    /// The owning user id.
    pub fn uid(&self) -> (r: u32)
        ensures
            r == self@.uid,
    {
        self.uid
    }

    /// The owning group id.
    pub fn gid(&self) -> (r: u32)
        ensures
            r == self@.gid,
    {
        self.gid
    }

    /// The modification time, in seconds since the Unix epoch.
    pub fn mtime(&self) -> (r: i64)
        ensures
            r == self@.mtime,
    {
        self.mtime
    }

    /// A locale-zoned view of the modification time for display; the tar
    /// format itself stores plain epoch seconds with no zone.
    pub fn mtime_zoned(&self) -> jiff::Zoned
        requires
            TS_MIN_SECOND <= self@.mtime <= TS_MAX_SECOND,
    {
        zoned_of_second(self.mtime)
    }

    /// The header's stored checksum field.
    pub fn chksum(&self) -> (r: usize)
        ensures
            r == self@.chksum,
    {
        self.chksum
    }

    /// The member kind.
    pub fn typeflag(&self) -> (r: TarType)
        ensures
            r == self@.typeflag,
    {
        self.typeflag
    }

    /// The link target of a link-type member.
    pub fn linkname(&self) -> (r: &str)
        ensures
            r@ == self@.linkname,
    {
        self.linkname.as_str()
    }

    /// The symbolic owner name, when the header carries one.
    pub fn uname(&self) -> (r: &Option<String>)
        ensures
            opt_text_view(*r) == self@.uname,
    {
        &self.uname
    }

    /// The symbolic group name, when the header carries one.
    pub fn gname(&self) -> (r: &Option<String>)
        ensures
            opt_text_view(*r) == self@.gname,
    {
        &self.gname
    }
}


/// The contents of an optional text field, empty when absent.
pub open spec fn opt_text(o: Option<Seq<char>>) -> Seq<char> {
    match o {
        Some(s) => s,
        None => Seq::empty(),
    }
}

/// The value of an optional numeric field, zero when absent.
pub open spec fn opt_u16(o: Option<u16>) -> u16 {
    match o {
        Some(v) => v,
        None => 0u16,
    }
}

/// The value of an optional numeric field, zero when absent.
pub open spec fn opt_usize(o: Option<usize>) -> usize {
    match o {
        Some(v) => v,
        None => 0usize,
    }
}

/// A header the encoder can lay out exactly and the decoder reads back
/// unchanged: texts are ASCII without NUL and fit their fields, numeric
/// values fit their digit runs, the extension fields are present, and the
/// prefix and extra-timestamp regions are empty (the encoder leaves that
/// whole region blank).
pub open spec fn header_wf(h: HeaderView) -> bool {
    &&& valid_text(h.name) && h.name.len() <= 100
    &&& valid_text(h.linkname) && h.linkname.len() <= 100
    &&& (h.size as nat) < pow8(11)
    &&& 0 <= h.mtime && (h.mtime as nat) < pow8(11)
    &&& (h.uid as nat) < pow8(7)
    &&& (h.gid as nat) < pow8(7)
    &&& h.magic matches Some(m) && valid_text(m) && m.len() <= 6
    &&& h.version matches Some(v) && v < 8
    &&& h.uname matches Some(u) && valid_text(u) && u.len() <= 32
    &&& h.gname matches Some(g) && valid_text(g) && g.len() <= 32
    &&& h.devmajor matches Some(d) && (d as nat) < pow8(7)
    &&& h.devminor matches Some(d) && (d as nat) < pow8(7)
    &&& h.prefix == Some(Seq::<char>::empty())
    &&& h.star_prefix == Some(Seq::<char>::empty())
    &&& h.atime == Some(0i64)
    &&& h.ctime == Some(0i64)
    &&& h.typeflag.code_spec() < 8
}

/// The encoded block before its checksum is filled in: every field
/// rendered into its region, the checksum region held as eight spaces,
/// and the prefix region blank.
pub open spec fn encode_body(h: HeaderView) -> Seq<u8> {
    text_field(h.name, 100) + octal_field(h.mode as nat, 8) + octal_field(h.uid as nat, 8)
        + octal_field(h.gid as nat, 8) + octal_field(h.size as nat, 12) + octal_field(
        h.mtime as nat,
        12,
    ) + spaces(8) + seq![(48 + h.typeflag.code_spec()) as u8] + text_field(h.linkname, 100)
        + text_field(opt_text(h.magic), 6) + octal_field(opt_u16(h.version) as nat, 2)
        + text_field(opt_text(h.uname), 32) + text_field(opt_text(h.gname), 32) + octal_field(
        opt_usize(h.devmajor) as nat,
        8,
    ) + octal_field(opt_usize(h.devminor) as nat, 8) + zeros(167)
}

/// The checksum of a block: the unsigned sum of its 512 bytes with the
/// checksum region itself read as eight spaces.
pub open spec fn checksum_of(b: Seq<u8>) -> int {
    sum_bytes(b.subrange(0, 148)) + 256 + sum_bytes(b.subrange(156, 512))
}

/// The checksum an encoded header carries.
pub open spec fn header_checksum(h: HeaderView) -> int {
    checksum_of(encode_body(h))
}

/// The rendered checksum field: six octal digits, a NUL, and a space.
pub open spec fn chk_field(v: nat) -> Seq<u8> {
    oct_digits(v, 6) + seq![0u8, 32u8]
}

/// The full encoding of a header: the body with the computed checksum
/// written into its region.
pub open spec fn encode_spec(h: HeaderView) -> Seq<u8> {
    encode_body(h).subrange(0, 148) + chk_field(header_checksum(h) as nat) + encode_body(
        h,
    ).subrange(156, 512)
}

/// Each field of an encoded body sits exactly in its own byte region.
pub proof fn lemma_encode_body_regions(h: HeaderView)
    requires
        h.name.len() <= 100,
        h.linkname.len() <= 100,
        opt_text(h.magic).len() <= 6,
        opt_text(h.uname).len() <= 32,
        opt_text(h.gname).len() <= 32,
    ensures
        encode_body(h).len() == 512,
        encode_body(h).subrange(0, 100) == text_field(h.name, 100),
        encode_body(h).subrange(100, 108) == octal_field(h.mode as nat, 8),
        encode_body(h).subrange(108, 116) == octal_field(h.uid as nat, 8),
        encode_body(h).subrange(116, 124) == octal_field(h.gid as nat, 8),
        encode_body(h).subrange(124, 136) == octal_field(h.size as nat, 12),
        encode_body(h).subrange(136, 148) == octal_field(h.mtime as nat, 12),
        encode_body(h).subrange(148, 156) == spaces(8),
        encode_body(h)[156] == (48 + h.typeflag.code_spec()) as u8,
        encode_body(h).subrange(157, 257) == text_field(h.linkname, 100),
        encode_body(h).subrange(257, 263) == text_field(opt_text(h.magic), 6),
        encode_body(h).subrange(263, 265) == octal_field(opt_u16(h.version) as nat, 2),
        encode_body(h).subrange(265, 297) == text_field(opt_text(h.uname), 32),
        encode_body(h).subrange(297, 329) == text_field(opt_text(h.gname), 32),
        encode_body(h).subrange(329, 337) == octal_field(opt_usize(h.devmajor) as nat, 8),
        encode_body(h).subrange(337, 345) == octal_field(opt_usize(h.devminor) as nat, 8),
        encode_body(h).subrange(345, 512) == zeros(167),
{
    lemma_octal_field_len(h.mode as nat, 8);
    lemma_octal_field_len(h.uid as nat, 8);
    lemma_octal_field_len(h.gid as nat, 8);
    lemma_octal_field_len(h.size as nat, 12);
    lemma_octal_field_len(h.mtime as nat, 12);
    lemma_octal_field_len(opt_u16(h.version) as nat, 2);
    lemma_octal_field_len(opt_usize(h.devmajor) as nat, 8);
    lemma_octal_field_len(opt_usize(h.devminor) as nat, 8);
    let b = encode_body(h);
    assert(b.len() == 512);
    assert(b.subrange(0, 100) =~= text_field(h.name, 100));
    assert(b.subrange(100, 108) =~= octal_field(h.mode as nat, 8));
    assert(b.subrange(108, 116) =~= octal_field(h.uid as nat, 8));
    assert(b.subrange(116, 124) =~= octal_field(h.gid as nat, 8));
    assert(b.subrange(124, 136) =~= octal_field(h.size as nat, 12));
    assert(b.subrange(136, 148) =~= octal_field(h.mtime as nat, 12));
    assert(b.subrange(148, 156) =~= spaces(8));
    assert(b.subrange(157, 257) =~= text_field(h.linkname, 100));
    assert(b.subrange(257, 263) =~= text_field(opt_text(h.magic), 6));
    assert(b.subrange(263, 265) =~= octal_field(opt_u16(h.version) as nat, 2));
    assert(b.subrange(265, 297) =~= text_field(opt_text(h.uname), 32));
    assert(b.subrange(297, 329) =~= text_field(opt_text(h.gname), 32));
    assert(b.subrange(329, 337) =~= octal_field(opt_usize(h.devmajor) as nat, 8));
    assert(b.subrange(337, 345) =~= octal_field(opt_usize(h.devminor) as nat, 8));
    assert(b.subrange(345, 512) =~= zeros(167));
}

/// Each field of a full encoding sits in the same region as in the body,
/// with the checksum field in place of the spaces.
#[verifier::rlimit(60)]
pub proof fn lemma_encode_spec_regions(h: HeaderView)
    requires
        h.name.len() <= 100,
        h.linkname.len() <= 100,
        opt_text(h.magic).len() <= 6,
        opt_text(h.uname).len() <= 32,
        opt_text(h.gname).len() <= 32,
    ensures
        encode_spec(h).len() == 512,
        encode_spec(h).subrange(0, 100) == text_field(h.name, 100),
        encode_spec(h).subrange(100, 108) == octal_field(h.mode as nat, 8),
        encode_spec(h).subrange(108, 116) == octal_field(h.uid as nat, 8),
        encode_spec(h).subrange(116, 124) == octal_field(h.gid as nat, 8),
        encode_spec(h).subrange(124, 136) == octal_field(h.size as nat, 12),
        encode_spec(h).subrange(136, 148) == octal_field(h.mtime as nat, 12),
        encode_spec(h).subrange(148, 156) == chk_field(header_checksum(h) as nat),
        encode_spec(h)[156] == (48 + h.typeflag.code_spec()) as u8,
        encode_spec(h).subrange(157, 257) == text_field(h.linkname, 100),
        encode_spec(h).subrange(257, 263) == text_field(opt_text(h.magic), 6),
        encode_spec(h).subrange(263, 265) == octal_field(opt_u16(h.version) as nat, 2),
        encode_spec(h).subrange(265, 297) == text_field(opt_text(h.uname), 32),
        encode_spec(h).subrange(297, 329) == text_field(opt_text(h.gname), 32),
        encode_spec(h).subrange(329, 337) == octal_field(opt_usize(h.devmajor) as nat, 8),
        encode_spec(h).subrange(337, 345) == octal_field(opt_usize(h.devminor) as nat, 8),
        encode_spec(h).subrange(345, 512) == zeros(167),
        encode_spec(h).subrange(345, 500) == zeros(155),
        encode_spec(h).subrange(345, 476) == zeros(131),
        encode_spec(h).subrange(476, 488) == zeros(12),
        encode_spec(h).subrange(488, 500) == zeros(12),
{
    lemma_encode_body_regions(h);
    lemma_oct_digits_props(header_checksum(h) as nat, 6);
    let b = encode_body(h);
    let e = encode_spec(h);
    assert(e.len() == 512);
    assert forall|i: int| 0 <= i < 512 && !(148 <= i < 156) implies e[i] == b[i] by {
        if i < 148 {
            assert(e[i] == b.subrange(0, 148)[i]);
        } else {
            assert(e[i] == b.subrange(156, 512)[i - 156]);
        }
    }
    assert(e.subrange(0, 100) =~= b.subrange(0, 100));
    assert(e.subrange(100, 108) =~= b.subrange(100, 108));
    assert(e.subrange(108, 116) =~= b.subrange(108, 116));
    assert(e.subrange(116, 124) =~= b.subrange(116, 124));
    assert(e.subrange(124, 136) =~= b.subrange(124, 136));
    assert(e.subrange(136, 148) =~= b.subrange(136, 148));
    assert(e.subrange(148, 156) =~= chk_field(header_checksum(h) as nat));
    assert(e[156] == b[156]);
    assert(e.subrange(157, 257) =~= b.subrange(157, 257));
    assert(e.subrange(257, 263) =~= b.subrange(257, 263));
    assert(e.subrange(263, 265) =~= b.subrange(263, 265));
    assert(e.subrange(265, 297) =~= b.subrange(265, 297));
    assert(e.subrange(297, 329) =~= b.subrange(297, 329));
    assert(e.subrange(329, 337) =~= b.subrange(329, 337));
    assert(e.subrange(337, 345) =~= b.subrange(337, 345));
    assert(e.subrange(345, 512) =~= b.subrange(345, 512));
    assert(e.subrange(345, 500) =~= zeros(155));
    assert(e.subrange(345, 476) =~= zeros(131));
    assert(e.subrange(476, 488) =~= zeros(12));
    assert(e.subrange(488, 500) =~= zeros(12));
}


/// A block checksum lies between the spaces' own sum and six octal
/// digits' reach.
pub proof fn lemma_checksum_bound(b: Seq<u8>)
    requires
        b.len() == 512,
    ensures
        256 <= checksum_of(b) < pow8(6),
{
    lemma_sum_bytes_bound(b.subrange(0, 148));
    lemma_sum_bytes_bound(b.subrange(156, 512));
    assert(pow8(6) == 262144) by {
        reveal_with_fuel(pow8, 7);
    }
}

/// The rendered checksum field decodes back to the checksum value.
pub proof fn lemma_chk_field_roundtrip(v: nat, max: nat)
    requires
        v < pow8(6),
        v <= max,
    ensures
        field_number(chk_field(v), max) == v,
{
    let ds = oct_digits(v, 6);
    lemma_oct_digits_props(v, 6);
    crate::fields::lemma_oct_digits_fold(v, 6);
    let whole = chk_field(v);
    assert(whole.drop_last() =~= ds.push(0u8));
    assert(whole.last() == 32u8);
    assert(crate::fields::digits_of(whole) == crate::fields::digits_of(ds.push(0u8)));
    assert(ds.push(0u8).drop_last() =~= ds);
    assert(crate::fields::digits_of(ds.push(0u8)) == crate::fields::digits_of(ds));
    assert(crate::fields::digits_of(whole) == ds);
    assert(ds.len() == 6);
}

/// Decoding an encoded header reads every field back unchanged, with the
/// stored checksum replaced by the computed one.
pub proof fn lemma_decode_encode(h: HeaderView)
    requires
        header_wf(h),
    ensures
        decode_spec(encode_spec(h)) == (HeaderView {
            chksum: header_checksum(h) as usize,
            ..h
        }),
{
    lemma_encode_spec_regions(h);
    lemma_checksum_bound(encode_body(h));
    let e = encode_spec(h);
    let d = decode_spec(e);
    assert(pow8(6) == 262144 && pow8(7) == 2097152 && pow8(11) == 8589934592 && pow8(1) == 8) by {
        reveal_with_fuel(pow8, 12);
    }
    // text fields
    lemma_text_field_roundtrip(h.name, 100);
    lemma_text_field_roundtrip(h.linkname, 100);
    lemma_text_field_roundtrip(opt_text(h.magic), 6);
    lemma_text_field_roundtrip(opt_text(h.uname), 32);
    lemma_text_field_roundtrip(opt_text(h.gname), 32);
    assert(d.name == h.name);
    assert(d.linkname == h.linkname);
    assert(d.magic == h.magic);
    assert(d.uname == h.uname);
    assert(d.gname == h.gname);
    // numeric fields
    lemma_octal_field_roundtrip(h.mode as nat, 8, u16::MAX as nat);
    lemma_octal_field_roundtrip(h.uid as nat, 8, u32::MAX as nat);
    lemma_octal_field_roundtrip(h.gid as nat, 8, u32::MAX as nat);
    lemma_octal_field_roundtrip(h.size as nat, 12, usize::MAX as nat);
    lemma_octal_field_roundtrip(h.mtime as nat, 12, i64::MAX as nat);
    lemma_octal_field_roundtrip(opt_u16(h.version) as nat, 2, u16::MAX as nat);
    lemma_octal_field_roundtrip(opt_usize(h.devmajor) as nat, 8, usize::MAX as nat);
    lemma_octal_field_roundtrip(opt_usize(h.devminor) as nat, 8, usize::MAX as nat);
    assert(d.mode == h.mode);
    assert(d.uid == h.uid);
    assert(d.gid == h.gid);
    assert(d.size == h.size);
    assert(d.mtime == h.mtime);
    assert(d.version == h.version);
    assert(d.devmajor == h.devmajor);
    assert(d.devminor == h.devminor);
    // checksum field
    lemma_chk_field_roundtrip(header_checksum(h) as nat, usize::MAX as nat);
    assert(d.chksum == header_checksum(h) as usize);
    // typeflag byte
    assert(e[156] == (48 + h.typeflag.code_spec()) as u8);
    assert(d.typeflag == h.typeflag);
    // the blank tail
    lemma_text_filter_zeros(155);
    lemma_text_filter_zeros(131);
    lemma_field_number_zeros(12, i64::MAX as nat);
    assert(d.prefix == h.prefix);
    assert(d.star_prefix == h.star_prefix);
    assert(d.atime == h.atime);
    assert(d.ctime == h.ctime);
}


/// The byte sum of a run of spaces.
proof fn lemma_sum_spaces(n: nat)
    ensures
        sum_bytes(spaces(n)) == 32 * n,
    decreases n,
{
    if n > 0 {
        assert(spaces(n).drop_last() =~= spaces((n - 1) as nat));
        assert(spaces(n).last() == 32u8);
        lemma_sum_spaces((n - 1) as nat);
    }
}

impl Header {
    /// Renders the header into one 512-byte block: every field written
    /// into its region, the checksum computed over the block with its own
    /// region read as spaces and written back as six octal digits, a NUL
    /// and a space.
    pub fn encode(&self) -> (r: Vec<u8>)
        requires
            header_wf(self@),
        ensures
            r@ == encode_spec(self@),
            r@.len() == 512,
    {
        let mut out: Vec<u8> = Vec::new();
        push_text_field(&mut out, self.name.as_str(), 100);
        push_octal_field(&mut out, self.mode as u64, 8);
        push_octal_field(&mut out, self.uid as u64, 8);
        push_octal_field(&mut out, self.gid as u64, 8);
        push_octal_field(&mut out, self.size as u64, 12);
        push_octal_field(&mut out, self.mtime as u64, 12);
        let mut sp: usize = 0;
        let ghost before_spaces = out@;
        while sp < 8
            invariant
                sp <= 8,
                out@ == before_spaces + spaces(sp as nat),
            decreases 8 - sp,
        {
            out.push(32);
            assert(out@ =~= before_spaces + spaces((sp + 1) as nat));
            sp = sp + 1;
        }
        let code: u8 = match self.typeflag {
            TarType::Normal => 0,
            TarType::HardLink => 1,
            TarType::SymbolicLink => 2,
            TarType::CharacterSpecial => 3,
            TarType::BlockSpecial => 4,
            TarType::Directory => 5,
            TarType::FIFO => 6,
            TarType::Contiguous => 7,
            TarType::ExtendedHeader => 103,
            TarType::ExtendedNext => 120,
        };
        out.push(48 + code);
        assert(out@ =~= before_spaces + spaces(8) + seq![(48 + self@.typeflag.code_spec()) as u8]);
        push_text_field(&mut out, self.linkname.as_str(), 100);
        let magic_text = match &self.magic {
            Some(m) => m.as_str(),
            None => "",
        };
        assert(magic_text@ == opt_text(self@.magic));
        push_text_field(&mut out, magic_text, 6);
        let version_value: u16 = match self.version {
            Some(v) => v,
            None => 0,
        };
        push_octal_field(&mut out, version_value as u64, 2);
        let uname_text = match &self.uname {
            Some(u) => u.as_str(),
            None => "",
        };
        assert(uname_text@ == opt_text(self@.uname));
        push_text_field(&mut out, uname_text, 32);
        let gname_text = match &self.gname {
            Some(g) => g.as_str(),
            None => "",
        };
        assert(gname_text@ == opt_text(self@.gname));
        push_text_field(&mut out, gname_text, 32);
        let devmajor_value: usize = match self.devmajor {
            Some(d) => d,
            None => 0,
        };
        push_octal_field(&mut out, devmajor_value as u64, 8);
        let devminor_value: usize = match self.devminor {
            Some(d) => d,
            None => 0,
        };
        push_octal_field(&mut out, devminor_value as u64, 8);
        push_zeros(&mut out, 167);
        assert(out@ == encode_body(self@));
        proof {
            lemma_encode_body_regions(self@);
        }
        let ghost body = out@;
        // the checksum over the block, whose own region still holds spaces
        let mut sum: u64 = 0;
        let mut i: usize = 0;
        while i < 512
            invariant
                i <= 512,
                out@ == body,
                body.len() == 512,
                sum == sum_bytes(body.take(i as int)),
                sum <= 255 * i,
            decreases 512 - i,
        {
            assert(body.take(i + 1).drop_last() =~= body.take(i as int));
            assert(body.take(i + 1).last() == body[i as int]);
            sum = sum + out[i] as u64;
            i = i + 1;
        }
        assert(body.take(512) =~= body);
        proof {
            assert(body =~= (body.subrange(0, 148) + body.subrange(148, 156)) + body.subrange(
                156,
                512,
            ));
            lemma_sum_bytes_concat(
                body.subrange(0, 148) + body.subrange(148, 156),
                body.subrange(156, 512),
            );
            lemma_sum_bytes_concat(body.subrange(0, 148), body.subrange(148, 156));
            lemma_sum_spaces(8);
            assert(sum == checksum_of(body));
            assert(sum == header_checksum(self@));
            lemma_checksum_bound(body);
        }
        // render the checksum into its region
        let mut cf: Vec<u8> = Vec::new();
        push_oct_digits(&mut cf, sum, 6);
        cf.push(0);
        cf.push(32);
        proof {
            lemma_oct_digits_props(sum as nat, 6);
        }
        assert(cf@ =~= chk_field(sum as nat));
        let mut j: usize = 0;
        while j < 8
            invariant
                j <= 8,
                out@.len() == 512,
                cf@ == chk_field(sum as nat),
                cf@.len() == 8,
                forall|m: int| 0 <= m < 512 && !(148 <= m < 148 + j) ==> out@[m] == body[m],
                forall|t: int| 0 <= t < j ==> out@[148 + t] == cf@[t],
            decreases 8 - j,
        {
            out[148 + j] = cf[j];
            j = j + 1;
        }
        proof {
            lemma_oct_digits_props(sum as nat, 6);
            assert(out@ =~= encode_spec(self@)) by {
                let e = encode_spec(self@);
                assert(e == body.subrange(0, 148) + chk_field(header_checksum(self@) as nat)
                    + body.subrange(156, 512));
                assert forall|m: int| 0 <= m < 512 implies out@[m] == e[m] by {
                    if m < 148 {
                        assert(e[m] == body.subrange(0, 148)[m]);
                    } else if m < 156 {
                        assert(e[m] == chk_field(header_checksum(self@) as nat)[m - 148]);
                    } else {
                        assert(e[m] == body.subrange(156, 512)[m - 156]);
                    }
                }
            }
        }
        out
    }
}

/// Encoding is a function of the header alone: the same header always
/// yields the same block and the same checksum value.
pub proof fn lemma_checksum_deterministic(h1: HeaderView, h2: HeaderView)
    requires
        h1 == h2,
    ensures
        encode_spec(h1) == encode_spec(h2),
        header_checksum(h1) == header_checksum(h2),
{
}

/// Decoding reads each field from its own region alone: two blocks that
/// agree outside the checksum region decode to headers that agree on
/// every field but the stored checksum.
pub proof fn lemma_decode_ignores_chksum(b1: Seq<u8>, b2: Seq<u8>)
    requires
        b1.len() == 512,
        b2.len() == 512,
        b1.subrange(0, 148) == b2.subrange(0, 148),
        b1.subrange(156, 512) == b2.subrange(156, 512),
    ensures
        decode_spec(b1) == (HeaderView { chksum: decode_spec(b1).chksum, ..decode_spec(b2) }),
{
    assert forall|i: int| 0 <= i < 512 && !(148 <= i < 156) implies b1[i] == b2[i] by {
        if i < 148 {
            assert(b1[i] == b1.subrange(0, 148)[i]);
            assert(b2[i] == b2.subrange(0, 148)[i]);
            assert(b1.subrange(0, 148)[i] == b2.subrange(0, 148)[i]);
        } else {
            assert(156 <= i < 512);
            assert(b1[i] == b1.subrange(156, 512)[i - 156]);
            assert(b2[i] == b2.subrange(156, 512)[i - 156]);
            assert(b1.subrange(156, 512)[i - 156] == b2.subrange(156, 512)[i - 156]);
        }
    }
    assert(b1.subrange(0, 100) =~= b2.subrange(0, 100));
    assert(b1.subrange(100, 108) =~= b2.subrange(100, 108));
    assert(b1.subrange(108, 116) =~= b2.subrange(108, 116));
    assert(b1.subrange(116, 124) =~= b2.subrange(116, 124));
    assert(b1.subrange(124, 136) =~= b2.subrange(124, 136));
    assert(b1.subrange(136, 148) =~= b2.subrange(136, 148));
    assert(b1[156] == b2[156]);
    assert(b1.subrange(157, 257) =~= b2.subrange(157, 257));
    assert(b1.subrange(257, 263) =~= b2.subrange(257, 263));
    assert(b1.subrange(263, 265) =~= b2.subrange(263, 265));
    assert(b1.subrange(265, 297) =~= b2.subrange(265, 297));
    assert(b1.subrange(297, 329) =~= b2.subrange(297, 329));
    assert(b1.subrange(329, 337) =~= b2.subrange(329, 337));
    assert(b1.subrange(337, 345) =~= b2.subrange(337, 345));
    assert(b1.subrange(345, 500) =~= b2.subrange(345, 500));
    assert(b1.subrange(345, 476) =~= b2.subrange(345, 476));
    assert(b1.subrange(476, 488) =~= b2.subrange(476, 488));
    assert(b1.subrange(488, 500) =~= b2.subrange(488, 500));
}


impl Header {
    /// Builds the canonical ustar header the archive builder writes for
    /// one member: the given name, permissions, ownership, size, time
    /// and kind, the `ustar ` magic, and every other field empty or
    /// zero.
    pub fn new_ustar(
        name: String,
        mode: u16,
        uid: u32,
        gid: u32,
        size: usize,
        mtime: i64,
        typeflag: TarType,
    ) -> (h: Header)
        ensures
            h@ == (HeaderView {
                name: name@,
                mode,
                uid,
                gid,
                size,
                mtime,
                chksum: 0,
                typeflag,
                linkname: Seq::<char>::empty(),
                magic: Some("ustar "@),
                version: Some(0u16),
                uname: Some(Seq::<char>::empty()),
                gname: Some(Seq::<char>::empty()),
                devmajor: Some(0usize),
                devminor: Some(0usize),
                prefix: Some(Seq::<char>::empty()),
                star_prefix: Some(Seq::<char>::empty()),
                atime: Some(0i64),
                ctime: Some(0i64),
            }),
    {
        let linkname = String::new();
        let empty_uname = String::new();
        let empty_gname = String::new();
        let empty_prefix = String::new();
        let empty_star_prefix = String::new();
        Header {
            name,
            mode,
            uid,
            gid,
            size,
            mtime,
            chksum: 0,
            typeflag,
            linkname,
            magic: Some("ustar ".to_owned()),
            version: Some(0),
            uname: Some(empty_uname),
            gname: Some(empty_gname),
            devmajor: Some(0),
            devminor: Some(0),
            prefix: Some(empty_prefix),
            star_prefix: Some(empty_star_prefix),
            atime: Some(0),
            ctime: Some(0),
        }
    }
}

/// A header built by `new_ustar` is well formed whenever its name and
/// numeric fields fit their regions.
pub proof fn lemma_new_ustar_wf(h: HeaderView)
    requires
        valid_text(h.name),
        h.name.len() <= 100,
        h.linkname == Seq::<char>::empty(),
        h.magic == Some("ustar "@),
        h.version == Some(0u16),
        h.uname == Some(Seq::<char>::empty()),
        h.gname == Some(Seq::<char>::empty()),
        h.devmajor == Some(0usize),
        h.devminor == Some(0usize),
        h.prefix == Some(Seq::<char>::empty()),
        h.star_prefix == Some(Seq::<char>::empty()),
        h.atime == Some(0i64),
        h.ctime == Some(0i64),
        (h.size as nat) < pow8(11),
        0 <= h.mtime && (h.mtime as nat) < pow8(11),
        (h.uid as nat) < pow8(7),
        (h.gid as nat) < pow8(7),
        h.typeflag.code_spec() < 8,
    ensures
        header_wf(h),
{
    assert(pow8(7) > 0 && pow8(1) == 8) by {
        reveal_with_fuel(pow8, 8);
    }
    reveal_strlit("ustar ");
    assert("ustar "@.len() == 6);
    assert forall|i: int| 0 <= i < 6 implies 0 < #[trigger] ("ustar "@[i] as u32) < 128 by {
        if i == 0 {
            assert("ustar "@[0] == 'u');
        } else if i == 1 {
            assert("ustar "@[1] == 's');
        } else if i == 2 {
            assert("ustar "@[2] == 't');
        } else if i == 3 {
            assert("ustar "@[3] == 'a');
        } else if i == 4 {
            assert("ustar "@[4] == 'r');
        } else {
            assert("ustar "@[5] == ' ');
        }
    }
    assert(valid_text("ustar "@));
}


/// The format marker a strict decode expects: `ustar` followed by the
/// required padding.
pub open spec fn ustar_magic() -> Seq<char> {
    "ustar "@
}

impl Header {
    /// Decodes one 512-byte block, optionally validating the format
    /// marker: with the check enabled, a block whose decoded magic text
    /// differs from the expected constant fails with an invalid-archive
    /// error; callers that must tolerate pre-POSIX archives disable it.
    pub fn parse_checked(block: &[u8], validate_magic: bool) -> (r: Result<Self, TarError>)
        requires
            block@.len() == 512,
        ensures
            (!validate_magic || decode_spec(block@).magic == Some(ustar_magic())) ==> (r matches
                Ok(h) && h@ == decode_spec(block@)),
            (validate_magic && decode_spec(block@).magic != Some(ustar_magic())) ==> (r matches
                Err(e) && e matches TarError::InvalidArchive(_)),
    {
        let h = match Header::parse(block) {
            Ok(h) => h,
            Err(e) => {
                return Err(e);
            },
        };
        if validate_magic {
            let magic_ok = crate::operation::str_eq(h.magic_text(), "ustar ");
            if !magic_ok {
                return Err(TarError::InvalidArchive("bad magic".to_owned()));
            }
        }
        Ok(h)
    }

    /// The decoded format marker, empty where the header carries none.
    pub fn magic_text(&self) -> (r: &str)
        ensures
            match self@.magic {
                Some(m) => r@ == m,
                None => r@.len() == 0,
            },
    {
        match &self.magic {
            Some(m) => m.as_str(),
            None => {
                proof {
                    reveal_strlit("");
                }
                ""
            },
        }
    }
}

} // verus!
