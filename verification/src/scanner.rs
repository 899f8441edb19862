//! The archive scanner: a state machine over the sequence of 512-byte
//! blocks of an archive byte stream.  A non-zero block decodes as a
//! header and the stream advances past the member's data region; two
//! consecutive all-zero blocks terminate the archive; running out in the
//! middle of a block, or a data region that runs past the end of the
//! stream, is an invalid archive.

use vstd::prelude::*;
use crate::errors::TarError;
use crate::header::{decode_spec, Header, HeaderView};

verus! {

/// The scanner's state between blocks.
#[derive(Debug, Clone, Copy, PartialEq, Eq, Structural)]
pub enum ScanState {
    /// The next block may be a member header or the trailer's first zero
    /// block.
    ExpectHeaderOrZero,
    /// One all-zero block has just been read.
    SawOneZeroBlock,
    /// Two consecutive all-zero blocks were read: clean end of archive.
    Terminated,
}

/// The mathematical content of a `Member`: its decoded header and where
/// its header block and data region start in the stream.
pub struct MemberView {
    pub header: HeaderView,
    pub header_start: int,
    pub data_start: int,
}

/// The outcome of scanning a stream: the members in stream order with
/// the final state, or an invalid archive.
pub enum SpecScan {
    Good(Seq<MemberView>, ScanState),
    Bad,
}

/// The 512 bytes at `pos` are all zero.
pub open spec fn is_zero_block(data: Seq<u8>, pos: int) -> bool {
    forall|k: int| pos <= k < pos + 512 ==> data[k] == 0
}

/// How far the scanner advances past a member's header: the data region
/// occupies `max(512, size)` rounded up to the next block boundary.
pub open spec fn seek_len(size: nat) -> nat {
    let base: nat = if size < 512 {
        512nat
    } else {
        size
    };
    if base % 512 == 0 {
        base
    } else {
        (base + (512 - base % 512)) as nat
    }
}

/// The scanner, as a function of the stream: from `pos`, with `seen_zero`
/// telling whether the previous block was all zero.  Exactly reaching the
/// end of the stream is tolerated; a partial block or a data region
/// running past the end is invalid; two zero blocks in a row terminate.
pub open spec fn scan_from(data: Seq<u8>, pos: int, seen_zero: bool) -> SpecScan
    decreases data.len() - pos,
{
    if pos >= data.len() {
        if pos == data.len() {
            SpecScan::Good(
                Seq::empty(),
                if seen_zero {
                    ScanState::SawOneZeroBlock
                } else {
                    ScanState::ExpectHeaderOrZero
                },
            )
        } else {
            SpecScan::Bad
        }
    } else if pos + 512 > data.len() || pos < 0 {
        SpecScan::Bad
    } else if is_zero_block(data, pos) {
        if seen_zero {
            SpecScan::Good(Seq::empty(), ScanState::Terminated)
        } else {
            scan_from(data, pos + 512, true)
        }
    } else {
        let h = decode_spec(data.subrange(pos, pos + 512));
        let skip = seek_len(h.size as nat);
        if pos + 512 + skip > data.len() {
            SpecScan::Bad
        } else {
            match scan_from(data, pos + 512 + skip, false) {
                SpecScan::Good(ms, st) => SpecScan::Good(
                    seq![
                        MemberView { header: h, header_start: pos, data_start: pos + 512 },
                    ] + ms,
                    st,
                ),
                SpecScan::Bad => SpecScan::Bad,
            }
        }
    }
}

/// What scanning a whole stream yields.
pub open spec fn scan_spec(data: Seq<u8>) -> SpecScan {
    scan_from(data, 0, false)
}

/// An archive member: the parsed header of one file listing together
/// with the byte offsets of its header block and its data region.
#[derive(Debug)]
pub struct Member {
    header: Header,
    header_start: usize,
    data_start: usize,
}

impl View for Member {
    type V = MemberView;

    closed spec fn view(&self) -> MemberView {
        MemberView {
            header: self.header@,
            header_start: self.header_start as int,
            data_start: self.data_start as int,
        }
    }
}

impl Member {
    /// Builds a member from its header and offsets.
    pub fn new(header: Header, header_start: usize, data_start: usize) -> (r: Self)
        ensures
            r@.header == header@,
            r@.header_start == header_start,
            r@.data_start == data_start,
    {
        Member { header, header_start, data_start }
    }

    /// The member's decoded header.
    pub fn header(&self) -> (r: &Header)
        ensures
            r@ == self@.header,
    {
        &self.header
    }

    /// The member's decoded header, for modification.
    pub fn header_mut(&mut self) -> (r: &mut Header)
        ensures
            r@ == old(self)@.header,
            final(self)@ == (MemberView { header: final(r)@, ..old(self)@ }),
    {
        &mut self.header
    }

    /// The byte offset of the member's header block.
    pub fn header_start(&self) -> (r: usize)
        ensures
            r == self@.header_start,
    {
        self.header_start
    }

    /// The byte offset of the member's data region, one block past the
    /// header.
    pub fn data_start(&self) -> (r: usize)
        ensures
            r == self@.data_start,
    {
        self.data_start
    }
}

/// The views of a sequence of members, in order.
pub open spec fn members_view(ms: Seq<Member>) -> Seq<MemberView> {
    ms.map(|i: int, m: Member| m@)
}

/// An ordered sequence of members, produced by one full scan of one
/// archive stream and read-only afterwards.
#[derive(Debug)]
pub struct Archive {
    members: Vec<Member>,
}

impl View for Archive {
    type V = Seq<MemberView>;

    closed spec fn view(&self) -> Seq<MemberView> {
        members_view(self.members@)
    }
}

impl Archive {
    /// Wraps an ordered member list as an archive.
    pub fn new(members: Vec<Member>) -> (r: Self)
        ensures
            r@ == members_view(members@),
    {
        Archive { members }
    }

    /// The members, in stream order.
    pub fn members(&self) -> (r: &Vec<Member>)
        ensures
            members_view(r@) == self@,
    {
        &self.members
    }

    /// The members, in stream order, for modification.
    pub fn members_mut(&mut self) -> (r: &mut Vec<Member>)
        ensures
            members_view(r@) == old(self)@,
            final(self)@ == members_view(final(r)@),
    {
        &mut self.members
    }
}

/// A list of archives, one per scanned stream.
#[derive(Debug)]
pub struct ArchiveList {
    archives: Vec<Archive>,
}

impl View for ArchiveList {
    type V = Seq<Seq<MemberView>>;

    closed spec fn view(&self) -> Seq<Seq<MemberView>> {
        self.archives@.map(|i: int, a: Archive| a@)
    }
}

impl ArchiveList {
    /// Wraps an archive list.
    pub fn new(archives: Vec<Archive>) -> (r: Self)
        ensures
            r@ == archives@.map(|i: int, a: Archive| a@),
    {
        ArchiveList { archives }
    }

    /// Unwraps into the archives.
    pub fn into_vec(self) -> (r: Vec<Archive>)
        ensures
            r@.map(|i: int, a: Archive| a@) == self@,
    {
        self.archives
    }
}

/// Copies the 512-byte block at `pos` out of the stream.
fn copy_block(data: &Vec<u8>, pos: usize) -> (r: Vec<u8>)
    requires
        pos + 512 <= data@.len(),
    ensures
        r@ == data@.subrange(pos as int, pos + 512),
{
    let n = data.len();
    let mut out: Vec<u8> = Vec::new();
    let mut k: usize = 0;
    while k < 512
        invariant
            k <= 512,
            pos + 512 <= n == data@.len(),
            out@ == data@.subrange(pos as int, pos + k),
        decreases 512 - k,
    {
        out.push(data[pos + k]);
        assert(out@ =~= data@.subrange(pos as int, pos + k + 1));
        k = k + 1;
    }
    out
}

/// Checks whether the 512-byte block at `pos` is all zero.
fn block_is_zero(data: &Vec<u8>, pos: usize) -> (r: bool)
    requires
        pos + 512 <= data@.len(),
    ensures
        r == is_zero_block(data@, pos as int),
{
    let n = data.len();
    let mut k: usize = 0;
    while k < 512
        invariant
            k <= 512,
            pos + 512 <= n == data@.len(),
            forall|j: int| pos <= j < pos + k ==> data@[j] == 0,
        decreases 512 - k,
    {
        if data[pos + k] != 0 {
            return false;
        }
        k = k + 1;
    }
    true
}

/// The member list of a successful scan outcome, empty otherwise.
pub open spec fn good_members(r: SpecScan) -> Seq<MemberView> {
    match r {
        SpecScan::Good(ms, _) => ms,
        SpecScan::Bad => Seq::empty(),
    }
}

/// Joins members found so far with the outcome of the rest of the scan.
pub open spec fn scan_prepend(ms: Seq<MemberView>, rest: SpecScan) -> SpecScan {
    match rest {
        SpecScan::Good(more, st) => SpecScan::Good(ms + more, st),
        SpecScan::Bad => SpecScan::Bad,
    }
}

impl Archive {
    /// Scans one archive stream block by block, yielding the members in
    /// stream order and the state the scan ended in, or an invalid
    /// archive where a block is truncated or a data region runs past the
    /// end of the stream.
    pub fn scan(data: &Vec<u8>) -> (r: Result<(Archive, ScanState), TarError>)
        ensures
            match scan_spec(data@) {
                SpecScan::Good(ms, st) => r matches Ok((a, got)) && a@ == ms && got == st,
                SpecScan::Bad => r matches Err(e) && e matches TarError::InvalidArchive(_),
            },
    {
        let n = data.len();
        let mut members: Vec<Member> = Vec::new();
        let mut pos: usize = 0;
        let mut seen_zero: bool = false;
        loop
            invariant
                pos <= n,
                n == data@.len(),
                scan_spec(data@) == scan_prepend(
                    members_view(members@),
                    scan_from(data@, pos as int, seen_zero),
                ),
            ensures
                scan_spec(data@) == scan_prepend(
                    members_view(members@),
                    scan_from(data@, pos as int, seen_zero),
                ),
                pos == n || (pos < n && n - pos < 512) || (pos + 512 <= n && is_zero_block(
                    data@,
                    pos as int,
                ) && seen_zero),
            decreases n - pos,
        {
            if pos == n {
                break ;
            }
            if n - pos < 512 {
                break ;
            }
            if block_is_zero(data, pos) {
                if seen_zero {
                    break ;
                }
                assert(scan_from(data@, pos as int, false) == scan_from(data@, pos + 512, true));
                seen_zero = true;
                pos = pos + 512;
            } else {
                let block = copy_block(data, pos);
                let header = match Header::parse(block.as_slice()) {
                    Ok(h) => h,
                    Err(e) => {
                        return Err(TarError::InvalidArchive(
                            "cannot decode header block".to_owned(),
                        ));
                    },
                };
                let size = header.size();
                let avail = n - pos - 512;
                if size > avail {
                    assert(seek_len(size as nat) >= size as nat);
                    return Err(TarError::InvalidArchive(
                        "member data runs past end of stream".to_owned(),
                    ));
                }
                let seek = seek_exec(size);
                if seek > avail {
                    return Err(TarError::InvalidArchive(
                        "member data runs past end of stream".to_owned(),
                    ));
                }
                let ghost old_members = members_view(members@);
                members.push(Member::new(header, pos, pos + 512));
                proof {
                    assert(members_view(members@) =~= old_members + seq![
                        MemberView {
                            header: decode_spec(data@.subrange(pos as int, pos + 512)),
                            header_start: pos as int,
                            data_start: pos + 512,
                        },
                    ]);
                    lemma_scan_prepend_assoc(
                        old_members,
                        decode_spec(data@.subrange(pos as int, pos + 512)),
                        data@,
                        pos as int,
                        seen_zero,
                    );
                }
                pos = pos + 512 + seek;
                seen_zero = false;
            }
        }
        if pos == n {
            let st = if seen_zero {
                ScanState::SawOneZeroBlock
            } else {
                ScanState::ExpectHeaderOrZero
            };
            assert(scan_from(data@, pos as int, seen_zero) == SpecScan::Good(
                Seq::<MemberView>::empty(),
                st,
            ));
            assert(members_view(members@) + Seq::<MemberView>::empty() =~= members_view(
                members@,
            ));
            Ok((Archive::new(members), st))
        } else if n - pos < 512 {
            assert(scan_from(data@, pos as int, seen_zero) is Bad);
            Err(TarError::InvalidArchive("truncated block at end of stream".to_owned()))
        } else {
            assert(scan_from(data@, pos as int, seen_zero) == SpecScan::Good(
                Seq::<MemberView>::empty(),
                ScanState::Terminated,
            ));
            assert(members_view(members@) + Seq::<MemberView>::empty() =~= members_view(
                members@,
            ));
            Ok((Archive::new(members), ScanState::Terminated))
        }
    }
}

/// Pushing a freshly found member onto the accumulator commutes with
/// prepending it inside the remaining scan.
proof fn lemma_scan_prepend_assoc(
    ms: Seq<MemberView>,
    h: HeaderView,
    data: Seq<u8>,
    pos: int,
    z: bool,
)
    requires
        0 <= pos,
        pos + 512 <= data.len(),
        !is_zero_block(data, pos),
        h == decode_spec(data.subrange(pos, pos + 512)),
        pos + 512 + seek_len(h.size as nat) <= data.len(),
    ensures
        scan_prepend(ms, scan_from(data, pos, z)) == scan_prepend(
            ms + seq![MemberView { header: h, header_start: pos, data_start: pos + 512 }],
            scan_from(data, pos + 512 + seek_len(h.size as nat), false),
        ),
{
    let one = seq![MemberView { header: h, header_start: pos, data_start: pos + 512 }];
    match scan_from(data, pos + 512 + seek_len(h.size as nat), false) {
        SpecScan::Good(more, st) => {
            assert(scan_from(data, pos, z) == SpecScan::Good(one + more, st));
            assert(ms + (one + more) =~= (ms + one) + more);
        },
        SpecScan::Bad => {
            assert(scan_from(data, pos, z) == SpecScan::Bad);
        },
    }
}

/// The scanner's advance past a member's header, computed.
pub fn seek_exec(size: usize) -> (r: usize)
    requires
        size + 512 <= usize::MAX,
    ensures
        r == seek_len(size as nat),
{
    let base: usize = if size < 512 {
        512
    } else {
        size
    };
    let rem = base % 512;
    if rem == 0 {
        base
    } else {
        base + (512 - rem)
    }
}


impl Archive {
    /// Scans one archive stream, keeping only the member list.
    pub fn read_archive(data: &Vec<u8>) -> (r: Result<Archive, TarError>)
        ensures
            match scan_spec(data@) {
                SpecScan::Good(ms, st) => r matches Ok(a) && a@ == ms,
                SpecScan::Bad => r matches Err(e) && e matches TarError::InvalidArchive(_),
            },
    {
        match Archive::scan(data) {
            Ok((archive, _)) => Ok(archive),
            Err(e) => Err(e),
        }
    }

    /// Scans several archive streams, in the order given.
    pub fn read_archives(streams: &Vec<Vec<u8>>) -> (r: Result<ArchiveList, TarError>)
        ensures
            match r {
                Ok(al) => {
                    &&& al@.len() == streams@.len()
                    &&& forall|i: int|
                        0 <= i < streams@.len() ==> #[trigger] scan_spec(streams@[i]@) is Good
                    &&& forall|i: int|
                        0 <= i < streams@.len() ==> #[trigger] al@[i] == good_members(
                            scan_spec(streams@[i]@),
                        )
                },
                Err(e) => (exists|i: int|
                    0 <= i < streams@.len() && #[trigger] scan_spec(streams@[i]@) is Bad) && e
                    matches TarError::InvalidArchive(_),
            },
    {
        let mut archives: Vec<Archive> = Vec::new();
        let n = streams.len();
        let mut i: usize = 0;
        while i < n
            invariant
                i <= n,
                n == streams@.len(),
                archives@.len() == i,
                forall|j: int| 0 <= j < i ==> #[trigger] scan_spec(streams@[j]@) is Good,
                forall|j: int|
                    0 <= j < i ==> #[trigger] archives@[j]@ == good_members(
                        scan_spec(streams@[j]@),
                    ),
            decreases n - i,
        {
            let ghost old_archives = archives@;
            match Archive::read_archive(&streams[i]) {
                Ok(a) => {
                    assert(scan_spec(streams@[i as int]@) is Good);
                    assert(a@ == good_members(scan_spec(streams@[i as int]@)));
                    archives.push(a);
                    assert(archives@[i as int]@ == good_members(scan_spec(streams@[i as int]@)));
                    assert forall|j: int|
                        0 <= j < i + 1 implies #[trigger] scan_spec(streams@[j]@) is Good by {
                        if j < i {
                            assert(scan_spec(streams@[j]@) is Good);
                        }
                    }
                    assert forall|j: int|
                        0 <= j < i + 1 implies #[trigger] archives@[j]@ == good_members(
                            scan_spec(streams@[j]@),
                        ) by {
                        if j < i {
                            assert(archives@[j] == old_archives[j]);
                            assert(old_archives[j]@ == good_members(scan_spec(streams@[j]@)));
                        }
                    }
                },
                Err(e) => {
                    return Err(e);
                },
            }
            i = i + 1;
        }
        let list = ArchiveList::new(archives);
        assert(forall|j: int|
            0 <= j < n ==> #[trigger] list@[j] == archives@[j]@);
        Ok(list)
    }
}

} // verus!
