//! The extraction planner: consumes the scanner's member list and turns
//! the archive bytes into the ordered list of entries to recreate on
//! disk, copying exactly `size` bytes from each member's data region.

use vstd::prelude::*;
use crate::errors::TarError;
use crate::header::TarType;
use crate::scanner::{
    good_members, scan_from, scan_spec, seek_len, Archive, MemberView, SpecScan,
};

verus! {

/// The mathematical content of one extracted entry.
pub struct ExtractEntryView {
    pub name: Seq<char>,
    pub typeflag: TarType,
    pub data: Seq<u8>,
}

/// One entry to recreate on disk: its in-archive path, its kind, and its
/// exact bytes.
#[derive(Debug)]
pub struct ExtractEntry {
    pub name: String,
    pub typeflag: TarType,
    pub data: Vec<u8>,
}

impl View for ExtractEntry {
    type V = ExtractEntryView;

    open spec fn view(&self) -> ExtractEntryView {
        ExtractEntryView { name: self.name@, typeflag: self.typeflag, data: self.data@ }
    }
}

/// The views of a list of extracted entries, in order.
pub open spec fn entries_view(es: Seq<ExtractEntry>) -> Seq<ExtractEntryView> {
    es.map(|i: int, e: ExtractEntry| e@)
}

/// What extraction yields for a member list over a stream: each member's
/// name and kind with exactly `size` bytes from its data region, in
/// archive order.
pub open spec fn extract_of_members(data: Seq<u8>, ms: Seq<MemberView>) -> Seq<ExtractEntryView> {
    Seq::new(
        ms.len(),
        |i: int|
            ExtractEntryView {
                name: ms[i].header.name,
                typeflag: ms[i].header.typeflag,
                data: data.subrange(
                    ms[i].data_start,
                    ms[i].data_start + ms[i].header.size,
                ),
            },
    )
}

/// Every member a successful scan yields lies inside the stream: its
/// data region starts one block past its header and ends, padding
/// included, at or before the end of the stream.
pub proof fn lemma_scan_members_bounds(data: Seq<u8>, pos: int, z: bool)
    requires
        scan_from(data, pos, z) is Good,
    ensures
        forall|i: int|
            0 <= i < good_members(scan_from(data, pos, z)).len() ==> {
                let m = #[trigger] good_members(scan_from(data, pos, z))[i];
                &&& 0 <= m.header_start
                &&& m.data_start == m.header_start + 512
                &&& m.header.size <= seek_len(m.header.size as nat)
                &&& m.data_start + seek_len(m.header.size as nat) <= data.len()
            },
    decreases data.len() - pos,
{
    let ms = good_members(scan_from(data, pos, z));
    if pos == data.len() {
    } else if pos + 512 > data.len() || pos < 0 {
    } else if crate::scanner::is_zero_block(data, pos) {
        if !z {
            lemma_scan_members_bounds(data, pos + 512, true);
        }
    } else {
        let h = crate::header::decode_spec(data.subrange(pos, pos + 512));
        let skip = seek_len(h.size as nat);
        if pos + 512 + skip <= data.len() {
            match scan_from(data, pos + 512 + skip, false) {
                SpecScan::Good(rest, st) => {
                    lemma_scan_members_bounds(data, pos + 512 + skip, false);
                    assert(forall|i: int| 0 <= i < rest.len() ==> ms[i + 1] == rest[i]);
                },
                SpecScan::Bad => {},
            }
        }
    }
}

/// Extracts from an archive stream: scans it and copies each member's
/// exact byte range, in archive order.  Arbitrary non-archive bytes fail
/// with an invalid-archive error and yield no entries.
pub fn extract_archive(data: &Vec<u8>) -> (r: Result<Vec<ExtractEntry>, TarError>)
    ensures
        match scan_spec(data@) {
            SpecScan::Good(ms, st) => r matches Ok(es) && entries_view(es@)
                == extract_of_members(data@, ms),
            SpecScan::Bad => r matches Err(e) && e matches TarError::InvalidArchive(_),
        },
{
    let archive = match Archive::scan(data) {
        Ok((a, _)) => a,
        Err(e) => {
            return Err(e);
        },
    };
    proof {
        lemma_scan_members_bounds(data@, 0, false);
    }
    let ghost ms = good_members(scan_spec(data@));
    let members = archive.members();
    let n = members.len();
    assert(n == ms.len()) by {
        assert(crate::scanner::members_view(members@) == ms);
    }
    let n_data = data.len();
    let mut out: Vec<ExtractEntry> = Vec::new();
    let mut i: usize = 0;
    while i < n
        invariant
            i <= n,
            n == ms.len(),
            n_data == data@.len(),
            crate::scanner::members_view(members@) == ms,
            members@.len() == n,
            scan_spec(data@) is Good,
            ms == good_members(scan_spec(data@)),
            entries_view(out@) == extract_of_members(data@, ms).take(i as int),
        decreases n - i,
    {
        proof {
            lemma_scan_members_bounds(data@, 0, false);
            assert(scan_spec(data@) == scan_from(data@, 0, false));
        }
        assert(members@[i as int]@ == ms[i as int]);
        let m = &members[i];
        let ds = m.data_start();
        let size = m.header().size();
        assert(ms[i as int].data_start + seek_len(ms[i as int].header.size as nat)
            <= data@.len());
        assert(ds + size <= n_data);
        let name_str = m.header().name();
        let name = name_str.to_owned();
        let tf = m.header().typeflag();
        let mut content: Vec<u8> = Vec::new();
        let mut k: usize = 0;
        while k < size
            invariant
                k <= size,
                ds + size <= n_data == data@.len(),
                content@ == data@.subrange(ds as int, ds + k),
            decreases size - k,
        {
            content.push(data[ds + k]);
            assert(content@ =~= data@.subrange(ds as int, ds + k + 1));
            k = k + 1;
        }
        let entry = ExtractEntry { name, typeflag: tf, data: content };
        assert(entry@ == extract_of_members(data@, ms)[i as int]);
        let ghost old_out = out@;
        proof {
            assert(entries_view(old_out).len() == old_out.len());
            assert(extract_of_members(data@, ms).take(i as int).len() == i);
            assert(old_out.len() == i);
            assert(forall|j: int|
                0 <= j < i ==> #[trigger] entries_view(old_out)[j] == old_out[j]@);
        }
        out.push(entry);
        proof {
            assert(forall|j: int| 0 <= j < i ==> #[trigger] out@[j] == old_out[j]);
            assert(forall|j: int|
                0 <= j < out@.len() ==> #[trigger] entries_view(out@)[j] == out@[j]@);
            assert(entries_view(out@) =~= extract_of_members(data@, ms).take(i + 1));
        }
        i = i + 1;
    }
    assert(extract_of_members(data@, ms).take(n as int) =~= extract_of_members(data@, ms));
    Ok(out)
}

} // verus!
