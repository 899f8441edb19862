//! The laws that tie the builder, the scanner and the extractor
//! together: scanning an archive the builder wrote finds exactly the
//! members that were put in, terminates cleanly on the trailer, and
//! extraction gives back every member's name, kind and exact bytes.

use vstd::prelude::*;
use crate::create::{
    archive_image, data_region, entry_data, entry_header, entry_ready, images, member_image,
};
use crate::create::InputEntryView;
use crate::extract::{extract_of_members, ExtractEntryView};
use crate::fields::{lemma_oct_digits_props, zeros};
use crate::header::{
    chk_field, decode_spec, encode_spec, header_checksum, header_wf, lemma_decode_encode,
    lemma_encode_spec_regions, lemma_new_ustar_wf, HeaderView, TarType,
};
use crate::scanner::{
    is_zero_block, scan_from, scan_spec, seek_len, MemberView, ScanState, SpecScan,
};

verus! {

/// The header a scan reads back for a built member: the header the
/// builder laid out, with the stored checksum field holding the
/// computed block checksum.
pub open spec fn scanned_header(e: InputEntryView) -> HeaderView {
    HeaderView {
        chksum: header_checksum(entry_header(e)) as usize,
        ..entry_header(e)
    }
}

/// The members a scan of a built archive yields, with the first
/// header block at `base`.
pub open spec fn expected_members(entries: Seq<InputEntryView>, base: int) -> Seq<MemberView>
    decreases entries.len(),
{
    if entries.len() == 0 {
        Seq::empty()
    } else {
        seq![
            MemberView {
                header: scanned_header(entries[0]),
                header_start: base,
                data_start: base + 512,
            },
        ] + expected_members(
            entries.drop_first(),
            base + 512 + seek_len(entry_data(entries[0]).content.len()),
        )
    }
}

/// Member offsets moved by a fixed amount.
pub open spec fn shift_members(ms: Seq<MemberView>, off: int) -> Seq<MemberView> {
    Seq::new(
        ms.len(),
        |i: int|
            MemberView {
                header: ms[i].header,
                header_start: ms[i].header_start + off,
                data_start: ms[i].data_start + off,
            },
    )
}

/// A scan outcome with its member offsets moved by a fixed amount.
pub open spec fn shift_scan(r: SpecScan, off: int) -> SpecScan {
    match r {
        SpecScan::Good(ms, st) => SpecScan::Good(shift_members(ms, off), st),
        SpecScan::Bad => SpecScan::Bad,
    }
}

/// A header built from a ready input is well formed.
pub proof fn lemma_entry_header_wf(e: InputEntryView)
    requires
        entry_ready(e),
    ensures
        header_wf(entry_header(e)),
        entry_header(e).size == entry_data(e).content.len(),
        entry_header(e).typeflag.code_spec() < 8,
{
    let h = entry_header(e);
    assert(h.typeflag.code_spec() < 8);
    lemma_new_ustar_wf(h);
}

/// A built member's image: one header block plus a whole number of
/// data blocks, exactly what the scanner seeks past.
pub proof fn lemma_member_image_len(e: InputEntryView)
    requires
        entry_ready(e),
    ensures
        member_image(e).len() == 512 + seek_len(entry_data(e).content.len()),
        member_image(e).len() % 512 == 0,
        seek_len(entry_data(e).content.len()) % 512 == 0,
        entry_data(e).content.len() <= seek_len(entry_data(e).content.len()),
        data_region(entry_data(e).content).len() == seek_len(entry_data(e).content.len()),
        encode_spec(entry_header(e)).len() == 512,
{
    lemma_entry_header_wf(e);
    lemma_encode_spec_regions(entry_header(e));
    let n = entry_data(e).content.len();
    let base: nat = if n < 512 {
        512nat
    } else {
        n
    };
    if base % 512 != 0 {
        assert((base + (512 - base % 512)) % 512 == 0) by (nonlinear_arith)
            requires
                base % 512 != 0,
                0 <= base,
        ;
    }
    assert(data_region(entry_data(e).content).len() == seek_len(n));
}

/// Scanning past a prefix: the scan of a concatenation from a position
/// inside the second part sees exactly the second part's scan, with
/// every member offset moved by the prefix's length.
pub proof fn lemma_scan_shift(a: Seq<u8>, b: Seq<u8>, p: int, z: bool)
    requires
        0 <= p,
    ensures
        scan_from(a + b, a.len() + p, z) == shift_scan(scan_from(b, p, z), a.len() as int),
    decreases b.len() - p,
{
    let data = a + b;
    let base = a.len() as int;
    let pos = base + p;
    assert(data.len() == a.len() + b.len());
    if p >= b.len() {
        if p == b.len() {
            assert(shift_members(Seq::empty(), base) =~= Seq::<MemberView>::empty());
        }
    } else if p + 512 > b.len() {
    } else {
        assert forall|k: int| pos <= k < pos + 512 implies data[k] == b[k - base] by {}
        assert(is_zero_block(data, pos) == is_zero_block(b, p)) by {
            if is_zero_block(b, p) {
                assert forall|k: int| pos <= k < pos + 512 implies data[k] == 0 by {
                    assert(b[k - base] == 0);
                }
            }
            if is_zero_block(data, pos) {
                assert forall|k: int| p <= k < p + 512 implies b[k] == 0 by {
                    assert(data[base + k] == 0);
                }
            }
        }
        if is_zero_block(b, p) {
            if z {
                assert(shift_members(Seq::empty(), base) =~= Seq::<MemberView>::empty());
            } else {
                lemma_scan_shift(a, b, p + 512, true);
            }
        } else {
            assert(data.subrange(pos, pos + 512) =~= b.subrange(p, p + 512));
            let h = decode_spec(b.subrange(p, p + 512));
            let skip = seek_len(h.size as nat);
            if p + 512 + skip > b.len() {
            } else {
                lemma_scan_shift(a, b, p + 512 + skip, false);
                let mb = MemberView { header: h, header_start: p, data_start: p + 512 };
                let md = MemberView { header: h, header_start: pos, data_start: pos + 512 };
                match scan_from(b, p + 512 + skip, false) {
                    SpecScan::Good(ms, st) => {
                        assert(scan_from(b, p, z) == SpecScan::Good(seq![mb] + ms, st));
                        assert(scan_from(data, pos, z) == SpecScan::Good(
                            seq![md] + shift_members(ms, base),
                            st,
                        ));
                        assert(seq![md] + shift_members(ms, base) =~= shift_members(
                            seq![mb] + ms,
                            base,
                        ));
                    },
                    SpecScan::Bad => {},
                }
            }
        }
    }
}

/// Moving expected members is the same as expecting them further on.
pub proof fn lemma_expected_shift(entries: Seq<InputEntryView>, base: int, off: int)
    ensures
        shift_members(expected_members(entries, base), off) == expected_members(
            entries,
            base + off,
        ),
    decreases entries.len(),
{
    if entries.len() == 0 {
        assert(shift_members(Seq::empty(), off) =~= Seq::<MemberView>::empty());
    } else {
        let rest = entries.drop_first();
        let skip: int = seek_len(entry_data(entries[0]).content.len()) as int;
        lemma_expected_shift(rest, base + 512 + skip, off);
        assert(shift_members(expected_members(entries, base), off) =~= expected_members(
            entries,
            base + off,
        ));
    }
}

/// The expected members are one per input.
pub proof fn lemma_expected_len(entries: Seq<InputEntryView>, base: int)
    ensures
        expected_members(entries, base).len() == entries.len(),
        forall|i: int|
            0 <= i < entries.len() ==> #[trigger] expected_members(entries, base)[i].header
                == scanned_header(entries[i]),
    decreases entries.len(),
{
    if entries.len() > 0 {
        let rest = entries.drop_first();
        let skip: int = seek_len(entry_data(entries[0]).content.len()) as int;
        lemma_expected_len(rest, base + 512 + skip);
        assert(forall|i: int|
            1 <= i < entries.len() ==> #[trigger] expected_members(entries, base)[i]
                == expected_members(rest, base + 512 + skip)[i - 1]);
        assert(forall|i: int| 1 <= i < entries.len() ==> #[trigger] rest[i - 1] == entries[i]);
    }
}

/// A scan of two all-zero blocks terminates cleanly with no members.
pub proof fn lemma_scan_full_trailer()
    ensures
        scan_from(zeros(1024), 0, false) == SpecScan::Good(
            Seq::<MemberView>::empty(),
            ScanState::Terminated,
        ),
{
    let t = zeros(1024);
    assert(t.len() == 1024);
    assert forall|k: int| 0 <= k < 512 implies t[k] == 0 by {}
    assert(is_zero_block(t, 0));
    assert forall|k: int| 512 <= k < 1024 implies t[k] == 0 by {}
    assert(is_zero_block(t, 512));
    assert(scan_from(t, 512, true) == SpecScan::Good(
        Seq::<MemberView>::empty(),
        ScanState::Terminated,
    ));
}

/// A scan of a single all-zero block before the end of the stream ends
/// in the tolerated one-zero-block state, with no members.
pub proof fn lemma_scan_half_trailer()
    ensures
        scan_from(zeros(512), 0, false) == SpecScan::Good(
            Seq::<MemberView>::empty(),
            ScanState::SawOneZeroBlock,
        ),
{
    let t = zeros(512);
    assert(t.len() == 512);
    assert forall|k: int| 0 <= k < 512 implies t[k] == 0 by {}
    assert(is_zero_block(t, 0));
    assert(scan_from(t, 512, true) == SpecScan::Good(
        Seq::<MemberView>::empty(),
        ScanState::SawOneZeroBlock,
    ));
}


/// A built member's header block is not all zero: the checksum field
/// always ends with a space.
pub proof fn lemma_image_block_nonzero(e: InputEntryView)
    requires
        entry_ready(e),
    ensures
        encode_spec(entry_header(e))[155] == 32,
{
    let h = entry_header(e);
    lemma_entry_header_wf(e);
    lemma_encode_spec_regions(h);
    lemma_oct_digits_props(header_checksum(h) as nat, 6);
    let cf = chk_field(header_checksum(h) as nat);
    assert(cf.len() == 8);
    assert(cf[7] == 32);
    assert(encode_spec(h).subrange(148, 156)[7] == 32);
}

/// Scanning the stream the builder wrote for ready inputs, followed by
/// any trailer that scans to no members, yields exactly one member per
/// input, in input order, at the offsets the builder laid them, ending
/// in the trailer's state.
#[verifier::rlimit(100)]
pub proof fn lemma_scan_images(entries: Seq<InputEntryView>, trailer: Seq<u8>, st: ScanState)
    requires
        forall|i: int| 0 <= i < entries.len() ==> entry_ready(#[trigger] entries[i]),
        scan_from(trailer, 0, false) == SpecScan::Good(Seq::<MemberView>::empty(), st),
    ensures
        scan_from(images(entries) + trailer, 0, false) == SpecScan::Good(
            expected_members(entries, 0),
            st,
        ),
    decreases entries.len(),
{
    let data = images(entries) + trailer;
    if entries.len() == 0 {
        assert(images(entries) + trailer =~= trailer);
        assert(expected_members(entries, 0) =~= Seq::<MemberView>::empty());
    } else {
        let e0 = entries[0];
        assert(entry_ready(e0));
        let rest = entries.drop_first();
        assert(forall|i: int| 0 <= i < rest.len() ==> entry_ready(#[trigger] rest[i])) by {
            assert(forall|i: int| 0 <= i < rest.len() ==> #[trigger] rest[i] == entries[i + 1]);
        }
        let h = entry_header(e0);
        lemma_entry_header_wf(e0);
        lemma_decode_encode(h);
        lemma_member_image_len(e0);
        let mi = member_image(e0);
        let tail = images(rest) + trailer;
        assert(images(entries) == mi + images(rest));
        assert(data =~= mi + tail);
        let skip: int = seek_len(entry_data(e0).content.len()) as int;
        assert(mi.len() == 512 + skip);
        // the first block is the encoded header
        assert(data.subrange(0, 512) =~= encode_spec(h));
        lemma_image_block_nonzero(e0);
        assert(data[155] == 32);
        assert(!is_zero_block(data, 0));
        let hd = decode_spec(data.subrange(0, 512));
        assert(hd == decode_spec(encode_spec(h)));
        assert(hd == scanned_header(e0));
        assert(hd.size == entry_data(e0).content.len());
        assert(seek_len(hd.size as nat) == skip);
        assert(0 + 512 + skip <= data.len());
        // the rest of the stream is the remaining images and the trailer
        lemma_scan_shift(mi, tail, 0, false);
        assert(mi + tail == data);
        assert(mi.len() + 0 == 512 + skip);
        lemma_scan_images(rest, trailer, st);
        assert(scan_from(data, 512 + skip, false) == shift_scan(
            scan_from(tail, 0, false),
            mi.len() as int,
        ));
        lemma_expected_shift(rest, 0, 512 + skip);
        assert(scan_from(data, 512 + skip, false) == SpecScan::Good(
            expected_members(rest, 512 + skip),
            st,
        ));
        let m0 = MemberView { header: hd, header_start: 0, data_start: 512 };
        assert(scan_from(data, 0, false) == SpecScan::Good(
            seq![m0] + expected_members(rest, 512 + skip),
            st,
        ));
        assert(seq![m0] + expected_members(rest, 512 + skip) == expected_members(entries, 0));
    }
}

/// In the stream the builder wrote, each expected member's data region
/// holds exactly that input's bytes.
#[verifier::rlimit(100)]
pub proof fn lemma_image_contents(entries: Seq<InputEntryView>, trailer: Seq<u8>)
    requires
        forall|i: int| 0 <= i < entries.len() ==> entry_ready(#[trigger] entries[i]),
    ensures
        forall|i: int|
            0 <= i < entries.len() ==> (images(entries) + trailer).subrange(
                #[trigger] expected_members(entries, 0)[i].data_start,
                expected_members(entries, 0)[i].data_start + expected_members(
                    entries,
                    0,
                )[i].header.size,
            ) == entry_data(entries[i]).content,
    decreases entries.len(),
{
    let data = images(entries) + trailer;
    let ms = expected_members(entries, 0);
    lemma_expected_len(entries, 0);
    if entries.len() == 0 {
    } else {
        let e0 = entries[0];
        let rest = entries.drop_first();
        assert(forall|i: int| 0 <= i < rest.len() ==> entry_ready(#[trigger] rest[i])) by {
            assert(forall|i: int| 0 <= i < rest.len() ==> #[trigger] rest[i] == entries[i + 1]);
        }
        let h = entry_header(e0);
        lemma_member_image_len(e0);
        let mi = member_image(e0);
        let tail = images(rest) + trailer;
        assert(images(entries) == mi + images(rest));
        assert(data =~= mi + tail);
        let skip: int = seek_len(entry_data(e0).content.len()) as int;
        let content = entry_data(e0).content;
        // the first member's data region
        assert(ms[0].data_start == 512 && ms[0].header == scanned_header(e0));
        assert(ms[0].header.size == content.len());
        assert(data.subrange(512, 512 + content.len() as int) =~= content);
        // the remaining members, shifted past the first image
        lemma_image_contents(rest, trailer);
        lemma_expected_shift(rest, 0, 512 + skip);
        lemma_expected_len(rest, 0);
        let rms = expected_members(rest, 0);
        assert forall|i: int| 1 <= i < entries.len() implies data.subrange(
            #[trigger] ms[i].data_start,
            ms[i].data_start + ms[i].header.size,
        ) == entry_data(entries[i]).content by {
            assert(ms[i] == expected_members(rest, 512 + skip)[i - 1]);
            assert(expected_members(rest, 512 + skip) == shift_members(rms, 512 + skip));
            assert(ms[i].data_start == rms[i - 1].data_start + 512 + skip);
            assert(ms[i].header == rms[i - 1].header);
            assert(tail.subrange(
                rms[i - 1].data_start,
                rms[i - 1].data_start + rms[i - 1].header.size,
            ) == entry_data(rest[i - 1]).content);
            assert(0 <= rms[i - 1].data_start && rms[i - 1].data_start + rms[i - 1].header.size
                <= tail.len()) by {
                lemma_expected_bounds(rest, 0);
            }
            assert(data.subrange(ms[i].data_start, ms[i].data_start + ms[i].header.size)
                =~= tail.subrange(
                rms[i - 1].data_start,
                rms[i - 1].data_start + rms[i - 1].header.size,
            ));
            assert(rest[i - 1] == entries[i]);
        }
    }
}


/// Every expected member lies inside the images that produced it.
pub proof fn lemma_expected_bounds(entries: Seq<InputEntryView>, base: int)
    requires
        forall|i: int| 0 <= i < entries.len() ==> entry_ready(#[trigger] entries[i]),
        0 <= base,
    ensures
        forall|i: int|
            0 <= i < entries.len() ==> {
                let m = #[trigger] expected_members(entries, base)[i];
                &&& base <= m.header_start
                &&& m.data_start == m.header_start + 512
                &&& m.data_start + m.header.size <= base + images(entries).len()
            },
    decreases entries.len(),
{
    lemma_expected_len(entries, base);
    if entries.len() > 0 {
        let e0 = entries[0];
        let rest = entries.drop_first();
        assert(forall|i: int| 0 <= i < rest.len() ==> entry_ready(#[trigger] rest[i])) by {
            assert(forall|i: int| 0 <= i < rest.len() ==> #[trigger] rest[i] == entries[i + 1]);
        }
        lemma_member_image_len(e0);
        let skip: int = seek_len(entry_data(e0).content.len()) as int;
        lemma_expected_bounds(rest, base + 512 + skip);
        assert(images(entries) == member_image(e0) + images(rest));
        assert(images(entries).len() == 512 + skip + images(rest).len());
        let ms = expected_members(entries, base);
        assert(ms[0].header_start == base && ms[0].data_start == base + 512);
        assert(ms[0].header.size == entry_data(e0).content.len());
        assert(forall|i: int|
            1 <= i < entries.len() ==> #[trigger] ms[i] == expected_members(
                rest,
                base + 512 + skip,
            )[i - 1]);
    }
}


/// Round trip: extracting an archive the builder created from any set
/// of ready inputs — regular files and directories with their bytes —
/// reproduces every member with the same normalized name, the same
/// kind, and byte-for-byte identical content, in input order, and the
/// scan of that archive terminates cleanly.
pub proof fn lemma_round_trip(entries: Seq<InputEntryView>)
    requires
        forall|i: int| 0 <= i < entries.len() ==> entry_ready(#[trigger] entries[i]),
    ensures
        scan_spec(archive_image(entries)) == SpecScan::Good(
            expected_members(entries, 0),
            ScanState::Terminated,
        ),
        extract_of_members(archive_image(entries), expected_members(entries, 0)) == Seq::new(
            entries.len(),
            |i: int|
                ExtractEntryView {
                    name: crate::normalize::normalize_spec(entries[i].path),
                    typeflag: if entry_data(entries[i]).is_dir {
                        TarType::Directory
                    } else {
                        TarType::Normal
                    },
                    data: entry_data(entries[i]).content,
                },
        ),
{
    lemma_scan_full_trailer();
    lemma_scan_images(entries, zeros(1024), ScanState::Terminated);
    lemma_image_contents(entries, zeros(1024));
    lemma_expected_len(entries, 0);
    let data = archive_image(entries);
    let ms = expected_members(entries, 0);
    assert(data == images(entries) + zeros(1024));
    assert(extract_of_members(data, ms) =~= Seq::new(
        entries.len(),
        |i: int|
            ExtractEntryView {
                name: crate::normalize::normalize_spec(entries[i].path),
                typeflag: if entry_data(entries[i]).is_dir {
                    TarType::Directory
                } else {
                    TarType::Normal
                },
                data: entry_data(entries[i]).content,
            },
    )) by {
        assert forall|i: int| 0 <= i < entries.len() implies {
            &&& #[trigger] ms[i].header.name == crate::normalize::normalize_spec(entries[i].path)
            &&& ms[i].header.typeflag == (if entry_data(entries[i]).is_dir {
                TarType::Directory
            } else {
                TarType::Normal
            })
            &&& data.subrange(ms[i].data_start, ms[i].data_start + ms[i].header.size)
                == entry_data(entries[i]).content
        } by {
            assert(ms[i].header == scanned_header(entries[i]));
        }
    }
}

/// Termination detection: a scan over the members of any set of ready
/// inputs followed by exactly two all-zero blocks yields exactly one
/// member per input and the clean `Terminated` state, while the same
/// stream with only one trailing zero block yields the same members
/// and the tolerated end state.
pub proof fn lemma_termination_detection(entries: Seq<InputEntryView>)
    requires
        forall|i: int| 0 <= i < entries.len() ==> entry_ready(#[trigger] entries[i]),
    ensures
        expected_members(entries, 0).len() == entries.len(),
        scan_spec(images(entries) + zeros(1024)) == SpecScan::Good(
            expected_members(entries, 0),
            ScanState::Terminated,
        ),
        scan_spec(images(entries) + zeros(512)) == SpecScan::Good(
            expected_members(entries, 0),
            ScanState::SawOneZeroBlock,
        ),
{
    lemma_expected_len(entries, 0);
    lemma_scan_full_trailer();
    lemma_scan_images(entries, zeros(1024), ScanState::Terminated);
    lemma_scan_half_trailer();
    lemma_scan_images(entries, zeros(512), ScanState::SawOneZeroBlock);
}


/// Size field fidelity: for a member of any size the encoder can
/// express, the encoded size field decodes back to exactly that size.
pub proof fn lemma_size_field_fidelity(h: HeaderView)
    requires
        header_wf(h),
    ensures
        decode_spec(encode_spec(h)).size == h.size,
{
    lemma_decode_encode(h);
}

} // verus!
