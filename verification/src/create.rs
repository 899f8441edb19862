//! The archive builder: given the inputs in order — each either found,
//! with its kind, bytes and metadata, or missing — it renders the whole
//! archive byte stream: one header block per member, the member's bytes,
//! NUL padding to the block boundary the scanner will seek to, and the
//! two all-zero trailer blocks.  An empty input list is refused before
//! anything is produced, and a missing input fails with not-found.

use vstd::prelude::*;
use crate::errors::TarError;
use crate::fields::{check_valid_text, pow8, push_zeros, valid_text, zeros};
use crate::header::{
    encode_spec, header_wf, lemma_new_ustar_wf, Header, HeaderView, TarType,
};
use crate::normalize::{normalize, normalize_spec};
use crate::scanner::{seek_exec, seek_len};

verus! {

/// The mathematical content of one found input.
pub struct EntryDataView {
    pub is_dir: bool,
    pub content: Seq<u8>,
    pub mode: u16,
    pub uid: u32,
    pub gid: u32,
    pub mtime: i64,
}

/// What the filesystem gave for one found input: its kind, its exact
/// bytes (empty for a directory), and the metadata the header records.
#[derive(Debug)]
pub struct EntryData {
    pub is_dir: bool,
    pub content: Vec<u8>,
    pub mode: u16,
    pub uid: u32,
    pub gid: u32,
    pub mtime: i64,
}

impl View for EntryData {
    type V = EntryDataView;

    open spec fn view(&self) -> EntryDataView {
        EntryDataView {
            is_dir: self.is_dir,
            content: self.content@,
            mode: self.mode,
            uid: self.uid,
            gid: self.gid,
            mtime: self.mtime,
        }
    }
}

/// The mathematical content of one input: its path as given, and its
/// data where the path exists.
pub struct InputEntryView {
    pub path: Seq<char>,
    pub data: Option<EntryDataView>,
}

/// One input to archive: the path as the user gave it, and what the
/// filesystem holds there — nothing, where the path does not exist.
#[derive(Debug)]
pub struct InputEntry {
    pub path: String,
    pub data: Option<EntryData>,
}

impl View for InputEntry {
    type V = InputEntryView;

    open spec fn view(&self) -> InputEntryView {
        InputEntryView {
            path: self.path@,
            data: match self.data {
                Some(d) => Some(d@),
                None => None,
            },
        }
    }
}

/// The views of a list of inputs, in order.
pub open spec fn input_views(es: Seq<InputEntry>) -> Seq<InputEntryView> {
    es.map(|i: int, e: InputEntry| e@)
}

/// The data of a found input; a missing one reads as an empty file.
pub open spec fn entry_data(e: InputEntryView) -> EntryDataView {
    match e.data {
        Some(d) => d,
        None => EntryDataView {
            is_dir: false,
            content: Seq::empty(),
            mode: 0,
            uid: 0,
            gid: 0,
            mtime: 0,
        },
    }
}

/// The header the builder writes for one input: the normalized member
/// name, the input's metadata, kind directory or normal, and the ustar
/// constants.
pub open spec fn entry_header(e: InputEntryView) -> HeaderView {
    let d = entry_data(e);
    HeaderView {
        name: normalize_spec(e.path),
        mode: d.mode,
        uid: d.uid,
        gid: d.gid,
        size: d.content.len() as usize,
        mtime: d.mtime,
        chksum: 0,
        typeflag: if d.is_dir {
            TarType::Directory
        } else {
            TarType::Normal
        },
        linkname: Seq::empty(),
        magic: Some("ustar "@),
        version: Some(0u16),
        uname: Some(Seq::empty()),
        gname: Some(Seq::empty()),
        devmajor: Some(0usize),
        devminor: Some(0usize),
        prefix: Some(Seq::empty()),
        star_prefix: Some(Seq::empty()),
        atime: Some(0i64),
        ctime: Some(0i64),
    }
}

/// An input the builder can archive: it was found, its path is NUL-free
/// ASCII, its normalized name is non-empty and fits the name field, and
/// its size, time and ownership fit their octal digit runs.
pub open spec fn entry_ready(e: InputEntryView) -> bool {
    &&& e.data is Some
    &&& valid_text(e.path)
    &&& e.path.len() + 2 <= usize::MAX
    &&& valid_text(normalize_spec(e.path))
    &&& 1 <= normalize_spec(e.path).len() <= 100
    &&& entry_data(e).content.len() < pow8(11)
    &&& entry_data(e).content.len() + 2048 <= usize::MAX
    &&& 0 <= entry_data(e).mtime && (entry_data(e).mtime as nat) < pow8(11)
    &&& (entry_data(e).uid as nat) < pow8(7)
    &&& (entry_data(e).gid as nat) < pow8(7)
}

/// A member's data region: its bytes, NUL-padded out to the length the
/// scanner seeks past.
pub open spec fn data_region(content: Seq<u8>) -> Seq<u8> {
    content + zeros((seek_len(content.len()) - content.len()) as nat)
}

/// The bytes one input contributes to the archive: its encoded header
/// block, then its padded data region.
pub open spec fn member_image(e: InputEntryView) -> Seq<u8> {
    encode_spec(entry_header(e)) + data_region(entry_data(e).content)
}

/// The member images of the inputs, in order.
pub open spec fn images(entries: Seq<InputEntryView>) -> Seq<u8>
    decreases entries.len(),
{
    if entries.len() == 0 {
        Seq::empty()
    } else {
        member_image(entries[0]) + images(entries.drop_first())
    }
}

/// The whole archive stream the builder writes: every member image in
/// input order, then the two all-zero trailer blocks.
pub open spec fn archive_image(entries: Seq<InputEntryView>) -> Seq<u8> {
    images(entries) + zeros(1024)
}

/// Taking one more input appends exactly its member image.
pub proof fn lemma_images_snoc(es: Seq<InputEntryView>, i: int)
    requires
        0 <= i < es.len(),
    ensures
        images(es.take(i + 1)) == images(es.take(i)) + member_image(es[i]),
    decreases i,
{
    if i == 0 {
        assert(es.take(1) =~= seq![es[0]]);
        assert(es.take(1).len() == 1);
        assert(es.take(1)[0] == es[0]);
        assert(es.take(1).drop_first() =~= Seq::<InputEntryView>::empty());
        assert(images(es.take(1).drop_first()) == Seq::<u8>::empty());
        assert(images(es.take(1)) == member_image(es[0]) + Seq::<u8>::empty());
        assert(member_image(es[0]) + Seq::<u8>::empty() =~= member_image(es[0]));
        assert(images(es.take(0)) == Seq::<u8>::empty());
        assert(Seq::<u8>::empty() + member_image(es[0]) =~= member_image(es[0]));
    } else {
        let tail = es.drop_first();
        lemma_images_snoc(tail, i - 1);
        assert(es.take(i + 1).drop_first() =~= tail.take(i));
        assert(es.take(i).drop_first() =~= tail.take(i - 1));
        assert(es.take(i + 1)[0] == es[0]);
        assert(es.take(i)[0] == es[0]);
        assert(images(es.take(i + 1)) == member_image(es[0]) + images(tail.take(i)));
        assert(images(es.take(i)) == member_image(es[0]) + images(tail.take(i - 1)));
        assert(tail[i - 1] == es[i]);
        assert(member_image(es[0]) + (images(tail.take(i - 1)) + member_image(es[i]))
            =~= (member_image(es[0]) + images(tail.take(i - 1))) + member_image(es[i]));
    }
}

/// Checks whether the builder can archive an input that was found.
fn entry_ready_exec(e: &InputEntry) -> (r: bool)
    requires
        e.data is Some,
    ensures
        r == entry_ready(e@),
{
    proof {
        assert(pow8(11) == 8589934592 && pow8(7) == 2097152) by {
            reveal_with_fuel(pow8, 12);
        }
    }
    if !check_valid_text(e.path.as_str()) {
        return false;
    }
    proof {
        crate::fields::lemma_valid_text_is_ascii(e.path@);
        crate::fields::lemma_text_bytes_is_utf8(e.path@);
    }
    let path_len = e.path.as_str().as_bytes().len();
    assert(path_len == e.path@.len());
    if path_len > usize::MAX - 2 {
        return false;
    }
    let (name, _) = normalize(e.path.as_str());
    if !check_valid_text(name.as_str()) {
        return false;
    }
    proof {
        crate::fields::lemma_valid_text_is_ascii(name@);
        crate::fields::lemma_text_bytes_is_utf8(name@);
    }
    let name_len = name.as_str().as_bytes().len();
    assert(name_len == name@.len());
    if name_len < 1 || name_len > 100 {
        return false;
    }
    match &e.data {
        Some(d) => {
            let size = d.content.len();
            if size > usize::MAX - 2048 {
                return false;
            }
            if (size as u64) >= 8589934592u64 {
                return false;
            }
            if d.mtime < 0 || d.mtime >= 8589934592i64 {
                return false;
            }
            if d.uid >= 2097152u32 || d.gid >= 2097152u32 {
                return false;
            }
            true
        },
        None => false,
    }
}


/// Creates the archive byte stream from the inputs, in order: each
/// found input becomes one member (header, bytes, padding), and the
/// stream ends with the two all-zero trailer blocks.  An empty input
/// list is refused outright; the first missing input fails with
/// not-found; the first input whose path or metadata cannot be encoded
/// fails with an operation error.  Nothing is produced on failure.
pub fn create_archive(entries: &Vec<InputEntry>) -> (r: Result<Vec<u8>, TarError>)
    ensures
        match r {
            Ok(bytes) => {
                &&& entries@.len() > 0
                &&& forall|i: int|
                    0 <= i < entries@.len() ==> entry_ready(#[trigger] input_views(entries@)[i])
                &&& bytes@ == archive_image(input_views(entries@))
            },
            Err(e) => {
                ||| (entries@.len() == 0 && (e matches TarError::TarOperationError(m) && m@
                    == "refusing to create an empty archive"@))
                ||| (exists|i: int|
                    {
                        &&& 0 <= i < entries@.len()
                        &&& !entry_ready(#[trigger] input_views(entries@)[i])
                        &&& (forall|j: int|
                            0 <= j < i ==> entry_ready(#[trigger] input_views(entries@)[j]))
                        &&& (match input_views(entries@)[i].data {
                            Option::None => (e matches TarError::FileNotFound(p) && p@
                                == input_views(entries@)[i].path),
                            Option::Some(_) => e matches TarError::TarOperationError(_),
                        })
                    })
            },
        },
{
    let n = entries.len();
    if n == 0 {
        return Err(
            TarError::TarOperationError("refusing to create an empty archive".to_owned()),
        );
    }
    let mut i: usize = 0;
    while i < n
        invariant
            i <= n,
            n == entries@.len(),
            forall|j: int| 0 <= j < i ==> entry_ready(#[trigger] input_views(entries@)[j]),
        decreases n - i,
    {
        let e = &entries[i];
        assert(input_views(entries@)[i as int] == e@);
        match &e.data {
            None => {
                assert(!entry_ready(e@));
                return Err(TarError::FileNotFound(e.path.clone()));
            },
            Some(_) => {
                if !entry_ready_exec(e) {
                    return Err(
                        TarError::TarOperationError("cannot archive this entry".to_owned()),
                    );
                }
            },
        }
        i = i + 1;
    }
    let ghost evs = input_views(entries@);
    let mut out: Vec<u8> = Vec::new();
    assert(out@ =~= images(evs.take(0)));
    let mut k: usize = 0;
    while k < n
        invariant
            k <= n,
            n == entries@.len(),
            evs == input_views(entries@),
            forall|j: int| 0 <= j < n ==> entry_ready(#[trigger] evs[j]),
            out@ == images(evs.take(k as int)),
        decreases n - k,
    {
        let e = &entries[k];
        assert(evs[k as int] == e@);
        assert(entry_ready(e@));
        let (name, _stripped) = normalize(e.path.as_str());
        let ghost out0 = out@;
        match &e.data {
            Some(d) => {
                let tf = if d.is_dir {
                    TarType::Directory
                } else {
                    TarType::Normal
                };
                let size = d.content.len();
                let h = Header::new_ustar(name, d.mode, d.uid, d.gid, size, d.mtime, tf);
                assert(h@ == entry_header(e@));
                proof {
                    lemma_new_ustar_wf(h@);
                }
                let mut block = h.encode();
                out.append(&mut block);
                out.extend_from_slice(d.content.as_slice());
                let seek = seek_exec(size);
                assert(seek >= size);
                push_zeros(&mut out, seek - size);
                proof {
                    assert(out@ =~= out0 + member_image(e@));
                    lemma_images_snoc(evs, k as int);
                    assert(out@ =~= images(evs.take(k + 1)));
                }
            },
            None => {
                assert(false);
            },
        }
        k = k + 1;
    }
    assert(evs.take(n as int) =~= evs);
    push_zeros(&mut out, 1024);
    assert(out@ =~= archive_image(evs));
    Ok(out)
}

} // verus!
