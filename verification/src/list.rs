//! The listing formatter: renders one line per member, in archive
//! order — the name alone, or permissions, owner, size, date and name
//! when verbose.

use vstd::prelude::*;
use crate::header::{Header, HeaderView};
use crate::scanner::Archive;
use crate::strings::{dec_digits, push_char};
use crate::time::{format_zoned, TS_MAX_SECOND, TS_MIN_SECOND};
use vstd::string::StringExecFns;

verus! {

/// The three permission characters of one mode digit, laid over the
/// given defaults: `r`, `w` and `x` appear where the digit's bits are
/// set.
pub open spec fn rwx_chars(mode: u32, defaults: Seq<char>) -> Seq<char>
    recommends
        defaults.len() == 3,
{
    seq![
        if mode & 4 > 0 {
            'r'
        } else {
            defaults[0]
        },
        if mode & 2 > 0 {
            'w'
        } else {
            defaults[1]
        },
        if mode & 1 > 0 {
            'x'
        } else {
            defaults[2]
        },
    ]
}

/// The ten permission characters of a mode value.
pub open spec fn perm_chars(mode: u32) -> Seq<char> {
    let dashes = seq!['-', '-', '-'];
    seq![
        if mode == 0 || mode > 1000 {
            'd'
        } else {
            '-'
        },
    ] + rwx_chars(mode / 100, dashes) + rwx_chars((mode / 10) % 10, dashes) + rwx_chars(
        mode % 10,
        dashes,
    )
}

/// Writes to a supplied buffer the character representation of a single
/// standard mode digit: feeding the buffer in lets the caller choose
/// the default characters.
pub fn mode_octal_to_string(mode: u32, buf: &mut Vec<char>)
    requires
        old(buf)@.len() >= 3,
    ensures
        final(buf)@.len() == old(buf)@.len(),
        final(buf)@[0] == rwx_chars(mode, old(buf)@.take(3))[0],
        final(buf)@[1] == rwx_chars(mode, old(buf)@.take(3))[1],
        final(buf)@[2] == rwx_chars(mode, old(buf)@.take(3))[2],
        forall|j: int| 3 <= j < old(buf)@.len() ==> final(buf)@[j] == old(buf)@[j],
{
    if mode & 4 > 0 {
        buf[0] = 'r';
    }
    if mode & 2 > 0 {
        buf[1] = 'w';
    }
    if mode & 1 > 0 {
        buf[2] = 'x';
    }
}

/// Renders a mode value as the ten-character permission string shown in
/// a verbose listing.
pub fn format_perms(mode: u32) -> (r: String)
    ensures
        r@ == perm_chars(mode),
{
    let mut first: char = '-';
    // the directory heuristic: a zero mode or one above a thousand
    if mode == 0 || mode > 1000 {
        first = 'd';
    }
    let mut s = String::new();
    push_char(&mut s, first);
    let digits: [u32; 3] = [mode / 100, (mode / 10) % 10, mode % 10];
    let mut d: usize = 0;
    while d < 3
        invariant
            d <= 3,
            digits[0] == mode / 100,
            digits[1] == (mode / 10) % 10,
            digits[2] == mode % 10,
            s@ == seq![
                if mode == 0 || mode > 1000 {
                    'd'
                } else {
                    '-'
                },
            ] + (if d >= 1 {
                rwx_chars(mode / 100, seq!['-', '-', '-'])
            } else {
                Seq::<char>::empty()
            }) + (if d >= 2 {
                rwx_chars((mode / 10) % 10, seq!['-', '-', '-'])
            } else {
                Seq::<char>::empty()
            }) + (if d >= 3 {
                rwx_chars(mode % 10, seq!['-', '-', '-'])
            } else {
                Seq::<char>::empty()
            }),
        decreases 3 - d,
    {
        let v = digits[d];
        let mut buf: Vec<char> = Vec::new();
        buf.push('-');
        buf.push('-');
        buf.push('-');
        assert(buf@.take(3) =~= seq!['-', '-', '-']);
        mode_octal_to_string(v, &mut buf);
        assert(buf@ =~= rwx_chars(v, seq!['-', '-', '-']));
        let ghost before = s@;
        push_char(&mut s, buf[0]);
        push_char(&mut s, buf[1]);
        push_char(&mut s, buf[2]);
        assert(s@ =~= before + rwx_chars(v, seq!['-', '-', '-']));
        d = d + 1;
        proof {
            if d == 1 {
                assert(v == mode / 100);
            } else if d == 2 {
                assert(v == (mode / 10) % 10);
            } else {
                assert(v == mode % 10);
            }
            assert(s@ =~= seq![
                if mode == 0 || mode > 1000 {
                    'd'
                } else {
                    '-'
                },
            ] + (if d >= 1 {
                rwx_chars(mode / 100, seq!['-', '-', '-'])
            } else {
                Seq::<char>::empty()
            }) + (if d >= 2 {
                rwx_chars((mode / 10) % 10, seq!['-', '-', '-'])
            } else {
                Seq::<char>::empty()
            }) + (if d >= 3 {
                rwx_chars(mode % 10, seq!['-', '-', '-'])
            } else {
                Seq::<char>::empty()
            }));
        }
    }
    assert(s@ =~= perm_chars(mode));
    s
}

/// A run of spaces, as characters.
pub open spec fn space_chars(n: nat) -> Seq<char> {
    Seq::new(n, |i: int| ' ')
}

/// The owner and group texts a verbose line shows: the symbolic names
/// where the header carries both and neither is empty, the numeric ids
/// otherwise.
pub open spec fn owner_group_texts(h: HeaderView) -> (Seq<char>, Seq<char>) {
    match (h.uname, h.gname) {
        (Some(un), Some(gn)) => {
            if un.len() > 0 && gn.len() > 0 {
                (un, gn)
            } else {
                (dec_digits(h.uid as nat), dec_digits(h.gid as nat))
            }
        },
        _ => (dec_digits(h.uid as nat), dec_digits(h.gid as nat)),
    }
}

/// The verbose listing line of a header, given the rendered time text:
/// permissions, owner/group, padding that grows the owner-group-size
/// span to its minimum width, size, time, and name.
pub open spec fn verbose_line(h: HeaderView, time: Seq<char>) -> Seq<char> {
    let (u, g) = owner_group_texts(h);
    let size_str = dec_digits(h.size as nat);
    let used = u.len() + 1 + g.len() + 1 + size_str.len();
    let pad: nat = if used <= 19 {
        (19 - used) as nat
    } else {
        0nat
    };
    perm_chars(h.mode as u32) + seq![' '] + u + seq!['/'] + g + space_chars(pad + 1) + size_str
        + seq![' '] + time + seq![' '] + h.name
}

/// Renders the verbose listing line for a header and an already
/// rendered time text.
#[verifier::rlimit(60)]
pub fn format_entry_line(header: &Header, time: &str) -> (r: String)
    ensures
        r@ == verbose_line(header@, time@),
{
    let mut s = format_perms(header.mode() as u32);
    push_char(&mut s, ' ');
    let mut u_val: String;
    let mut g_val: String;
    match (header.uname(), header.gname()) {
        (Some(un), Some(gn)) => {
            if !un.as_str().is_empty() && !gn.as_str().is_empty() {
                u_val = un.clone();
                g_val = gn.clone();
            } else {
                u_val = crate::strings::u64_to_decimal(header.uid() as u64);
                g_val = crate::strings::u64_to_decimal(header.gid() as u64);
            }
        },
        _ => {
            u_val = crate::strings::u64_to_decimal(header.uid() as u64);
            g_val = crate::strings::u64_to_decimal(header.gid() as u64);
        },
    }
    assert((u_val@, g_val@) == owner_group_texts(header@));
    let size_str = crate::strings::u64_to_decimal(header.size() as u64);
    let u_len = u_val.as_str().unicode_len();
    let g_len = g_val.as_str().unicode_len();
    let s_len = size_str.as_str().unicode_len();
    let pad: usize = if u_len < 20 && g_len < 20 && s_len < 20 {
        let used = u_len + 1 + g_len + 1 + s_len;
        if used <= 19 {
            19 - used
        } else {
            0
        }
    } else {
        0
    };
    assert(pad == ({
        let used = u_val@.len() + 1 + g_val@.len() + 1 + size_str@.len();
        if used <= 19 {
            (19 - used) as nat
        } else {
            0nat
        }
    }));
    s.append(u_val.as_str());
    push_char(&mut s, '/');
    s.append(g_val.as_str());
    let mut sp: usize = 0;
    let ghost before_pad = s@;
    while sp < pad + 1
        invariant
            sp <= pad + 1,
            pad <= 19,
            s@ == before_pad + space_chars(sp as nat),
        decreases pad + 1 - sp,
    {
        push_char(&mut s, ' ');
        assert(s@ =~= before_pad + space_chars((sp + 1) as nat));
        sp = sp + 1;
    }
    s.append(size_str.as_str());
    push_char(&mut s, ' ');
    s.append(time);
    push_char(&mut s, ' ');
    s.append(header.name());
    assert(s@ =~= verbose_line(header@, time@));
    s
}


/// A line that is the verbose rendering of the given header, for some
/// rendered time text.
pub open spec fn is_verbose_line_of(line: Seq<char>, h: HeaderView) -> bool {
    exists|t: Seq<char>| line == verbose_line(h, t)
}

/// Lists an archive's members, in archive order: one line per member,
/// the name alone, or the full verbose line.  The canonical listing
/// order is the member order, whether or not the listing is verbose.
pub fn list_lines(archive: &Archive, verbose: bool) -> (r: Vec<String>)
    requires
        forall|i: int|
            0 <= i < archive@.len() ==> TS_MIN_SECOND <= #[trigger] archive@[i].header.mtime
                <= TS_MAX_SECOND,
    ensures
        r@.len() == archive@.len(),
        !verbose ==> forall|i: int|
            0 <= i < archive@.len() ==> #[trigger] r@[i]@ == archive@[i].header.name,
        verbose ==> forall|i: int|
            0 <= i < archive@.len() ==> #[trigger] is_verbose_line_of(
                r@[i]@,
                archive@[i].header,
            ),
{
    let members = archive.members();
    let n = members.len();
    assert(n == archive@.len()) by {
        assert(crate::scanner::members_view(members@) == archive@);
    }
    let mut lines: Vec<String> = Vec::new();
    let ghost mut times: Seq<Seq<char>> = Seq::empty();
    let mut i: usize = 0;
    while i < n
        invariant
            i <= n,
            n == members@.len() == archive@.len(),
            crate::scanner::members_view(members@) == archive@,
            lines@.len() == i,
            times.len() == i,
            forall|j: int|
                0 <= j < archive@.len() ==> TS_MIN_SECOND <= #[trigger] archive@[j].header.mtime
                    <= TS_MAX_SECOND,
            !verbose ==> forall|j: int|
                0 <= j < i ==> #[trigger] lines@[j]@ == archive@[j].header.name,
            verbose ==> forall|j: int|
                0 <= j < i ==> #[trigger] lines@[j]@ == verbose_line(
                    archive@[j].header,
                    times[j],
                ),
        decreases n - i,
    {
        assert(members@[i as int]@ == archive@[i as int]);
        let m = &members[i];
        let ghost old_lines = lines@;
        if verbose {
            let zoned = m.header().mtime_zoned();
            let time = format_zoned(&zoned);
            let line = format_entry_line(m.header(), time.as_str());
            lines.push(line);
            proof {
                times = times.push(time@);
            }
            assert(lines@[i as int]@ == verbose_line(archive@[i as int].header, time@));
        } else {
            let line = m.header().name().to_owned();
            lines.push(line);
            proof {
                times = times.push(Seq::empty());
            }
            assert(lines@[i as int]@ == archive@[i as int].header.name);
        }
        assert(forall|j: int| 0 <= j < i ==> #[trigger] lines@[j] == old_lines[j]);
        i = i + 1;
    }
    proof {
        if verbose {
            assert forall|j: int| 0 <= j < archive@.len() implies #[trigger] is_verbose_line_of(
                lines@[j]@,
                archive@[j].header,
            ) by {
                assert(lines@[j]@ == verbose_line(archive@[j].header, times[j]));
            }
        }
    }
    lines
}

} // verus!