//! Permission-format helpers: the command-line rendering of a file
//! mode, read digit by digit.

use vstd::prelude::*;

verus! {

/// The three permission characters of one mode digit, laid over the
/// given defaults: `r`, `w` and `x` appear where the digit's bits are
/// set.
pub open spec fn rwx_chars(mode: u16, defaults: Seq<char>) -> Seq<char>
    recommends
        defaults.len() == 3,
{
    seq![
        if mode & 4 > 0 {
            'r'
        } else {
            defaults[0]
        },
        if mode & 2 > 0 {
            'w'
        } else {
            defaults[1]
        },
        if mode & 1 > 0 {
            'x'
        } else {
            defaults[2]
        },
    ]
}

/// The ten permission characters of a mode value: a directory mark
/// where the mode is zero or above one thousand, then the owner, group
/// and other digits as `rwx` triples.
pub open spec fn perm_chars(mode: u16) -> Seq<char> {
    let dashes = seq!['-', '-', '-'];
    seq![
        if mode == 0 || mode > 1000 {
            'd'
        } else {
            '-'
        },
    ] + rwx_chars(mode / 100, dashes) + rwx_chars((mode / 10) % 10, dashes) + rwx_chars(
        mode % 10,
        dashes,
    )
}

/// Writes to a supplied buffer the character representation of a single
/// standard mode digit (for example each digit of 644): feeding the
/// buffer in lets the caller choose the default characters.
pub fn mode_octal_to_string(mode: u16, buf: &mut Vec<char>)
    requires
        old(buf)@.len() >= 3,
    ensures
        final(buf)@.len() == old(buf)@.len(),
        final(buf)@[0] == rwx_chars(mode, old(buf)@.take(3))[0],
        final(buf)@[1] == rwx_chars(mode, old(buf)@.take(3))[1],
        final(buf)@[2] == rwx_chars(mode, old(buf)@.take(3))[2],
        forall|j: int| 3 <= j < old(buf)@.len() ==> final(buf)@[j] == old(buf)@[j],
{
    if mode & 4 > 0 {
        buf[0] = 'r';
    }
    if mode & 2 > 0 {
        buf[1] = 'w';
    }
    if mode & 1 > 0 {
        buf[2] = 'x';
    }
}

/// Renders a mode value as the ten-character permission string shown in
/// a verbose listing.
pub fn format_perms(mode: u16) -> (r: String)
    ensures
        r@ == perm_chars(mode),
{
    let mut first: char = '-';
    // the directory heuristic: a zero mode or one above a thousand
    if mode == 0 || mode > 1000 {
        first = 'd';
    }
    let mut owner_buf: Vec<char> = Vec::new();
    owner_buf.push('-');
    owner_buf.push('-');
    owner_buf.push('-');
    let mut group_buf = owner_buf.clone();
    let mut other_buf = owner_buf.clone();
    let owner = mode / 100;
    let group = (mode / 10) % 10;
    let other = mode % 10;
    assert(owner_buf@.take(3) =~= seq!['-', '-', '-']);
    mode_octal_to_string(owner, &mut owner_buf);
    assert(group_buf@.take(3) =~= seq!['-', '-', '-']);
    mode_octal_to_string(group, &mut group_buf);
    assert(other_buf@.take(3) =~= seq!['-', '-', '-']);
    mode_octal_to_string(other, &mut other_buf);
    let mut s = String::new();
    crate::strings::push_char(&mut s, first);
    let mut k: usize = 0;
    while k < 3
        invariant
            k <= 3,
            owner_buf@.len() == 3,
            s@ == seq![
                if mode == 0 || mode > 1000 {
                    'd'
                } else {
                    '-'
                },
            ] + owner_buf@.take(k as int),
        decreases 3 - k,
    {
        crate::strings::push_char(&mut s, owner_buf[k]);
        assert(s@ =~= seq![
            if mode == 0 || mode > 1000 {
                'd'
            } else {
                '-'
            },
        ] + owner_buf@.take(k + 1));
        k = k + 1;
    }
    let ghost head = s@;
    let mut k2: usize = 0;
    while k2 < 3
        invariant
            k2 <= 3,
            group_buf@.len() == 3,
            s@ == head + group_buf@.take(k2 as int),
        decreases 3 - k2,
    {
        crate::strings::push_char(&mut s, group_buf[k2]);
        assert(s@ =~= head + group_buf@.take(k2 + 1));
        k2 = k2 + 1;
    }
    let ghost head2 = s@;
    let mut k3: usize = 0;
    while k3 < 3
        invariant
            k3 <= 3,
            other_buf@.len() == 3,
            s@ == head2 + other_buf@.take(k3 as int),
        decreases 3 - k3,
    {
        crate::strings::push_char(&mut s, other_buf[k3]);
        assert(s@ =~= head2 + other_buf@.take(k3 + 1));
        k3 = k3 + 1;
    }
    proof {
        assert(owner_buf@.take(3) =~= owner_buf@);
        assert(group_buf@.take(3) =~= group_buf@);
        assert(other_buf@.take(3) =~= other_buf@);
        assert(owner_buf@ =~= rwx_chars(owner, seq!['-', '-', '-']));
        assert(group_buf@ =~= rwx_chars(group, seq!['-', '-', '-']));
        assert(other_buf@ =~= rwx_chars(other, seq!['-', '-', '-']));
        assert(s@ =~= perm_chars(mode));
    }
    s
}

} // verus!
