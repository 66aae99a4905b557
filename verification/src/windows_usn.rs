//! The USN change journal of an NTFS volume: the range of history it can
//! replay, checked for consistency before it is trusted.
use crate::change_history::AvailableHistory;
use crate::paths::{parts_view, Component, PathPart, PrefixKind, WinPrefix};
use crate::text::{owned, string_of};
use crate::windows_path::{win_components, win_path_components};
use vstd::prelude::*;

verus! {

/// The history range a journal reports, when it is consistent: a nonzero
/// journal ID and a lowest valid position between zero and the next position.
pub open spec fn usn_range_spec(journal_id: u64, lowest_valid_usn: i64, next_usn: i64) -> Result<
    AvailableHistory,
    Seq<char>,
> {
    if journal_id == 0 || lowest_valid_usn < 0 || lowest_valid_usn > next_usn {
        Err("USN Journal metadataの範囲が不正です"@)
    } else {
        Ok(AvailableHistory::Usn { journal_id, lowest_valid_usn, next_usn })
    }
}

/// The available history described by the journal's metadata.
pub fn usn_journal_range(journal_id: u64, lowest_valid_usn: i64, next_usn: i64) -> (r: Result<
    AvailableHistory,
    String,
>)
    ensures
        match r {
            Ok(h) => usn_range_spec(journal_id, lowest_valid_usn, next_usn) == Ok::<
                AvailableHistory,
                Seq<char>,
            >(h),
            Err(e) => usn_range_spec(journal_id, lowest_valid_usn, next_usn) == Err::<
                AvailableHistory,
                Seq<char>,
            >(e@),
        },
{
    if journal_id == 0 || lowest_valid_usn < 0 || lowest_valid_usn > next_usn {
        Err(owned("USN Journal metadataの範囲が不正です"))
    } else {
        Ok(AvailableHistory::Usn { journal_id, lowest_valid_usn, next_usn })
    }
}

/// The journal history of a root on a platform without USN journals: always
/// the error that the USN journal is only available on Windows.
pub fn query_available_history(root: &str) -> (r: Result<AvailableHistory, String>)
    ensures
        r matches Err(e) && e@ == "USN JournalはWindowsでのみ利用できます"@,
{
    let _ = root;
    Err(owned("USN JournalはWindowsでのみ利用できます"))
}

/// A letter in upper case when it is an ASCII lower-case letter.
pub open spec fn ascii_upper(c: char) -> char {
    if 'a' <= c && c <= 'z' {
        ((c as u32) - 32) as char
    } else {
        c
    }
}

fn upper_letter(c: char) -> (r: char)
    ensures
        r == ascii_upper(c),
{
    if 'a' <= c && c <= 'z' {
        let b: u8 = (c as u8) - 32;
        b as char
    } else {
        c
    }
}

/// The drive letter a prefix names, for a drive or a verbatim drive.
pub open spec fn drive_letter(k: WinPrefix) -> Option<char> {
    match k {
        WinPrefix::Disk(c) => Some(c),
        WinPrefix::VerbatimDisk(c) => Some(c),
        _ => None,
    }
}

/// The device path `\\.\X:` of the volume whose drive root `root` is, with the
/// letter in upper case, or why `root` is not a local drive root: it has no
/// prefix, its prefix names no drive, or it is not the drive's root itself.
pub open spec fn volume_device_spec(root: Seq<char>) -> Result<Seq<char>, Seq<char>> {
    let cs = win_components(root);
    if cs.len() == 0 || !(cs[0] is Prefix) {
        Err("USN Journalには絶対drive pathが必要です"@)
    } else {
        match drive_letter(cs[0]->Prefix_0) {
            None => Err("USN Journalはローカルdrive rootだけに対応しています"@),
            Some(c) => if cs.len() == 2 && cs[1] == PathPart::RootDir {
                Ok(seq!['\\', '\\', '.', '\\', ascii_upper(c), ':'])
            } else {
                Err("USN Journalの照会先はdrive rootである必要があります"@)
            },
        }
    }
}

/// The device path of the volume of the drive root `root`, as `volume_device_spec` describes.
pub fn volume_device_path(root: &str) -> (r: Result<String, String>)
    ensures
        match r {
            Ok(p) => volume_device_spec(root@) == Ok::<Seq<char>, Seq<char>>(p@),
            Err(e) => volume_device_spec(root@) == Err::<Seq<char>, Seq<char>>(e@),
        },
{
    let cs = win_path_components(root);
    let ghost pv = parts_view(cs@);
    if cs.len() == 0 {
        return Err(owned("USN Journalには絶対drive pathが必要です"));
    }
    assert(pv[0] == cs@[0]@);
    let letter = match &cs[0] {
        Component::Prefix(PrefixKind::Disk(c), _) => *c,
        Component::Prefix(PrefixKind::VerbatimDisk(c), _) => *c,
        Component::Prefix(_, _) => {
            return Err(owned("USN Journalはローカルdrive rootだけに対応しています"));
        },
        _ => {
            return Err(owned("USN Journalには絶対drive pathが必要です"));
        },
    };
    if cs.len() != 2 || !matches!(cs[1], Component::RootDir) {
        proof {
            if cs.len() == 2 {
                assert(pv[1] == cs@[1]@);
            }
        }
        return Err(owned("USN Journalの照会先はdrive rootである必要があります"));
    }
    assert(pv[1] == cs@[1]@);
    let mut v: Vec<char> = Vec::new();
    v.push('\\');
    v.push('\\');
    v.push('.');
    v.push('\\');
    v.push(upper_letter(letter));
    v.push(':');
    assert(v@ =~= seq!['\\', '\\', '.', '\\', ascii_upper(letter), ':']);
    Ok(string_of(&v))
}

} // verus!
