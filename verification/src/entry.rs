//! The data model of one directory entry: its name and a metadata
//! snapshot of plain values, or no snapshot where the read failed.

use vstd::prelude::*;
use vstd::string::*;

verus! {

/// A metadata snapshot: type, permission bits, link count, ownership,
/// size and the two timestamps (seconds since the epoch).
#[derive(Clone, Copy, PartialEq, Eq, Structural, Debug)]
pub struct Meta {
    pub is_dir: bool,
    pub mode: u32,
    pub nlink: u64,
    pub uid: u32,
    pub gid: u32,
    pub size: u64,
    pub mtime: i64,
    pub atime: i64,
}

/// One directory entry.  `meta` is `None` where the metadata read
/// failed; such an entry sorts at the epoch and is never rendered.
pub struct Entry {
    pub name: String,
    pub meta: Option<Meta>,
}

/// A signed timestamp reinterpreted as an unsigned 64-bit value
/// (two's complement), the key the time sort actually compares:
/// times before the epoch wrap around and sort last.
pub open spec fn u64_of_i64(t: int) -> int {
    if t >= 0 {
        t
    } else {
        t + 0x1_0000_0000_0000_0000
    }
}

/// The timestamp an entry is sorted by: access or modified time per the
/// flag, and the epoch where the entry has no metadata.
pub open spec fn time_key_spec(e: Entry, access_time: bool) -> int {
    match e.meta {
        Some(m) => if access_time {
            u64_of_i64(m.atime as int)
        } else {
            u64_of_i64(m.mtime as int)
        },
        None => 0,
    }
}

/// The timestamp an entry is displayed with: access or modified time
/// per the flag.
pub open spec fn sel_time(m: Meta, access_time: bool) -> int {
    if access_time {
        m.atime as int
    } else {
        m.mtime as int
    }
}

/// Computes the sort key of an entry.
pub fn get_time_key(e: &Entry, access_time: bool) -> (k: u64)
    ensures
        k as int == time_key_spec(*e, access_time),
{
    match &e.meta {
        Some(m) => {
            let t = if access_time {
                m.atime
            } else {
                m.mtime
            };
            if t >= 0 {
                t as u64
            } else {
                ((t - i64::MIN) as u64) + 0x8000_0000_0000_0000u64
            }
        },
        None => 0,
    }
}

/// A hidden name: one that starts with a dot.
pub open spec fn is_hidden(name: Seq<char>) -> bool {
    name.len() > 0 && name[0] == '.'
}

/// Whether an entry's name passes the hidden-name rule under the
/// configuration: hidden names appear only when show-hidden is set.
pub open spec fn name_visible(name: Seq<char>, show_hidden: bool) -> bool {
    show_hidden || !is_hidden(name)
}

/// Decides the hidden-name rule on an entry name.
pub fn check_name_visible(name: &String, show_hidden: bool) -> (r: bool)
    ensures
        r == name_visible(name@, show_hidden),
{
    if show_hidden {
        true
    } else {
        let n = name.as_str().unicode_len();
        if n == 0 {
            true
        } else {
            name.as_str().get_char(0) != '.'
        }
    }
}

} // verus!
