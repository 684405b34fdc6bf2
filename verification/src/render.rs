//! Rendering one entry as one output line: the permission string, the
//! numeric columns, the timestamp column and the name with its
//! optional type suffix.

use vstd::prelude::*;
use vstd::string::*;
use crate::entry::{Meta, sel_time};
use crate::options::Options;
use crate::timefmt::{time_display, format_time};

verus! {

/// The 10-character permission string: `d` or `-`, then `rwx` triples
/// for owner, group and other, each letter present exactly when its
/// bit is set in the permission mode.
pub open spec fn perm_spec(m: Meta) -> Seq<char> {
    seq![
        if m.is_dir { 'd' } else { '-' },
        if m.mode & 0o400 != 0 { 'r' } else { '-' },
        if m.mode & 0o200 != 0 { 'w' } else { '-' },
        if m.mode & 0o100 != 0 { 'x' } else { '-' },
        if m.mode & 0o040 != 0 { 'r' } else { '-' },
        if m.mode & 0o020 != 0 { 'w' } else { '-' },
        if m.mode & 0o010 != 0 { 'x' } else { '-' },
        if m.mode & 0o004 != 0 { 'r' } else { '-' },
        if m.mode & 0o002 != 0 { 'w' } else { '-' },
        if m.mode & 0o001 != 0 { 'x' } else { '-' },
    ]
}

fn append_choice(s: &mut String, cond: bool, yes: &str, no: &str)
    requires
        yes@.len() == 1,
        no@.len() == 1,
    ensures
        final(s)@ == old(s)@.push(if cond { yes@[0] } else { no@[0] }),
{
    if cond {
        s.append(yes);
        proof {
            assert(s@ =~= old(s)@.push(yes@[0]));
        }
    } else {
        s.append(no);
        proof {
            assert(s@ =~= old(s)@.push(no@[0]));
        }
    }
}

/// Builds the permission string of a metadata snapshot.
#[verifier::rlimit(100)]
pub fn permission_string(m: &Meta) -> (r: String)
    ensures
        r@ == perm_spec(*m),
{
    proof {
        reveal_strlit("d");
        reveal_strlit("r");
        reveal_strlit("w");
        reveal_strlit("x");
        reveal_strlit("-");
    }
    let mut s = String::new();
    append_choice(&mut s, m.is_dir, "d", "-");
    append_choice(&mut s, m.mode & 0o400 != 0, "r", "-");
    append_choice(&mut s, m.mode & 0o200 != 0, "w", "-");
    append_choice(&mut s, m.mode & 0o100 != 0, "x", "-");
    append_choice(&mut s, m.mode & 0o040 != 0, "r", "-");
    append_choice(&mut s, m.mode & 0o020 != 0, "w", "-");
    append_choice(&mut s, m.mode & 0o010 != 0, "x", "-");
    append_choice(&mut s, m.mode & 0o004 != 0, "r", "-");
    append_choice(&mut s, m.mode & 0o002 != 0, "w", "-");
    append_choice(&mut s, m.mode & 0o001 != 0, "x", "-");
    proof {
        assert(s@ =~= perm_spec(*m));
    }
    s
}

/// The character of one decimal digit.
pub open spec fn digit_char(d: int) -> char {
    if d == 0 {
        '0'
    } else if d == 1 {
        '1'
    } else if d == 2 {
        '2'
    } else if d == 3 {
        '3'
    } else if d == 4 {
        '4'
    } else if d == 5 {
        '5'
    } else if d == 6 {
        '6'
    } else if d == 7 {
        '7'
    } else if d == 8 {
        '8'
    } else {
        '9'
    }
}

/// The decimal rendering of a non-negative number, most significant
/// digit first, no leading zeroes (a single `0` for zero).
pub open spec fn dec_of(n: int) -> Seq<char>
    recommends
        n >= 0,
    decreases n,
{
    if n < 10 {
        seq![digit_char(n)]
    } else {
        dec_of(n / 10).push(digit_char(n % 10))
    }
}

fn append_digit(s: &mut String, d: u64)
    requires
        d < 10,
    ensures
        final(s)@ == old(s)@.push(digit_char(d as int)),
{
    let lit: &str = if d == 0 {
        "0"
    } else if d == 1 {
        "1"
    } else if d == 2 {
        "2"
    } else if d == 3 {
        "3"
    } else if d == 4 {
        "4"
    } else if d == 5 {
        "5"
    } else if d == 6 {
        "6"
    } else if d == 7 {
        "7"
    } else if d == 8 {
        "8"
    } else {
        "9"
    };
    s.append(lit);
    proof {
        reveal_strlit("0");
        reveal_strlit("1");
        reveal_strlit("2");
        reveal_strlit("3");
        reveal_strlit("4");
        reveal_strlit("5");
        reveal_strlit("6");
        reveal_strlit("7");
        reveal_strlit("8");
        reveal_strlit("9");
        assert(s@ =~= old(s)@.push(digit_char(d as int)));
    }
}

/// Appends the decimal rendering of a number.
pub fn push_decimal(s: &mut String, n: u64)
    ensures
        final(s)@ == old(s)@ + dec_of(n as int),
    decreases n,
{
    if n >= 10 {
        push_decimal(s, n / 10);
        append_digit(s, n % 10);
        proof {
            assert(s@ =~= old(s)@ + dec_of(n as int));
        }
    } else {
        append_digit(s, n);
        proof {
            assert(s@ =~= old(s)@ + dec_of(n as int));
        }
    }
}

/// Renders a number as its decimal string.
pub fn u64_to_string(n: u64) -> (r: String)
    ensures
        r@ == dec_of(n as int),
{
    let mut s = String::new();
    push_decimal(&mut s, n);
    proof {
        assert(s@ =~= dec_of(n as int));
    }
    s
}

/// The optional type suffix of the name field: `/` for a directory,
/// `*` for anything with an execute bit set, under the show-type flag.
pub open spec fn suffix_spec(m: Meta, o: Options) -> Seq<char> {
    if o.show_type {
        if m.is_dir {
            seq!['/']
        } else if m.mode & 0o111 != 0 {
            seq!['*']
        } else {
            Seq::empty()
        }
    } else {
        Seq::empty()
    }
}

/// The detail columns of the long format, in order; group-only omits
/// the owner id.
pub open spec fn detail_fields(m: Meta, o: Options) -> Seq<Seq<char>> {
    if o.group_only {
        seq![
            perm_spec(m),
            dec_of(m.nlink as int),
            dec_of(m.gid as int),
            dec_of(m.size as int),
            time_display(sel_time(m, o.access_time)),
        ]
    } else {
        seq![
            perm_spec(m),
            dec_of(m.nlink as int),
            dec_of(m.uid as int),
            dec_of(m.gid as int),
            dec_of(m.size as int),
            time_display(sel_time(m, o.access_time)),
        ]
    }
}

/// Fields joined with a single space after each one.
pub open spec fn join_fields(fs: Seq<Seq<char>>) -> Seq<char>
    decreases fs.len(),
{
    if fs.len() == 0 {
        Seq::empty()
    } else {
        fs[0] + seq![' '] + join_fields(fs.drop_first())
    }
}

/// The detail prefix of a long-format line, written out: each column
/// followed by one space.
pub open spec fn detail_prefix(m: Meta, o: Options) -> Seq<char> {
    if o.group_only {
        (perm_spec(m) + seq![' ']) + ((dec_of(m.nlink as int) + seq![' ']) + ((dec_of(
            m.gid as int,
        ) + seq![' ']) + ((dec_of(m.size as int) + seq![' ']) + (time_display(
            sel_time(m, o.access_time),
        ) + seq![' ']))))
    } else {
        (perm_spec(m) + seq![' ']) + ((dec_of(m.nlink as int) + seq![' ']) + ((dec_of(
            m.uid as int,
        ) + seq![' ']) + ((dec_of(m.gid as int) + seq![' ']) + ((dec_of(m.size as int)
            + seq![' ']) + (time_display(sel_time(m, o.access_time)) + seq![' '])))))
    }
}

/// One unfolding step of the join: the first field, a space, then the
/// join of the rest.
proof fn lemma_join_cons(f: Seq<char>, fs: Seq<Seq<char>>)
    ensures
        join_fields(seq![f] + fs) == (f + seq![' ']) + join_fields(fs),
{
    let c = seq![f] + fs;
    assert(c[0] == f);
    assert(c.drop_first() =~= fs);
}

/// The detail prefix is exactly the detail columns joined by spaces.
pub proof fn lemma_detail_prefix_is_joined_fields(m: Meta, o: Options)
    ensures
        detail_prefix(m, o) == join_fields(detail_fields(m, o)),
{
    let f_perm = perm_spec(m);
    let f_nlink = dec_of(m.nlink as int);
    let f_uid = dec_of(m.uid as int);
    let f_gid = dec_of(m.gid as int);
    let f_size = dec_of(m.size as int);
    let f_time = time_display(sel_time(m, o.access_time));
    let sp = seq![' '];
    assert(join_fields(Seq::<Seq<char>>::empty()) == Seq::<char>::empty());
    lemma_join_cons(f_time, Seq::<Seq<char>>::empty());
    assert(seq![f_time] + Seq::<Seq<char>>::empty() =~= seq![f_time]);
    assert((f_time + sp) + Seq::<char>::empty() =~= f_time + sp);
    assert(join_fields(seq![f_time]) == f_time + sp);
    lemma_join_cons(f_size, seq![f_time]);
    assert(seq![f_size] + seq![f_time] =~= seq![f_size, f_time]);
    lemma_join_cons(f_gid, seq![f_size, f_time]);
    assert(seq![f_gid] + seq![f_size, f_time] =~= seq![f_gid, f_size, f_time]);
    if o.group_only {
        lemma_join_cons(f_nlink, seq![f_gid, f_size, f_time]);
        assert(seq![f_nlink] + seq![f_gid, f_size, f_time] =~= seq![f_nlink, f_gid, f_size, f_time]);
        lemma_join_cons(f_perm, seq![f_nlink, f_gid, f_size, f_time]);
        assert(seq![f_perm] + seq![f_nlink, f_gid, f_size, f_time] =~= detail_fields(m, o));
    } else {
        lemma_join_cons(f_uid, seq![f_gid, f_size, f_time]);
        assert(seq![f_uid] + seq![f_gid, f_size, f_time] =~= seq![f_uid, f_gid, f_size, f_time]);
        lemma_join_cons(f_nlink, seq![f_uid, f_gid, f_size, f_time]);
        assert(seq![f_nlink] + seq![f_uid, f_gid, f_size, f_time] =~= seq![
            f_nlink,
            f_uid,
            f_gid,
            f_size,
            f_time,
        ]);
        lemma_join_cons(f_perm, seq![f_nlink, f_uid, f_gid, f_size, f_time]);
        assert(seq![f_perm] + seq![f_nlink, f_uid, f_gid, f_size, f_time] =~= detail_fields(m, o));
    }
}

/// Setting group-only removes exactly one column (the owner id) from
/// the long format's detail columns.
pub proof fn lemma_group_only_drops_one_field(m: Meta, o: Options)
    ensures
        detail_fields(m, Options { group_only: true, ..o }).len() + 1 == detail_fields(
            m,
            Options { group_only: false, ..o },
        ).len(),
{
}

/// One rendered line (without its terminator): the detail prefix under
/// the long format, then the name, then the optional type suffix.
pub open spec fn render_spec(name: Seq<char>, m: Meta, o: Options) -> Seq<char> {
    if o.long_format {
        detail_prefix(m, o) + name + suffix_spec(m, o)
    } else {
        name + suffix_spec(m, o)
    }
}

fn detail_prefix_string(m: &Meta, o: &Options) -> (r: String)
    ensures
        r@ == detail_prefix(*m, *o),
{
    proof {
        reveal_strlit(" ");
        assert(" "@ =~= seq![' ']);
    }
    let t = if o.access_time {
        m.atime
    } else {
        m.mtime
    };
    let mut time_part = format_time(t);
    time_part.append(" ");
    let mut size_part = u64_to_string(m.size);
    size_part.append(" ");
    size_part.append(time_part.as_str());
    let mut gid_part = u64_to_string(m.gid as u64);
    gid_part.append(" ");
    gid_part.append(size_part.as_str());
    let mid = if o.group_only {
        gid_part
    } else {
        let mut uid_part = u64_to_string(m.uid as u64);
        uid_part.append(" ");
        uid_part.append(gid_part.as_str());
        uid_part
    };
    let mut nlink_part = u64_to_string(m.nlink);
    nlink_part.append(" ");
    nlink_part.append(mid.as_str());
    let mut s = permission_string(m);
    s.append(" ");
    s.append(nlink_part.as_str());
    s
}

/// Renders one entry's line.
pub fn render_entry(name: &String, m: &Meta, o: &Options) -> (r: String)
    ensures
        r@ == render_spec(name@, *m, *o),
{
    let mut s = if o.long_format {
        detail_prefix_string(m, o)
    } else {
        String::new()
    };
    proof {
        assert(Seq::<char>::empty() + name@ =~= name@);
    }
    s.append(name.as_str());
    if o.show_type {
        if m.is_dir {
            s.append("/");
            proof {
                reveal_strlit("/");
                assert("/"@ =~= seq!['/']);
            }
        } else if m.mode & 0o111 != 0 {
            s.append("*");
            proof {
                reveal_strlit("*");
                assert("*"@ =~= seq!['*']);
            }
        }
    }
    proof {
        if suffix_spec(*m, *o).len() == 0 {
            assert(s@ + Seq::<char>::empty() =~= s@);
        }
        assert(s@ =~= render_spec(name@, *m, *o));
    }
    s
}

} // verus!
