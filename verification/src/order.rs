//! Ordering of a directory level: a stable sort by name or by time,
//! then an optional reversal, as the configuration asks.

use vstd::prelude::*;
use crate::entry::{Entry, time_key_spec, get_time_key};
use crate::lex::{lex_lt, str_lt, lemma_lex_lt_transitive};
use crate::options::Options;

verus! {

/// The strict "sorts before" relation of a listing: by the selected
/// time key when sorting by time, else lexicographically by raw name.
pub open spec fn entry_lt(a: Entry, b: Entry, by_time: bool, access_time: bool) -> bool {
    if by_time {
        time_key_spec(a, access_time) < time_key_spec(b, access_time)
    } else {
        lex_lt(a.name@, b.name@)
    }
}

/// `entry_lt` is transitive, whichever key is selected.
pub proof fn lemma_entry_lt_transitive(
    a: Entry,
    b: Entry,
    c: Entry,
    by_time: bool,
    access_time: bool,
)
    requires
        entry_lt(a, b, by_time, access_time),
        entry_lt(b, c, by_time, access_time),
    ensures
        entry_lt(a, c, by_time, access_time),
{
    if !by_time {
        lemma_lex_lt_transitive(a.name@, b.name@, c.name@);
    }
}

/// `entry_lt` is irreflexive, whichever key is selected.
pub proof fn lemma_entry_lt_irreflexive(e: Entry, by_time: bool, access_time: bool)
    ensures
        !entry_lt(e, e, by_time, access_time),
{
    if !by_time {
        crate::lex::lemma_lex_lt_irreflexive(e.name@);
    }
}

/// Decides `entry_lt`.
fn entry_before(a: &Entry, b: &Entry, by_time: bool, access_time: bool) -> (r: bool)
    ensures
        r == entry_lt(*a, *b, by_time, access_time),
{
    if by_time {
        get_time_key(a, access_time) < get_time_key(b, access_time)
    } else {
        str_lt(a.name.as_str(), b.name.as_str())
    }
}

/// Stable insertion into a sorted sequence: the element goes right
/// before the first element it sorts strictly before, so it lands after
/// anything it ties with.
pub open spec fn insert_ordered(
    s: Seq<Entry>,
    e: Entry,
    by_time: bool,
    access_time: bool,
) -> Seq<Entry>
    decreases s.len(),
{
    if s.len() == 0 {
        seq![e]
    } else if entry_lt(e, s[0], by_time, access_time) {
        seq![e] + s
    } else {
        seq![s[0]] + insert_ordered(s.drop_first(), e, by_time, access_time)
    }
}

/// The stable sort: elements are inserted left to right, so elements
/// with equal keys keep their original relative order.
pub open spec fn sort_spec(s: Seq<Entry>, by_time: bool, access_time: bool) -> Seq<Entry>
    decreases s.len(),
{
    if s.len() == 0 {
        Seq::empty()
    } else {
        insert_ordered(sort_spec(s.drop_last(), by_time, access_time), s.last(), by_time, access_time)
    }
}

proof fn lemma_insert_ordered_at(s: Seq<Entry>, e: Entry, by_time: bool, access_time: bool, j: int)
    requires
        0 <= j <= s.len(),
        forall|k: int| 0 <= k < j ==> !entry_lt(e, #[trigger] s[k], by_time, access_time),
        j < s.len() ==> entry_lt(e, s[j], by_time, access_time),
    ensures
        insert_ordered(s, e, by_time, access_time) == s.insert(j, e),
    decreases s.len(),
{
    if s.len() == 0 {
        assert(insert_ordered(s, e, by_time, access_time) =~= s.insert(0, e));
    } else if entry_lt(e, s[0], by_time, access_time) {
        assert(j == 0);
        assert(seq![e] + s =~= s.insert(0, e));
    } else {
        assert(j >= 1);
        let t = s.drop_first();
        assert(forall|k: int| 0 <= k < j - 1 ==> !entry_lt(e, #[trigger] t[k], by_time, access_time));
        lemma_insert_ordered_at(t, e, by_time, access_time, j - 1);
        assert(seq![s[0]] + t.insert(j - 1, e) =~= s.insert(j, e));
    }
}

fn find_insert_pos(out: &Vec<Entry>, e: &Entry, by_time: bool, access_time: bool) -> (j: usize)
    ensures
        j <= out@.len(),
        forall|k: int| 0 <= k < j ==> !entry_lt(*e, #[trigger] out@[k], by_time, access_time),
        j < out@.len() ==> entry_lt(*e, out@[j as int], by_time, access_time),
{
    let mut j: usize = 0;
    while j < out.len()
        invariant
            j <= out@.len(),
            forall|k: int| 0 <= k < j ==> !entry_lt(*e, #[trigger] out@[k], by_time, access_time),
        decreases out@.len() - j,
    {
        if entry_before(e, &out[j], by_time, access_time) {
            return j;
        }
        j = j + 1;
    }
    j
}

fn insert_entry(out: &mut Vec<Entry>, e: Entry, by_time: bool, access_time: bool)
    ensures
        final(out)@ == insert_ordered(old(out)@, e, by_time, access_time),
{
    let j = find_insert_pos(out, &e, by_time, access_time);
    proof {
        lemma_insert_ordered_at(out@, e, by_time, access_time, j as int);
    }
    out.insert(j, e);
}

/// Sorts the entries of one directory level, stably, by the selected
/// key.
pub fn sort_entries(v: Vec<Entry>, by_time: bool, access_time: bool) -> (r: Vec<Entry>)
    ensures
        r@ == sort_spec(v@, by_time, access_time),
{
    let ghost orig = v@;
    let mut rest = v;
    let mut out: Vec<Entry> = Vec::new();
    proof {
        assert(orig.take(0) =~= Seq::<Entry>::empty());
        assert(orig.skip(0) =~= orig);
    }
    while rest.len() > 0
        invariant
            rest@.len() <= orig.len(),
            rest@ == orig.skip(orig.len() - rest@.len()),
            out@ == sort_spec(orig.take(orig.len() - rest@.len()), by_time, access_time),
        decreases rest.len(),
    {
        let ghost k = orig.len() - rest@.len();
        let e = rest.remove(0);
        proof {
            assert(e == orig[k as int]);
            assert(rest@ =~= orig.skip(k + 1));
            assert(orig.take(k + 1).drop_last() =~= orig.take(k as int));
            assert(orig.take(k + 1).last() == orig[k as int]);
        }
        insert_entry(&mut out, e, by_time, access_time);
    }
    proof {
        assert(orig.take(orig.len() as int) =~= orig);
    }
    out
}

/// Reverses the order of the entries.
pub fn reverse_entries(v: Vec<Entry>) -> (r: Vec<Entry>)
    ensures
        r@ == v@.reverse(),
{
    let ghost orig = v@;
    let mut rest = v;
    let mut out: Vec<Entry> = Vec::new();
    proof {
        assert(orig.take(orig.len() as int) =~= orig);
        assert(orig.skip(orig.len() as int).reverse() =~= Seq::<Entry>::empty());
    }
    while rest.len() > 0
        invariant
            rest@.len() <= orig.len(),
            rest@ == orig.take(rest@.len() as int),
            out@ == orig.skip(rest@.len() as int).reverse(),
        decreases rest.len(),
    {
        let ghost l = rest@.len();
        let e = rest.pop().unwrap();
        proof {
            assert(e == orig[l - 1]);
            assert(rest@ =~= orig.take(l - 1));
            assert(out@.push(e) =~= orig.skip(l - 1).reverse());
        }
        out.push(e);
    }
    proof {
        assert(orig.skip(0) =~= orig);
    }
    out
}

/// The final ordering of one directory level: unsorted keeps the raw
/// enumeration order whatever the time-sort flag says; otherwise the
/// level is sorted by time or by name; the reverse flag then reverses
/// the outcome.
pub open spec fn order_spec(s: Seq<Entry>, o: Options) -> Seq<Entry> {
    let sorted = if o.unsorted {
        s
    } else if o.sort_by_time {
        sort_spec(s, true, o.access_time)
    } else {
        sort_spec(s, false, false)
    };
    if o.reverse_order {
        sorted.reverse()
    } else {
        sorted
    }
}

/// Orders one directory level as the configuration asks.
pub fn order_entries(v: Vec<Entry>, o: &Options) -> (r: Vec<Entry>)
    ensures
        r@ == order_spec(v@, *o),
{
    let sorted = if o.unsorted {
        v
    } else if o.sort_by_time {
        sort_entries(v, true, o.access_time)
    } else {
        sort_entries(v, false, false)
    };
    if o.reverse_order {
        reverse_entries(sorted)
    } else {
        sorted
    }
}

} // verus!
