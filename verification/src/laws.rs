//! The stated laws of the library: what the ordering, the visibility
//! rules and the listing as a whole guarantee, proved once and for
//! all inputs.

use vstd::prelude::*;
use crate::entry::{Entry, is_hidden, name_visible};
use crate::options::{Options, apply_token};
use crate::order::{
    entry_lt, order_spec, sort_spec, insert_ordered, lemma_entry_lt_transitive,
    lemma_entry_lt_irreflexive,
};
use crate::listing::{emitted, kept};

verus! {

/// A level in unsorted mode keeps the raw enumeration order (reversed
/// under the reverse flag), whatever the time-sort flag says.
pub proof fn lemma_unsorted_ignores_time_sort(s: Seq<Entry>, o: Options)
    requires
        o.unsorted,
    ensures
        order_spec(s, o) == order_spec(s, Options { sort_by_time: !o.sort_by_time, ..o }),
        !o.reverse_order ==> order_spec(s, o) == s,
        o.reverse_order ==> order_spec(s, o) == s.reverse(),
{
}

/// The show-hidden flag decides the fate of dot-names alone: an entry
/// whose name does not start with a dot is listed the same either way,
/// and a dot-named entry passes the hidden-name rule exactly when the
/// flag is set.
pub proof fn lemma_show_hidden_only_affects_dot_names(e: Entry, o: Options)
    ensures
        !is_hidden(e.name@) ==> emitted(e, Options { show_hidden: true, ..o }) == emitted(
            e,
            Options { show_hidden: false, ..o },
        ),
        !is_hidden(e.name@) ==> name_visible(e.name@, o.show_hidden),
        is_hidden(e.name@) ==> name_visible(e.name@, o.show_hidden) == o.show_hidden,
{
}

/// Every entry a level keeps passes the visibility rules.
pub proof fn lemma_kept_entries_emitted(q: Seq<Entry>, o: Options, i: int)
    requires
        0 <= i < kept(q, o).len(),
    ensures
        emitted(kept(q, o)[i], o),
    decreases q.len(),
{
    if q.len() > 0 {
        let prev = kept(q.drop_last(), o);
        if i < prev.len() {
            lemma_kept_entries_emitted(q.drop_last(), o, i);
        }
    }
}

/// Under directories-only, everything the listing keeps is a
/// directory.
pub proof fn lemma_directories_only_lists_directories(q: Seq<Entry>, o: Options, i: int)
    requires
        o.directories_only,
        0 <= i < kept(q, o).len(),
    ensures
        kept(q, o)[i].meta is Some,
        kept(q, o)[i].meta matches Some(m) && m.is_dir,
    decreases q.len(),
{
    lemma_kept_entries_emitted(q, o, i);
}

/// Reversing twice restores a sequence.
pub proof fn lemma_reverse_involution(s: Seq<Entry>)
    ensures
        s.reverse().reverse() == s,
{
    assert(s.reverse().reverse() =~= s);
}

/// The reverse flag exactly reverses whatever order the sort stage
/// produced, so listing with it and reversing the outcome restores the
/// listing without it.
pub proof fn lemma_reverse_flag_reverses(s: Seq<Entry>, o: Options)
    ensures
        order_spec(s, Options { reverse_order: true, ..o }) == order_spec(
            s,
            Options { reverse_order: false, ..o },
        ).reverse(),
        order_spec(s, Options { reverse_order: true, ..o }).reverse() == order_spec(
            s,
            Options { reverse_order: false, ..o },
        ),
{
    let plain = order_spec(s, Options { reverse_order: false, ..o });
    lemma_reverse_involution(plain);
}

/// The group-only flag forces the long format on, whatever state the
/// parse is in when it meets the token.
pub proof fn lemma_group_flag_forces_long_format(o: Options, path: Seq<char>)
    ensures
        apply_token(o, path, "-g"@).0.long_format,
        apply_token(o, path, "-g"@).0.group_only,
{
    reveal_strlit("-a");
    reveal_strlit("-l");
    reveal_strlit("-d");
    reveal_strlit("-t");
    reveal_strlit("-r");
    reveal_strlit("-R");
    reveal_strlit("-u");
    reveal_strlit("-F");
    reveal_strlit("-f");
    reveal_strlit("-g");
    assert("-g"@[1] == 'g');
    assert("-a"@[1] == 'a');
    assert("-l"@[1] == 'l');
    assert("-d"@[1] == 'd');
    assert("-t"@[1] == 't');
    assert("-r"@[1] == 'r');
    assert("-R"@[1] == 'R');
    assert("-u"@[1] == 'u');
    assert("-F"@[1] == 'F');
    assert("-f"@[1] == 'f');
}

/// A level is sorted by a key: no later entry sorts strictly before
/// an earlier one.
pub open spec fn sorted_by_key(s: Seq<Entry>, by_time: bool, access_time: bool) -> bool {
    forall|i: int, j: int|
        0 <= i < j < s.len() ==> !entry_lt(#[trigger] s[j], #[trigger] s[i], by_time, access_time)
}

spec fn ins_pos(s: Seq<Entry>, e: Entry, by_time: bool, access_time: bool) -> int
    decreases s.len(),
{
    if s.len() == 0 {
        0
    } else if entry_lt(e, s[0], by_time, access_time) {
        0
    } else {
        1 + ins_pos(s.drop_first(), e, by_time, access_time)
    }
}

proof fn lemma_ins_pos(s: Seq<Entry>, e: Entry, by_time: bool, access_time: bool)
    ensures
        ({
            let j = ins_pos(s, e, by_time, access_time);
            &&& 0 <= j <= s.len()
            &&& forall|k: int| 0 <= k < j ==> !entry_lt(e, #[trigger] s[k], by_time, access_time)
            &&& j < s.len() ==> entry_lt(e, s[j], by_time, access_time)
            &&& insert_ordered(s, e, by_time, access_time) == s.insert(j, e)
        }),
    decreases s.len(),
{
    let j = ins_pos(s, e, by_time, access_time);
    if s.len() == 0 {
        assert(insert_ordered(s, e, by_time, access_time) =~= s.insert(0, e));
    } else if entry_lt(e, s[0], by_time, access_time) {
        assert(seq![e] + s =~= s.insert(0, e));
    } else {
        let t = s.drop_first();
        lemma_ins_pos(t, e, by_time, access_time);
        let jt = ins_pos(t, e, by_time, access_time);
        assert(forall|k: int| 1 <= k < j ==> !entry_lt(e, #[trigger] s[k], by_time, access_time))
            by {
            assert(forall|k: int|
                0 <= k < jt ==> !entry_lt(e, #[trigger] t[k], by_time, access_time));
            assert(forall|k: int| 1 <= k < j ==> t[k - 1] == s[k]);
        }
        if j < s.len() {
            assert(t[jt] == s[j]);
        }
        assert(seq![s[0]] + t.insert(jt, e) =~= s.insert(j, e));
    }
}

proof fn lemma_insert_ordered_sorted(s: Seq<Entry>, e: Entry, by_time: bool, access_time: bool)
    requires
        sorted_by_key(s, by_time, access_time),
    ensures
        sorted_by_key(insert_ordered(s, e, by_time, access_time), by_time, access_time),
{
    lemma_ins_pos(s, e, by_time, access_time);
    let j = ins_pos(s, e, by_time, access_time);
    let r = insert_ordered(s, e, by_time, access_time);
    s.insert_ensures(j, e);
    assert forall|i1: int, i2: int| 0 <= i1 < i2 < r.len() implies !entry_lt(
        r[i2],
        r[i1],
        by_time,
        access_time,
    ) by {
        if i1 < j && i2 < j {
            assert(r[i1] == s[i1] && r[i2] == s[i2]);
        } else if i1 < j && i2 == j {
            assert(r[i1] == s[i1] && r[i2] == e);
        } else if i1 < j && i2 > j {
            assert(r[i1] == s[i1] && r[i2] == s[i2 - 1]);
        } else if i1 == j && i2 > j {
            assert(r[i1] == e && r[i2] == s[i2 - 1]);
            if entry_lt(s[i2 - 1], e, by_time, access_time) {
                assert(j < s.len());
                assert(entry_lt(e, s[j], by_time, access_time));
                lemma_entry_lt_transitive(s[i2 - 1], e, s[j], by_time, access_time);
                if i2 - 1 == j {
                    lemma_entry_lt_irreflexive(s[j], by_time, access_time);
                }
            }
        } else {
            assert(r[i1] == s[i1 - 1] && r[i2] == s[i2 - 1]);
        }
    }
}

/// The sort stage leaves the level sorted: by the selected time key
/// under the time sort, lexicographically by raw name otherwise.
pub proof fn lemma_sort_spec_sorted(s: Seq<Entry>, by_time: bool, access_time: bool)
    ensures
        sorted_by_key(sort_spec(s, by_time, access_time), by_time, access_time),
    decreases s.len(),
{
    if s.len() > 0 {
        lemma_sort_spec_sorted(s.drop_last(), by_time, access_time);
        lemma_insert_ordered_sorted(
            sort_spec(s.drop_last(), by_time, access_time),
            s.last(),
            by_time,
            access_time,
        );
    }
}

proof fn lemma_insert_ordered_multiset(s: Seq<Entry>, e: Entry, by_time: bool, access_time: bool)
    ensures
        insert_ordered(s, e, by_time, access_time).to_multiset() == s.to_multiset().insert(e),
{
    broadcast use vstd::seq_lib::group_to_multiset_ensures;

    lemma_ins_pos(s, e, by_time, access_time);
    let j = ins_pos(s, e, by_time, access_time);
    let r = insert_ordered(s, e, by_time, access_time);
    assert(r == s.insert(j, e));
    assert(r.remove(j) =~= s);
    assert(r[j] == e);
    assert(r.remove(j).to_multiset() == r.to_multiset().remove(e));
    assert(r.contains(e)) by {
        assert(r[j] == e);
    }
    assert(r.to_multiset().count(e) > 0);
    assert(r.to_multiset() =~= s.to_multiset().insert(e));
}

/// The sort stage permutes the level: the same entries come out that
/// went in.
pub proof fn lemma_sort_spec_permutes(s: Seq<Entry>, by_time: bool, access_time: bool)
    ensures
        sort_spec(s, by_time, access_time).to_multiset() == s.to_multiset(),
    decreases s.len(),
{
    broadcast use vstd::seq_lib::group_to_multiset_ensures;

    if s.len() > 0 {
        lemma_sort_spec_permutes(s.drop_last(), by_time, access_time);
        lemma_insert_ordered_multiset(
            sort_spec(s.drop_last(), by_time, access_time),
            s.last(),
            by_time,
            access_time,
        );
        assert(s =~= s.drop_last().push(s.last()));
        assert(s.drop_last().push(s.last()).to_multiset() =~= s.drop_last().to_multiset().insert(
            s.last(),
        ));
    }
}

/// How many entries of a level satisfy a predicate.
pub open spec fn count_matching(s: Seq<Entry>, p: spec_fn(Entry) -> bool) -> int
    decreases s.len(),
{
    if s.len() == 0 {
        0
    } else {
        count_matching(s.drop_last(), p) + if p(s.last()) {
            1int
        } else {
            0int
        }
    }
}

/// How many names of a level the hidden-name rule lets through.
pub open spec fn visible_count(s: Seq<Entry>, show_hidden: bool) -> int
    decreases s.len(),
{
    if s.len() == 0 {
        0
    } else {
        visible_count(s.drop_last(), show_hidden) + if name_visible(
            s.last().name@,
            show_hidden,
        ) {
            1int
        } else {
            0int
        }
    }
}

proof fn lemma_count_add(a: Seq<Entry>, b: Seq<Entry>, p: spec_fn(Entry) -> bool)
    ensures
        count_matching(a + b, p) == count_matching(a, p) + count_matching(b, p),
    decreases b.len(),
{
    if b.len() == 0 {
        assert(a + b =~= a);
    } else {
        lemma_count_add(a, b.drop_last(), p);
        assert((a + b).drop_last() =~= a + b.drop_last());
        assert((a + b).last() == b.last());
    }
}

proof fn lemma_count_singleton(e: Entry, p: spec_fn(Entry) -> bool)
    ensures
        count_matching(seq![e], p) == if p(e) {
            1int
        } else {
            0int
        },
{
    assert(count_matching(Seq::<Entry>::empty(), p) == 0);
    assert(seq![e].drop_last() =~= Seq::<Entry>::empty());
    assert(seq![e].last() == e);
}

proof fn lemma_count_insert_ordered(
    s: Seq<Entry>,
    e: Entry,
    by_time: bool,
    access_time: bool,
    p: spec_fn(Entry) -> bool,
)
    ensures
        count_matching(insert_ordered(s, e, by_time, access_time), p) == count_matching(s, p) + if p(
            e,
        ) {
            1int
        } else {
            0int
        },
    decreases s.len(),
{
    if s.len() == 0 {
        lemma_count_singleton(e, p);
    } else if entry_lt(e, s[0], by_time, access_time) {
        lemma_count_add(seq![e], s, p);
        lemma_count_singleton(e, p);
    } else {
        let t = s.drop_first();
        lemma_count_insert_ordered(t, e, by_time, access_time, p);
        lemma_count_add(seq![s[0]], insert_ordered(t, e, by_time, access_time), p);
        lemma_count_singleton(s[0], p);
        assert(s =~= seq![s[0]] + t);
        lemma_count_add(seq![s[0]], t, p);
    }
}

proof fn lemma_count_sort(s: Seq<Entry>, by_time: bool, access_time: bool, p: spec_fn(Entry) -> bool)
    ensures
        count_matching(sort_spec(s, by_time, access_time), p) == count_matching(s, p),
    decreases s.len(),
{
    if s.len() > 0 {
        lemma_count_sort(s.drop_last(), by_time, access_time, p);
        lemma_count_insert_ordered(
            sort_spec(s.drop_last(), by_time, access_time),
            s.last(),
            by_time,
            access_time,
            p,
        );
    }
}

proof fn lemma_count_reverse(s: Seq<Entry>, p: spec_fn(Entry) -> bool)
    ensures
        count_matching(s.reverse(), p) == count_matching(s, p),
    decreases s.len(),
{
    if s.len() > 0 {
        assert(s.reverse() =~= seq![s.last()] + s.drop_last().reverse());
        lemma_count_add(seq![s.last()], s.drop_last().reverse(), p);
        lemma_count_singleton(s.last(), p);
        lemma_count_reverse(s.drop_last(), p);
    }
}

/// The ordering stage never adds or drops an entry, whatever the
/// configuration: any count over the level is unchanged.
pub proof fn lemma_count_order(s: Seq<Entry>, o: Options, p: spec_fn(Entry) -> bool)
    ensures
        count_matching(order_spec(s, o), p) == count_matching(s, p),
{
    if !o.unsorted {
        if o.sort_by_time {
            lemma_count_sort(s, true, o.access_time, p);
        } else {
            lemma_count_sort(s, false, false, p);
        }
    }
    if o.reverse_order {
        if o.unsorted {
            lemma_count_reverse(s, p);
        } else if o.sort_by_time {
            lemma_count_reverse(sort_spec(s, true, o.access_time), p);
        } else {
            lemma_count_reverse(sort_spec(s, false, false), p);
        }
    }
}

proof fn lemma_kept_len_counts(q: Seq<Entry>, o: Options, p: spec_fn(Entry) -> bool)
    requires
        forall|e: Entry| #[trigger] p(e) == emitted(e, o),
    ensures
        kept(q, o).len() == count_matching(q, p),
    decreases q.len(),
{
    if q.len() > 0 {
        lemma_kept_len_counts(q.drop_last(), o, p);
    }
}

proof fn lemma_count_pointwise(s: Seq<Entry>, p: spec_fn(Entry) -> bool, q: spec_fn(Entry) -> bool)
    requires
        forall|i: int| 0 <= i < s.len() ==> p(#[trigger] s[i]) == q(s[i]),
    ensures
        count_matching(s, p) == count_matching(s, q),
    decreases s.len(),
{
    if s.len() > 0 {
        assert(forall|i: int| 0 <= i < s.len() - 1 ==> s.drop_last()[i] == s[i]);
        lemma_count_pointwise(s.drop_last(), p, q);
    }
}

proof fn lemma_visible_count_is_count_matching(
    s: Seq<Entry>,
    show_hidden: bool,
    p: spec_fn(Entry) -> bool,
)
    requires
        forall|e: Entry| #[trigger] p(e) == name_visible(e.name@, show_hidden),
    ensures
        visible_count(s, show_hidden) == count_matching(s, p),
    decreases s.len(),
{
    if s.len() > 0 {
        lemma_visible_count_is_count_matching(s.drop_last(), show_hidden, p);
    }
}

/// With directories-only off and every metadata read succeeding, a
/// level's listing emits exactly one row per name the hidden-name rule
/// lets through.
pub proof fn lemma_listing_emits_visible_entries(s: Seq<Entry>, o: Options)
    requires
        !o.directories_only,
        forall|i: int| 0 <= i < s.len() ==> (#[trigger] s[i]).meta is Some,
    ensures
        kept(order_spec(s, o), o).len() == visible_count(s, o.show_hidden),
{
    let pe = |e: Entry| emitted(e, o);
    let pv = |e: Entry| name_visible(e.name@, o.show_hidden);
    lemma_kept_len_counts(order_spec(s, o), o, pe);
    lemma_count_order(s, o, pe);
    lemma_count_pointwise(s, pe, pv);
    lemma_visible_count_is_count_matching(s, o.show_hidden, pv);
}

} // verus!
