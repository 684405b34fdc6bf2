//! Listing one directory level: order the entries, drop what the
//! configuration hides, render one row per surviving entry, and mark
//! the rows the recursive mode descends into.

use vstd::prelude::*;
use vstd::string::*;
use crate::entry::{Entry, name_visible, check_name_visible};
use crate::options::Options;
use crate::order::{order_entries, order_spec};
use crate::render::{render_entry, render_spec};

verus! {

/// One output row: the rendered line, and, when the recursive mode
/// must descend into this entry, the subdirectory's path.
pub struct Row {
    pub line: String,
    pub recurse_into: Option<String>,
}

/// Whether an entry appears in the output: its name passes the
/// hidden-name rule, its metadata was readable, and it is a directory
/// where only directories are listed.
pub open spec fn emitted(e: Entry, o: Options) -> bool {
    name_visible(e.name@, o.show_hidden) && match e.meta {
        Some(m) => !o.directories_only || m.is_dir,
        None => false,
    }
}

/// The entries of an ordered level that appear in the output, in
/// order.
pub open spec fn kept(s: Seq<Entry>, o: Options) -> Seq<Entry>
    decreases s.len(),
{
    if s.len() == 0 {
        Seq::empty()
    } else {
        kept(s.drop_last(), o) + if emitted(s.last(), o) {
            seq![s.last()]
        } else {
            Seq::empty()
        }
    }
}

/// The line an emitted entry renders to.
pub open spec fn row_line_spec(e: Entry, o: Options) -> Seq<char> {
    match e.meta {
        Some(m) => render_spec(e.name@, m, o),
        None => Seq::empty(),
    }
}

/// A parent path joined with a child name, avoiding a doubled
/// separator.
pub open spec fn join_path_spec(parent: Seq<char>, name: Seq<char>) -> Seq<char> {
    if parent.len() > 0 && parent.last() == '/' {
        parent + name
    } else {
        parent + seq!['/'] + name
    }
}

/// The path a row descends into: the entry's full path, for a
/// directory entry under the recursive flag.
pub open spec fn row_recurse_spec(parent: Seq<char>, e: Entry, o: Options) -> Option<Seq<char>> {
    match e.meta {
        Some(m) => if o.recursive && m.is_dir {
            Some(join_path_spec(parent, e.name@))
        } else {
            None
        },
        None => None,
    }
}

/// Whether an optional path matches an optional path value.
pub open spec fn recurse_matches(a: Option<String>, b: Option<Seq<char>>) -> bool {
    match (a, b) {
        (Some(p), Some(q)) => p@ == q,
        (None, None) => true,
        _ => false,
    }
}

/// Joins a parent path and a child name.
pub fn join_path(parent: &String, name: &String) -> (r: String)
    ensures
        r@ == join_path_spec(parent@, name@),
{
    let mut s = parent.clone();
    let plen = parent.as_str().unicode_len();
    let ends_slash = if plen == 0 {
        false
    } else {
        parent.as_str().get_char(plen - 1) == '/'
    };
    if !ends_slash {
        s.append("/");
        proof {
            reveal_strlit("/");
        }
    }
    s.append(name.as_str());
    proof {
        assert(s@ =~= join_path_spec(parent@, name@));
    }
    s
}

/// The header line written above a recursively listed subdirectory.
pub fn header_line(path: &String) -> (r: String)
    ensures
        r@ == path@ + seq![':'],
{
    let mut s = path.clone();
    s.append(":");
    proof {
        reveal_strlit(":");
        assert(s@ =~= path@ + seq![':']);
    }
    s
}

/// Lists one directory level: the raw entries are ordered as the
/// configuration asks, entries the configuration hides are dropped,
/// and each surviving entry becomes one row, in order.
pub fn list_level(parent: &String, entries: Vec<Entry>, o: &Options) -> (rows: Vec<Row>)
    ensures
        ({
            let k = kept(order_spec(entries@, *o), *o);
            &&& rows@.len() == k.len()
            &&& forall|i: int|
                0 <= i < k.len() ==> #[trigger] rows@[i].line@ == row_line_spec(k[i], *o)
            &&& forall|i: int|
                0 <= i < k.len() ==> recurse_matches(
                    #[trigger] rows@[i].recurse_into,
                    row_recurse_spec(parent@, k[i], *o),
                )
        }),
{
    let ordered = order_entries(entries, o);
    let ghost ord = order_spec(entries@, *o);
    let mut rows: Vec<Row> = Vec::new();
    let mut rest = ordered;
    proof {
        assert(ord.take(0) =~= Seq::<Entry>::empty());
        assert(ord.skip(0) =~= ord);
    }
    while rest.len() > 0
        invariant
            rest@.len() <= ord.len(),
            rest@ == ord.skip(ord.len() - rest@.len()),
            rows@.len() == kept(ord.take(ord.len() - rest@.len()), *o).len(),
            forall|i: int|
                0 <= i < rows@.len() ==> #[trigger] rows@[i].line@ == row_line_spec(
                    kept(ord.take(ord.len() - rest@.len()), *o)[i],
                    *o,
                ),
            forall|i: int|
                0 <= i < rows@.len() ==> recurse_matches(
                    #[trigger] rows@[i].recurse_into,
                    row_recurse_spec(parent@, kept(ord.take(ord.len() - rest@.len()), *o)[i], *o),
                ),
        decreases rest.len(),
    {
        let ghost k = ord.len() - rest@.len();
        let ghost kept_before = kept(ord.take(k as int), *o);
        let e = rest.remove(0);
        proof {
            assert(e == ord[k as int]);
            assert(rest@ =~= ord.skip(k + 1));
            assert(ord.take(k + 1).drop_last() =~= ord.take(k as int));
            assert(ord.take(k + 1).last() == ord[k as int]);
        }
        let visible = check_name_visible(&e.name, o.show_hidden);
        if visible {
            match &e.meta {
                Some(m) => {
                    if !o.directories_only || m.is_dir {
                        let line = render_entry(&e.name, m, o);
                        let rec = if o.recursive && m.is_dir {
                            Some(join_path(parent, &e.name))
                        } else {
                            None
                        };
                        rows.push(Row { line, recurse_into: rec });
                        proof {
                            assert(emitted(e, *o));
                            assert(kept(ord.take(k + 1), *o) =~= kept_before + seq![e]);
                        }
                    } else {
                        proof {
                            assert(!emitted(e, *o));
                            assert(kept(ord.take(k + 1), *o) =~= kept_before);
                        }
                    }
                },
                None => {
                    proof {
                        assert(!emitted(e, *o));
                        assert(kept(ord.take(k + 1), *o) =~= kept_before);
                    }
                },
            }
        } else {
            proof {
                assert(!emitted(e, *o));
                assert(kept(ord.take(k + 1), *o) =~= kept_before);
            }
        }
    }
    proof {
        assert(ord.take(ord.len() as int) =~= ord);
    }
    rows
}

} // verus!
