//! Directory listings: which entries a listing keeps and in what order it
//! returns them.
//!
//! A listing keeps an entry only if the entry's type could be determined
//! and is a regular file, and its name is representable as text; every
//! other entry is silently skipped. The names kept are returned sorted in
//! ascending lexicographic order.

use vstd::prelude::*;
use vstd::relations::sorted_by;
use vstd::seq_lib::lemma_sorted_unique;
use crate::order::{lex_leq, lex_leq_fn, str_lex_leq, lemma_lex_leq_total_ordering,
    lemma_lex_leq_connected, lemma_lex_leq_transitive};

verus! {

/// What the host shell observed of one directory entry: whether the
/// entry's type could be read, whether that type is a regular file, and
/// the entry's name where it is representable as text.
pub struct DirEntryInfo {
    /// The entry's type could be determined.
    pub kind_known: bool,
    /// The entry is a regular file (meaningful only when the type is known).
    pub is_file: bool,
    /// The entry's name, or `None` where it is not representable as text.
    pub name: Option<String>,
}

/// An entry appears in a listing exactly when its type is known to be a
/// regular file and its name is representable as text.
pub open spec fn listed(e: DirEntryInfo) -> bool {
    e.kind_known && e.is_file && e.name is Some
}

/// The name under which a listed entry appears.
pub open spec fn listed_name(e: DirEntryInfo) -> Seq<char> {
    e.name.unwrap()@
}

/// The names of the listed entries, in the order the entries came.
pub open spec fn listed_names(entries: Seq<DirEntryInfo>) -> Seq<Seq<char>>
    decreases entries.len(),
{
    if entries.len() == 0 {
        Seq::empty()
    } else {
        let rest = listed_names(entries.drop_last());
        if listed(entries.last()) {
            rest.push(listed_name(entries.last()))
        } else {
            rest
        }
    }
}

/// The texts that a sequence of names holds.
pub open spec fn name_views(names: Seq<String>) -> Seq<Seq<char>> {
    names.map_values(|s: String| s@)
}

/// Places a name into an alphabetically sorted sequence, keeping it sorted.
fn insert_in_order(names: &mut Vec<String>, value: String)
    requires
        sorted_by(name_views(old(names)@), lex_leq_fn()),
    ensures
        sorted_by(name_views(final(names)@), lex_leq_fn()),
        name_views(final(names)@).to_multiset() == name_views(old(names)@).to_multiset().insert(
            value@,
        ),
{
    let ghost old_views = name_views(names@);
    let mut j: usize = 0;
    while j < names.len() && !str_lex_leq(value.as_str(), names[j].as_str())
        invariant
            j <= names@.len(),
            names@ == old(names)@,
            old_views == name_views(names@),
            forall|k: int| 0 <= k < j ==> !lex_leq(value@, #[trigger] old_views[k]),
        decreases names@.len() - j,
    {
        j = j + 1;
    }
    proof {
        assert forall|k: int| 0 <= k < j implies lex_leq(#[trigger] old_views[k], value@) by {
            lemma_lex_leq_connected(old_views[k], value@);
        }
    }
    let ghost j_pos = j as int;
    names.insert(j, value);
    proof {
        let leq = lex_leq_fn();
        let new_views = name_views(names@);
        assert(new_views =~= old_views.insert(j_pos, value@));
        assert forall|i1: int, i2: int| 0 <= i1 < i2 < new_views.len()
            implies #[trigger] leq(new_views[i1], new_views[i2]) by {
            if i1 < j_pos && i2 == j_pos {
                assert(leq(old_views[i1], value@));
            } else if i1 == j_pos && i2 > j_pos {
                assert(leq(value@, old_views[j_pos]));
                if i2 - 1 > j_pos {
                    assert(leq(old_views[j_pos], old_views[i2 - 1]));
                    lemma_lex_leq_transitive(value@, old_views[j_pos], old_views[i2 - 1]);
                }
            } else if i1 < j_pos && i2 > j_pos {
                assert(leq(old_views[i1], old_views[i2 - 1]));
            } else if i1 > j_pos {
                assert(leq(old_views[i1 - 1], old_views[i2 - 1]));
            } else {
                assert(leq(old_views[i1], old_views[i2]));
            }
        }
        vstd::seq_lib::to_multiset_insert(old_views, j_pos, value@);
        assert(new_views.to_multiset() == old_views.to_multiset().insert(value@));
    }
}

/// Sorts names into ascending lexicographic order. The result is the one
/// sorted arrangement of exactly the names given.
pub fn sort_names(names: Vec<String>) -> (sorted: Vec<String>)
    ensures
        sorted_by(name_views(sorted@), lex_leq_fn()),
        name_views(sorted@).to_multiset() == name_views(names@).to_multiset(),
        name_views(sorted@) == name_views(names@).sort_by(lex_leq_fn()),
{
    broadcast use vstd::seq_lib::group_to_multiset_ensures;

    let mut out: Vec<String> = Vec::new();
    let mut i: usize = 0;
    proof {
        assert(name_views(names@.subrange(0, 0)) =~= Seq::empty());
        assert(name_views(out@) =~= Seq::empty());
    }
    while i < names.len()
        invariant
            i <= names@.len(),
            sorted_by(name_views(out@), lex_leq_fn()),
            name_views(out@).to_multiset() == name_views(
                names@.subrange(0, i as int),
            ).to_multiset(),
        decreases names@.len() - i,
    {
        let ghost pre = names@.subrange(0, i as int);
        let x = names[i].clone();
        assert(x@ == names@[i as int]@);
        insert_in_order(&mut out, x);
        proof {
            let post = names@.subrange(0, i + 1);
            assert(post.drop_last() =~= pre);
            assert(post.last() == names@[i as int]);
            assert(name_views(post) =~= name_views(pre).push(names@[i as int]@));
            vstd::seq_lib::to_multiset_build(name_views(pre), names@[i as int]@);
        }
        i = i + 1;
    }
    proof {
        assert(names@.subrange(0, names@.len() as int) =~= names@);
        lemma_lex_leq_total_ordering();
        name_views(names@).lemma_sort_by_ensures(lex_leq_fn());
        lemma_sorted_unique(
            name_views(out@),
            name_views(names@).sort_by(lex_leq_fn()),
            lex_leq_fn(),
        );
    }
    out
}

/// The names of the regular files among the entries observed in a
/// directory, sorted in ascending lexicographic order. Entries whose type
/// could not be read, entries that are not regular files, and entries
/// whose name is not representable as text are skipped.
pub fn sorted_file_names(entries: &Vec<DirEntryInfo>) -> (names: Vec<String>)
    ensures
        sorted_by(name_views(names@), lex_leq_fn()),
        name_views(names@).to_multiset() == listed_names(entries@).to_multiset(),
        name_views(names@) == listed_names(entries@).sort_by(lex_leq_fn()),
{
    broadcast use vstd::seq_lib::group_to_multiset_ensures;

    let mut raw: Vec<String> = Vec::new();
    let mut i: usize = 0;
    proof {
        assert(listed_names(entries@.subrange(0, 0)) =~= Seq::empty());
        assert(name_views(raw@) =~= Seq::empty());
    }
    while i < entries.len()
        invariant
            i <= entries@.len(),
            name_views(raw@) == listed_names(entries@.subrange(0, i as int)),
        decreases entries@.len() - i,
    {
        let ghost pre = entries@.subrange(0, i as int);
        let e = &entries[i];
        if e.kind_known && e.is_file {
            if let Some(n) = &e.name {
                let ghost before = name_views(raw@);
                raw.push(n.clone());
                proof {
                    assert(name_views(raw@) =~= before.push(n@));
                }
            }
        }
        proof {
            let post = entries@.subrange(0, i + 1);
            assert(post.drop_last() =~= pre);
            assert(post.last() == entries@[i as int]);
        }
        i = i + 1;
    }
    proof {
        assert(entries@.subrange(0, entries@.len() as int) =~= entries@);
    }
    sort_names(raw)
}

/// The listing built from what directory enumeration gave. Enumeration
/// itself failing is treated as "no files" rather than an error — the
/// bridge's lenient-degradation policy; a successful enumeration is
/// filtered and sorted as [`sorted_file_names`] says.
pub fn list_outcome(observed: Option<Vec<DirEntryInfo>>) -> (names: Vec<String>)
    ensures
        observed is None ==> names@.len() == 0,
        observed matches Some(entries) ==> (sorted_by(name_views(names@), lex_leq_fn())
            && name_views(names@).to_multiset() == listed_names(entries@).to_multiset()
            && name_views(names@) == listed_names(entries@).sort_by(lex_leq_fn())),
{
    match observed {
        None => Vec::new(),
        Some(entries) => sorted_file_names(&entries),
    }
}

} // verus!
