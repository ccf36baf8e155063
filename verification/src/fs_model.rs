//! A model of the directory trees the walker traverses: entries are regular
//! files, symbolic links, or directories with further entries. The traversal
//! collects the full path of every file whose name carries the
//! project-descriptor extension, descends into directories, and never
//! follows a symbolic link, whatever stands behind its target.

use crate::matcher::{has_project_extension, is_project_file_name};
use vstd::prelude::*;

verus! {

/// One entry of a directory tree. A link records the tree its target
/// resolves to, so that never following it is a statement about every
/// possible target, not an artifact of the model. An unreadable entry is
/// one that cannot be stat'ed or read: it is silently skipped, which may
/// reduce what is found but never aborts the walk.
pub enum FsEntry {
    File { name: String },
    Link { name: String, target: Box<FsEntry> },
    Dir { name: String, entries: Vec<FsEntry> },
    Unreadable { name: String },
}

/// The character views of a sequence of strings.
pub open spec fn views_of(ss: Seq<String>) -> Seq<Seq<char>> {
    ss.map_values(|s: String| s@)
}

/// A full path: the parent prefix, a separator, the entry's own name.
pub open spec fn path_join(prefix: Seq<char>, name: Seq<char>) -> Seq<char> {
    prefix + seq!['/'] + name
}

/// The matches one entry under the given prefix contributes: a matching
/// file's own path, nothing for a link or an unreadable entry, and for a
/// directory the matches of its entries under the extended prefix.
pub open spec fn entry_matches(prefix: Seq<char>, e: FsEntry) -> Seq<Seq<char>>
    decreases e, 0int,
{
    match e {
        FsEntry::File { name } => if is_project_file_name(name@) {
            seq![path_join(prefix, name@)]
        } else {
            Seq::empty()
        },
        FsEntry::Link { .. } => Seq::empty(),
        FsEntry::Dir { name, entries } => matches_from(path_join(prefix, name@), entries@, 0),
        FsEntry::Unreadable { .. } => Seq::empty(),
    }
}

/// The matches contributed by the entries from index `i` on, in order.
pub open spec fn matches_from(prefix: Seq<char>, es: Seq<FsEntry>, i: int) -> Seq<Seq<char>>
    decreases es, es.len() - i + 1,
{
    if 0 <= i < es.len() {
        entry_matches(prefix, es[i]) + matches_from(prefix, es, i + 1)
    } else {
        Seq::empty()
    }
}

/// Every matching file reachable from the search root without following a
/// symbolic link, in traversal order.
pub open spec fn matches_in_tree(root: Seq<char>, es: Seq<FsEntry>) -> Seq<Seq<char>> {
    matches_from(root, es, 0)
}

/// Appends one path component to a prefix.
pub fn join_path(prefix: &str, name: &str) -> (r: String)
    ensures
        r@ == path_join(prefix@, name@),
{
    proof {
        reveal_strlit("/");
    }
    let mut s = String::from_str(prefix);
    s.append("/");
    s.append(name);
    proof {
        assert(s@ =~= path_join(prefix@, name@));
    }
    s
}

fn collect_entry(prefix: &str, e: &FsEntry, out: &mut Vec<String>)
    ensures
        views_of(final(out)@) == views_of(old(out)@) + entry_matches(prefix@, *e),
    decreases *e, 0int,
{
    match e {
        FsEntry::File { name } => {
            if has_project_extension(name.as_str()) {
                let p = join_path(prefix, name.as_str());
                out.push(p);
            }
            proof {
                assert(views_of(out@) =~= views_of(old(out)@) + entry_matches(prefix@, *e));
            }
        },
        FsEntry::Link { .. } => {
            proof {
                assert(views_of(out@) =~= views_of(old(out)@) + entry_matches(prefix@, *e));
            }
        },
        FsEntry::Dir { name, entries } => {
            let p = join_path(prefix, name.as_str());
            collect_from(p.as_str(), entries, 0, out);
        },
        FsEntry::Unreadable { .. } => {
            proof {
                assert(views_of(out@) =~= views_of(old(out)@) + entry_matches(prefix@, *e));
            }
        },
    }
}

fn collect_from(prefix: &str, es: &Vec<FsEntry>, i: usize, out: &mut Vec<String>)
    requires
        i <= es@.len(),
    ensures
        views_of(final(out)@) == views_of(old(out)@) + matches_from(prefix@, es@, i as int),
    decreases es@, es@.len() - i + 1,
{
    if i < es.len() {
        collect_entry(prefix, &es[i], out);
        collect_from(prefix, es, i + 1, out);
        proof {
            assert(views_of(out@) =~= views_of(old(out)@) + matches_from(prefix@, es@, i as int));
        }
    } else {
        proof {
            assert(views_of(out@) =~= views_of(old(out)@) + matches_from(prefix@, es@, i as int));
        }
    }
}

/// The traversal model of the concurrent walker: collects the full path of
/// every matching file reachable from the search root, skipping symbolic
/// links, in traversal order.
pub fn collect_matches(root: &str, entries: &Vec<FsEntry>) -> (r: Vec<String>)
    ensures
        views_of(r@) == matches_in_tree(root@, entries@),
{
    let mut out: Vec<String> = Vec::new();
    collect_from(root, entries, 0, &mut out);
    out
}

/// The number of per-entry visit decisions a walk of one entry makes when
/// nothing cuts it short: one for the entry itself, plus one for
/// everything below a directory.
pub open spec fn entry_size(e: FsEntry) -> nat
    decreases e, 0int,
{
    match e {
        FsEntry::Dir { entries, .. } => 1 + list_size_from(entries@, 0),
        _ => 1,
    }
}

/// The number of per-entry visit decisions a walk of the entries from
/// index `i` on makes when nothing cuts it short.
pub open spec fn list_size_from(es: Seq<FsEntry>, i: int) -> nat
    decreases es, es.len() - i + 1,
{
    if 0 <= i < es.len() {
        entry_size(es[i]) + list_size_from(es, i + 1)
    } else {
        0
    }
}

proof fn lemma_entry_size_pos(e: FsEntry)
    ensures
        entry_size(e) >= 1,
{
}

proof fn lemma_take_concat_left(a: Seq<Seq<char>>, b: Seq<Seq<char>>, n: int)
    requires
        0 <= n <= a.len(),
    ensures
        (a + b).take(n) == a.take(n),
{
    assert((a + b).take(n) =~= a.take(n));
}

proof fn lemma_take_concat_right(a: Seq<Seq<char>>, b: Seq<Seq<char>>, n: int)
    requires
        0 <= n <= b.len(),
    ensures
        (a + b).take(a.len() + n) == a + b.take(n),
{
    assert((a + b).take(a.len() + n) =~= a + b.take(n));
}

fn walk_entry_until(prefix: &str, e: &FsEntry, fuel: &mut usize, out: &mut Vec<String>)
    ensures
        *final(fuel) <= *old(fuel),
        exists|n: int|
            0 <= n <= entry_matches(prefix@, *e).len() && views_of(final(out)@) == views_of(
                old(out)@,
            ) + entry_matches(prefix@, *e).take(n),
        *final(fuel) > 0 ==> views_of(final(out)@) == views_of(old(out)@) + entry_matches(
            prefix@,
            *e,
        ),
        *old(fuel) == 0 ==> final(out)@ == old(out)@,
        *old(fuel) >= entry_size(*e) ==> views_of(final(out)@) == views_of(old(out)@)
            + entry_matches(prefix@, *e) && *final(fuel) == *old(fuel) - entry_size(*e),
    decreases *e, 0int,
{
    proof {
        lemma_entry_size_pos(*e);
    }
    let m = Ghost(entry_matches(prefix@, *e));
    if *fuel == 0 {
        proof {
            assert(views_of(out@) =~= views_of(old(out)@) + m@.take(0));
        }
        return;
    }
    *fuel = *fuel - 1;
    match e {
        FsEntry::File { name } => {
            if has_project_extension(name.as_str()) {
                let p = join_path(prefix, name.as_str());
                out.push(p);
            }
            proof {
                assert(m@.take(m@.len() as int) =~= m@);
                assert(views_of(out@) =~= views_of(old(out)@) + m@);
            }
        },
        FsEntry::Link { .. } => {
            proof {
                assert(m@.take(0) =~= m@);
                assert(views_of(out@) =~= views_of(old(out)@) + m@);
            }
        },
        FsEntry::Unreadable { .. } => {
            proof {
                assert(m@.take(0) =~= m@);
                assert(views_of(out@) =~= views_of(old(out)@) + m@);
            }
        },
        FsEntry::Dir { name, entries } => {
            let p = join_path(prefix, name.as_str());
            walk_from_until(p.as_str(), entries, 0, fuel, out);
            proof {
                assert(m@ == matches_from(p@, entries@, 0));
            }
        },
    }
}

fn walk_from_until(prefix: &str, es: &Vec<FsEntry>, i: usize, fuel: &mut usize, out: &mut Vec<
    String,
>)
    requires
        i <= es@.len(),
    ensures
        *final(fuel) <= *old(fuel),
        exists|n: int|
            0 <= n <= matches_from(prefix@, es@, i as int).len() && views_of(final(out)@)
                == views_of(old(out)@) + matches_from(prefix@, es@, i as int).take(n),
        *final(fuel) > 0 ==> views_of(final(out)@) == views_of(old(out)@) + matches_from(
            prefix@,
            es@,
            i as int,
        ),
        *old(fuel) == 0 ==> final(out)@ == old(out)@,
        *old(fuel) >= list_size_from(es@, i as int) ==> views_of(final(out)@) == views_of(
            old(out)@,
        ) + matches_from(prefix@, es@, i as int) && *final(fuel) == *old(fuel) - list_size_from(
            es@,
            i as int,
        ),
    decreases es@, es@.len() - i + 1,
{
    let m = Ghost(matches_from(prefix@, es@, i as int));
    if i >= es.len() {
        proof {
            assert(m@.take(0) =~= m@);
            assert(views_of(out@) =~= views_of(old(out)@) + m@);
        }
        return;
    }
    if *fuel == 0 {
        proof {
            lemma_entry_size_pos(es@[i as int]);
            assert(views_of(out@) =~= views_of(old(out)@) + m@.take(0));
        }
        return;
    }
    let a = Ghost(entry_matches(prefix@, es@[i as int]));
    let b = Ghost(matches_from(prefix@, es@, i as int + 1));
    let fuel0 = Ghost(*fuel);
    walk_entry_until(prefix, &es[i], fuel, out);
    let mid = Ghost(out@);
    let fuel1 = Ghost(*fuel);
    walk_from_until(prefix, es, i + 1, fuel, out);
    proof {
        assert(m@ == a@ + b@);
        let n1 = choose|n: int|
            0 <= n <= a@.len() && views_of(mid@) == views_of(old(out)@) + a@.take(n);
        if fuel1@ > 0 {
            let n2 = choose|n: int|
                0 <= n <= b@.len() && views_of(out@) == views_of(mid@) + b@.take(n);
            lemma_take_concat_right(a@, b@, n2);
            assert(views_of(out@) =~= views_of(old(out)@) + m@.take(a@.len() + n2));
        } else {
            assert(out@ == mid@);
            lemma_take_concat_left(a@, b@, n1);
            assert(views_of(out@) =~= views_of(old(out)@) + m@.take(n1));
        }
        if *fuel > 0 {
            assert(views_of(out@) =~= views_of(old(out)@) + m@);
        }
        if fuel0@ >= list_size_from(es@, i as int) {
            assert(views_of(out@) =~= views_of(old(out)@) + m@);
        }
    }
}

/// The walk under cooperative cancellation: the flag becomes visible after
/// `decisions_before_cancel` per-entry visit decisions, and from then on
/// no entry is eligible. Whatever the cut-off, the collected paths are a
/// best-effort prefix of the full walk's matches and never hold a file
/// outside the matched set; a walk the flag never reaches collects every
/// match. The walk terminates on every tree, cancelled or not.
pub fn collect_matches_cancelled(
    root: &str,
    entries: &Vec<FsEntry>,
    decisions_before_cancel: usize,
) -> (r: Vec<String>)
    ensures
        exists|n: int|
            0 <= n <= matches_in_tree(root@, entries@).len() && views_of(r@) == matches_in_tree(
                root@,
                entries@,
            ).take(n),
        decisions_before_cancel >= list_size_from(entries@, 0) ==> views_of(r@)
            == matches_in_tree(root@, entries@),
{
    let mut fuel = decisions_before_cancel;
    let mut out: Vec<String> = Vec::new();
    walk_from_until(root, entries, 0, &mut fuel, &mut out);
    proof {
        let m = matches_in_tree(root@, entries@);
        let n = choose|n: int|
            0 <= n <= m.len() && views_of(out@) == views_of(Seq::<String>::empty()) + m.take(n);
        assert(views_of(out@) =~= m.take(n));
        if decisions_before_cancel >= list_size_from(entries@, 0) {
            assert(views_of(out@) =~= m);
        }
    }
    out
}

/// A symbolic link is never followed: it contributes no match, whatever
/// tree stands behind its target.
pub proof fn lemma_link_never_followed(prefix: Seq<char>, e: FsEntry)
    requires
        e is Link,
    ensures
        entry_matches(prefix, e) == Seq::<Seq<char>>::empty(),
{
}

/// An entry that cannot be stat'ed or read is silently skipped: it
/// contributes no match and never aborts the walk. It can only reduce what
/// is found, which may turn a would-be unique match into no match at all.
pub proof fn lemma_unreadable_skipped(prefix: Seq<char>, e: FsEntry)
    requires
        e is Unreadable,
    ensures
        entry_matches(prefix, e) == Seq::<Seq<char>>::empty(),
{
}

/// Extending a matching name by a path prefix keeps the match: the joined
/// path still ends with the project-descriptor suffix.
pub proof fn lemma_join_keeps_suffix(prefix: Seq<char>, name: Seq<char>)
    requires
        is_project_file_name(name),
    ensures
        is_project_file_name(path_join(prefix, name)),
{
    let p = path_join(prefix, name);
    let l = crate::matcher::project_suffix().len() as int;
    assert(p.subrange(p.len() - l, p.len() as int) =~= name.subrange(
        name.len() - l,
        name.len() as int,
    ));
}

proof fn lemma_prefix_trans(a: Seq<char>, b: Seq<char>, c: Seq<char>)
    requires
        a.is_prefix_of(b),
        b.is_prefix_of(c),
    ensures
        a.is_prefix_of(c),
{
    assert(a =~= c.subrange(0, a.len() as int));
}

/// Every path one entry contributes lies under the walk's prefix: the
/// prefix, extended by a separator, opens each of them.
pub proof fn lemma_entry_matches_under_prefix(prefix: Seq<char>, e: FsEntry)
    ensures
        forall|k: int|
            0 <= k < entry_matches(prefix, e).len() ==> (prefix + seq!['/']).is_prefix_of(
                entry_matches(prefix, e)[k],
            ),
    decreases e, 0int,
{
    match e {
        FsEntry::File { name } => {
            if is_project_file_name(name@) {
                assert((prefix + seq!['/']).is_prefix_of(path_join(prefix, name@))) by {
                    assert(prefix + seq!['/'] =~= path_join(prefix, name@).subrange(
                        0,
                        prefix.len() as int + 1,
                    ));
                }
                assert forall|k: int| 0 <= k < entry_matches(prefix, e).len() implies (prefix
                    + seq!['/']).is_prefix_of(entry_matches(prefix, e)[k]) by {
                    assert(entry_matches(prefix, e)[k] == path_join(prefix, name@));
                }
            } else {
                assert(entry_matches(prefix, e).len() == 0);
            }
        },
        FsEntry::Link { .. } => {
            assert(entry_matches(prefix, e).len() == 0);
        },
        FsEntry::Unreadable { .. } => {
            assert(entry_matches(prefix, e).len() == 0);
        },
        FsEntry::Dir { name, entries } => {
            let sub = path_join(prefix, name@);
            lemma_matches_under_prefix(sub, entries@, 0);
            assert((prefix + seq!['/']).is_prefix_of(sub + seq!['/'])) by {
                assert(prefix + seq!['/'] =~= (sub + seq!['/']).subrange(0, prefix.len() as int + 1));
            }
            assert forall|k: int| 0 <= k < entry_matches(prefix, e).len() implies (prefix
                + seq!['/']).is_prefix_of(entry_matches(prefix, e)[k]) by {
                assert(entry_matches(prefix, e)[k] == matches_from(sub, entries@, 0)[k]);
                lemma_prefix_trans(
                    prefix + seq!['/'],
                    sub + seq!['/'],
                    matches_from(sub, entries@, 0)[k],
                );
            }
        },
    }
}

/// Every path a run of entries contributes lies under the walk's prefix.
pub proof fn lemma_matches_under_prefix(prefix: Seq<char>, es: Seq<FsEntry>, i: int)
    ensures
        forall|k: int|
            0 <= k < matches_from(prefix, es, i).len() ==> (prefix + seq!['/']).is_prefix_of(
                matches_from(prefix, es, i)[k],
            ),
    decreases es, es.len() - i + 1,
{
    if 0 <= i < es.len() {
        lemma_entry_matches_under_prefix(prefix, es[i]);
        lemma_matches_under_prefix(prefix, es, i + 1);
        let head = entry_matches(prefix, es[i]);
        let tail = matches_from(prefix, es, i + 1);
        assert forall|k: int| 0 <= k < matches_from(prefix, es, i).len() implies (prefix
            + seq!['/']).is_prefix_of(matches_from(prefix, es, i)[k]) by {
            if k < head.len() {
                assert((head + tail)[k] == head[k]);
            } else {
                assert((head + tail)[k] == tail[k - head.len()]);
            }
        }
    }
}

/// Only matching files are ever collected: every path one entry contributes
/// ends with the project-descriptor suffix, whatever the entry's name
/// otherwise resembles.
pub proof fn lemma_entry_matches_filtered(prefix: Seq<char>, e: FsEntry)
    ensures
        forall|k: int|
            0 <= k < entry_matches(prefix, e).len() ==> is_project_file_name(
                entry_matches(prefix, e)[k],
            ),
    decreases e, 0int,
{
    match e {
        FsEntry::File { name } => {
            if is_project_file_name(name@) {
                lemma_join_keeps_suffix(prefix, name@);
                assert forall|k: int| 0 <= k < entry_matches(prefix, e).len() implies
                    is_project_file_name(entry_matches(prefix, e)[k]) by {
                    assert(entry_matches(prefix, e)[k] == path_join(prefix, name@));
                }
            } else {
                assert(entry_matches(prefix, e).len() == 0);
            }
        },
        FsEntry::Link { .. } => {
            assert(entry_matches(prefix, e).len() == 0);
        },
        FsEntry::Unreadable { .. } => {
            assert(entry_matches(prefix, e).len() == 0);
        },
        FsEntry::Dir { name, entries } => {
            lemma_matches_from_filtered(path_join(prefix, name@), entries@, 0);
            assert forall|k: int| 0 <= k < entry_matches(prefix, e).len() implies
                is_project_file_name(entry_matches(prefix, e)[k]) by {
                assert(entry_matches(prefix, e)[k] == matches_from(
                    path_join(prefix, name@),
                    entries@,
                    0,
                )[k]);
            }
        },
    }
}

/// Only matching files are ever collected, over a run of entries.
pub proof fn lemma_matches_from_filtered(prefix: Seq<char>, es: Seq<FsEntry>, i: int)
    ensures
        forall|k: int|
            0 <= k < matches_from(prefix, es, i).len() ==> is_project_file_name(
                matches_from(prefix, es, i)[k],
            ),
    decreases es, es.len() - i + 1,
{
    if 0 <= i < es.len() {
        lemma_entry_matches_filtered(prefix, es[i]);
        lemma_matches_from_filtered(prefix, es, i + 1);
        let head = entry_matches(prefix, es[i]);
        let tail = matches_from(prefix, es, i + 1);
        assert forall|k: int| 0 <= k < matches_from(prefix, es, i).len() implies
            is_project_file_name(matches_from(prefix, es, i)[k]) by {
            if k < head.len() {
                assert((head + tail)[k] == head[k]);
            } else {
                assert((head + tail)[k] == tail[k - head.len()]);
            }
        }
    }
}

} // verus!
