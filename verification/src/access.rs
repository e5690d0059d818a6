//! Access propagation: which directories a group must be able to read and
//! traverse so that it can reach a set of target directories, and the
//! access control list entry that grants it.
//!
//! Paths are texts with `/` between their components. The ancestors of a
//! path are found in the text alone; nothing is looked up on disk. Two
//! texts spell the same directory when they have the same components, so a
//! trailing separator, a doubled separator or a `.` component makes no
//! second directory.

use vstd::prelude::*;
use crate::commands::CommandResult;
use crate::text::{chars_of, lemma_texts_push, occurs_at, owned, starts_with, text_of, texts};

verus! {

/// A path whose ancestors are to be opened up, with what the file system
/// says about it.
#[derive(Debug, PartialEq, Eq)]
pub struct Target {
    pub path: String,
    /// Whether the path is an existing directory.
    pub is_dir: bool,
}

/// One entry to add to the access control list of one directory.
#[derive(Debug, PartialEq, Eq)]
pub struct AclGrant {
    pub directory: String,
    /// The entry in the notation of the tool that sets it.
    pub entry: String,
}

/// Why access propagation was given up.
#[derive(Clone, Copy, PartialEq, Eq, Debug)]
pub enum AccessError {
    /// The tool that sets access control lists could not be started.
    FacilityUnusable,
}

/// A run of characters between separators names a component unless it is
/// empty, as between doubled separators and after a trailing one, or is
/// `.`, which stands for the directory it is found in.
pub open spec fn names_component(run: Seq<char>) -> bool {
    run.len() > 0 && run != seq!['.']
}

/// The run of characters after the last separator of `p`.
pub open spec fn open_run(p: Seq<char>) -> Seq<char>
    decreases p.len(),
{
    if p.len() == 0 || p.last() == '/' {
        Seq::empty()
    } else {
        open_run(p.drop_last()).push(p.last())
    }
}

/// `cs` with `run` behind it, where that names a component.
pub open spec fn with_run(cs: Seq<Seq<char>>, run: Seq<char>) -> Seq<Seq<char>> {
    if names_component(run) {
        cs.push(run)
    } else {
        cs
    }
}

/// The components of `p` that a separator has closed.
pub open spec fn closed_components(p: Seq<char>) -> Seq<Seq<char>>
    decreases p.len(),
{
    if p.len() == 0 {
        Seq::empty()
    } else if p.last() == '/' {
        with_run(closed_components(p.drop_last()), open_run(p.drop_last()))
    } else {
        closed_components(p.drop_last())
    }
}

/// The components of a path, in order: what is left of the text between
/// its separators once empty runs and `.` are taken away.
pub open spec fn components(p: Seq<char>) -> Seq<Seq<char>> {
    with_run(closed_components(p), open_run(p))
}

/// Whether a path starts at the root.
pub open spec fn is_absolute(p: Seq<char>) -> bool {
    p.len() > 0 && p[0] == '/'
}

/// Two texts spell the same directory: they agree once trailing
/// separators, doubled separators and `.` components are taken away.
pub open spec fn same_directory(a: Seq<char>, b: Seq<char>) -> bool {
    is_absolute(a) == is_absolute(b) && components(a) == components(b)
}

/// An ancestor of `p` ends just before position `i`: a separator stands
/// there that closes a component, and `p` has further components behind
/// it. The root is no ancestor, since no component stands before its
/// separator.
pub open spec fn is_cut(p: Seq<char>, i: int) -> bool {
    &&& 0 < i < p.len()
    &&& p[i] == '/'
    &&& names_component(open_run(p.take(i)))
    &&& components(p.take(i)).len() < components(p).len()
}

/// `a` spells a proper ancestor directory of the path `p`, the root
/// excluded.
pub open spec fn is_ancestor(a: Seq<char>, p: Seq<char>) -> bool {
    exists|i: int| is_cut(p, i) && a == p.take(i)
}

/// `d` must be opened up on account of `t`: it is `t` itself where that is
/// a directory, or one of its ancestors.
pub open spec fn opened_by(t: Target, d: Seq<char>) -> bool {
    (t.is_dir && d == t.path@) || is_ancestor(d, t.path@)
}

/// `d` is a spelling of a directory in the ancestor closure of `targets`.
pub open spec fn in_closure(targets: Seq<Target>, d: Seq<char>) -> bool {
    exists|k: int| 0 <= k < targets.len() && opened_by(#[trigger] targets[k], d)
}

/// One of `list` spells the directory `d`.
pub open spec fn covered(list: Seq<String>, d: Seq<char>) -> bool {
    exists|i: int| 0 <= i < list.len() && same_directory((#[trigger] list[i])@, d)
}

/// No two of `list` spell the same directory.
pub open spec fn apart(list: Seq<String>) -> bool {
    forall|i: int, j: int| 0 <= i < j < list.len() ==> !same_directory(list[i]@, list[j]@)
}

/// How the run and the closed components of a text go on with its next
/// character.
proof fn lemma_next_character(p: Seq<char>, i: int)
    requires
        0 <= i < p.len(),
    ensures
        p[i] == '/' ==> open_run(p.take(i + 1)) == Seq::<char>::empty() && closed_components(
            p.take(i + 1),
        ) == components(p.take(i)),
        p[i] != '/' ==> open_run(p.take(i + 1)) == open_run(p.take(i)).push(p[i])
            && closed_components(p.take(i + 1)) == closed_components(p.take(i)),
{
    assert(p.take(i + 1).drop_last() =~= p.take(i));
    assert(p.take(i + 1).last() == p[i]);
}

/// Splits a path into its components.
pub fn path_components(path: &str) -> (r: Vec<String>)
    ensures
        texts(r@) == components(path@),
{
    let p = chars_of(path);
    let mut closed: Vec<String> = Vec::new();
    let mut run = String::new();
    let mut empty = true;
    let mut dot = false;
    let mut i: usize = 0;
    while i < p.len()
        invariant
            i <= p.len(),
            p@ == path@,
            texts(closed@) == closed_components(p@.take(i as int)),
            run@ == open_run(p@.take(i as int)),
            empty == (run@.len() == 0),
            dot == (run@ == seq!['.']),
        decreases p.len() - i,
    {
        proof {
            lemma_next_character(p@, i as int);
        }
        if p[i] == '/' {
            if !empty && !dot {
                proof {
                    lemma_texts_push(closed@, run);
                }
                closed.push(run);
            }
            run = String::new();
            empty = true;
            dot = false;
        } else {
            let ghost before = run@;
            dot = empty && p[i] == '.';
            run.push(p[i]);
            empty = false;
            assert(dot == (run@ == seq!['.'])) by {
                if run@ == seq!['.'] {
                    assert(run@.len() == 1);
                    assert(run@[0] == '.');
                }
                if dot {
                    assert(run@ =~= seq!['.']);
                }
            }
        }
        i += 1;
    }
    assert(p@.take(p.len() as int) =~= p@);
    if !empty && !dot {
        proof {
            lemma_texts_push(closed@, run);
        }
        closed.push(run);
    }
    closed
}

/// Whether two texts spell the same directory.
pub fn same_dir(a: &str, b: &str) -> (r: bool)
    ensures
        r == same_directory(a@, b@),
{
    if starts_with(a, "/") != starts_with(b, "/") {
        proof {
            lemma_rooted(a@);
            lemma_rooted(b@);
        }
        return false;
    }
    proof {
        lemma_rooted(a@);
        lemma_rooted(b@);
    }
    let ca = path_components(a);
    let cb = path_components(b);
    if ca.len() != cb.len() {
        assert(texts(ca@).len() != texts(cb@).len());
        return false;
    }
    let mut i: usize = 0;
    while i < ca.len()
        invariant
            i <= ca.len(),
            ca.len() == cb.len(),
            is_absolute(a@) == is_absolute(b@),
            texts(ca@) == components(a@),
            texts(cb@) == components(b@),
            forall|j: int| 0 <= j < i ==> ca@[j]@ == cb@[j]@,
        decreases ca.len() - i,
    {
        if ca[i] != cb[i] {
            assert(texts(ca@)[i as int] != texts(cb@)[i as int]);
            return false;
        }
        i += 1;
    }
    assert(texts(ca@) =~= texts(cb@));
    true
}

/// A text starts with a separator exactly when it is absolute.
proof fn lemma_rooted(p: Seq<char>)
    ensures
        occurs_at(p, "/"@, 0) == is_absolute(p),
{
    reveal_strlit("/");
    if is_absolute(p) {
        assert(p.subrange(0, 1) =~= "/"@);
    }
    if occurs_at(p, "/"@, 0) {
        assert(p.subrange(0, 1)[0] == '/');
    }
}

/// Adds `d` to `list` unless one of `list` spells the same directory.
fn note(list: &mut Vec<String>, d: String)
    requires
        apart(old(list)@),
    ensures
        apart(final(list)@),
        final(list)@ == if covered(old(list)@, d@) {
            old(list)@
        } else {
            old(list)@.push(d)
        },
{
    let mut i: usize = 0;
    while i < list.len()
        invariant
            i <= list.len(),
            list@ == old(list)@,
            apart(list@),
            forall|j: int| 0 <= j < i ==> !same_directory((#[trigger] list@[j])@, d@),
        decreases list.len() - i,
    {
        if same_dir(list[i].as_str(), d.as_str()) {
            return ;
        }
        i += 1;
    }
    list.push(d);
}

/// A list that grew by one spelling still spells what it spelt before.
proof fn lemma_covered_still(before: Seq<String>, after: Seq<String>, x: Seq<char>)
    requires
        before.len() <= after.len(),
        after.take(before.len() as int) == before,
        covered(before, x),
    ensures
        covered(after, x),
{
    let i = choose|i: int| 0 <= i < before.len() && same_directory((#[trigger] before[i])@, x);
    assert(after.take(before.len() as int)[i] == after[i]);
    assert(same_directory(after[i]@, x));
}

/// Adds the ancestors of `path` to `list`, farthest first, each unless
/// one of `list` spells the same directory.
fn note_ancestors(list: &mut Vec<String>, path: &str)
    requires
        apart(old(list)@),
    ensures
        apart(final(list)@),
        old(list)@.len() <= final(list)@.len(),
        final(list)@.take(old(list)@.len() as int) == old(list)@,
        forall|k: int|
            old(list)@.len() <= k < final(list)@.len() ==> is_ancestor(
                (#[trigger] final(list)@[k])@,
                path@,
            ),
        forall|x: Seq<char>| is_ancestor(x, path@) ==> covered(final(list)@, x),
{
    let p = chars_of(path);
    let total = path_components(path).len();
    let mut closed: usize = 0;
    let mut empty = true;
    let mut dot = false;
    let mut i: usize = 0;
    assert(list@.take(list@.len() as int) =~= list@);
    while i < p.len()
        invariant
            i <= p.len(),
            p@ == path@,
            total == components(p@).len(),
            closed <= i,
            closed == closed_components(p@.take(i as int)).len(),
            empty == (open_run(p@.take(i as int)).len() == 0),
            dot == (open_run(p@.take(i as int)) == seq!['.']),
            apart(list@),
            old(list)@.len() <= list@.len(),
            list@.take(old(list)@.len() as int) == old(list)@,
            forall|k: int|
                old(list)@.len() <= k < list@.len() ==> is_ancestor((#[trigger] list@[k])@, p@),
            forall|c: int| 0 <= c < i && is_cut(p@, c) ==> covered(list@, #[trigger] p@.take(c)),
        decreases p.len() - i,
    {
        let ghost run = open_run(p@.take(i as int));
        let ghost before = list@;
        proof {
            lemma_next_character(p@, i as int);
        }
        if p[i] == '/' {
            if !empty && !dot {
                if closed + 1 < total {
                    assert(is_cut(p@, i as int));
                    let d = text_of(&p, 0, i);
                    assert(d@ =~= p@.take(i as int));
                    note(list, d);
                    assert(covered(list@, p@.take(i as int))) by {
                        if !covered(before, d@) {
                            assert(same_directory(list@[before.len() as int]@, d@));
                        }
                    }
                    assert(list@.take(old(list)@.len() as int) =~= old(list)@);
                } else {
                    assert(!is_cut(p@, i as int));
                }
                closed += 1;
            } else {
                assert(!is_cut(p@, i as int));
            }
            empty = true;
            dot = false;
        } else {
            assert(!is_cut(p@, i as int));
            dot = empty && p[i] == '.';
            empty = false;
            assert(dot == (run.push(p@[i as int]) == seq!['.'])) by {
                if run.push(p@[i as int]) == seq!['.'] {
                    assert(run.push(p@[i as int]).len() == 1);
                    assert(run.push(p@[i as int])[0] == '.');
                }
                if dot {
                    assert(run.push(p@[i as int]) =~= seq!['.']);
                }
            }
        }
        assert(list@.take(before.len() as int) =~= before);
        assert forall|c: int| 0 <= c < i + 1 && is_cut(p@, c) implies covered(
            list@,
            #[trigger] p@.take(c),
        ) by {
            if c < i {
                lemma_covered_still(before, list@, p@.take(c));
            }
        }
        i += 1;
    }
    assert forall|x: Seq<char>| is_ancestor(x, path@) implies covered(list@, x) by {
        let c = choose|c: int| is_cut(p@, c) && x == p@.take(c);
        assert(covered(list@, p@.take(c)));
    }
}

/// The ancestor closure of `targets`: every target that is a directory and
/// every ancestor of every target, the root excluded. Each directory is
/// listed once, under the spelling by which it was first met: no two of
/// the result spell the same directory, each is a spelling from the
/// closure, and every spelling from the closure has its directory listed.
pub fn ancestor_closure(targets: &Vec<Target>) -> (r: Vec<String>)
    ensures
        apart(r@),
        forall|i: int| 0 <= i < r.len() ==> in_closure(targets@, (#[trigger] r[i])@),
        forall|d: Seq<char>| in_closure(targets@, d) ==> covered(r@, d),
{
    let mut out: Vec<String> = Vec::new();
    let mut k: usize = 0;
    while k < targets.len()
        invariant
            k <= targets.len(),
            apart(out@),
            forall|i: int|
                0 <= i < out.len() ==> in_closure(targets@.take(k as int), (#[trigger] out[i])@),
            forall|d: Seq<char>| in_closure(targets@.take(k as int), d) ==> covered(out@, d),
        decreases targets.len() - k,
    {
        let ghost before = out@;
        let ghost was = targets@.take(k as int);
        let ghost now = targets@.take(k + 1);
        let t = &targets[k];
        if t.is_dir {
            note(&mut out, t.path.clone());
        }
        let ghost mid = out@;
        assert(mid.take(before.len() as int) =~= before);
        note_ancestors(&mut out, t.path.as_str());
        proof {
            assert(now[k as int] == *t);
            assert(out@.take(before.len() as int) =~= before) by {
                assert(out@.take(mid.len() as int) == mid);
                assert forall|i: int| 0 <= i < before.len() implies out@[i] == before[i] by {
                    assert(out@.take(mid.len() as int)[i] == out@[i]);
                    assert(mid.take(before.len() as int)[i] == mid[i]);
                }
            }
            assert forall|i: int| 0 <= i < out.len() implies in_closure(
                now,
                (#[trigger] out[i])@,
            ) by {
                if i < before.len() {
                    assert(out@.take(before.len() as int)[i] == out@[i]);
                    let j = choose|j: int|
                        0 <= j < was.len() && opened_by(#[trigger] was[j], before[i]@);
                    assert(opened_by(now[j], out[i]@));
                } else if i < mid.len() {
                    assert(out@.take(mid.len() as int)[i] == out@[i]);
                    assert(mid[i] == t.path);
                    assert(opened_by(now[k as int], out[i]@));
                } else {
                    assert(is_ancestor(out@[i]@, t.path@));
                    assert(opened_by(now[k as int], out[i]@));
                }
            }
            assert forall|d: Seq<char>| in_closure(now, d) implies covered(out@, d) by {
                let j = choose|j: int| 0 <= j < now.len() && opened_by(#[trigger] now[j], d);
                if j < k {
                    assert(opened_by(was[j], d));
                    lemma_covered_still(before, out@, d);
                } else if is_ancestor(d, t.path@) {
                } else {
                    assert(covered(mid, d)) by {
                        if !covered(before, d) {
                            assert(same_directory(mid[before.len() as int]@, d));
                        } else {
                            lemma_covered_still(before, mid, d);
                        }
                    }
                    lemma_covered_still(mid, out@, d);
                }
            }
        }
        k += 1;
    }
    assert(targets@.take(targets.len() as int) =~= targets@);
    out
}

/// The entry that lets the members of `group` read and traverse a
/// directory.
pub open spec fn acl_entry_text(group: Seq<char>) -> Seq<char> {
    "g:"@ + group + ":rx"@
}

/// Writes the entry that lets the members of `group` read and traverse a
/// directory.
pub fn acl_entry(group: &str) -> (r: String)
    ensures
        r@ == acl_entry_text(group@),
{
    let mut r = owned("g:");
    r.append(group);
    r.append(":rx");
    r
}

/// The directories of a list of grants, in order.
pub open spec fn directories(grants: Seq<AclGrant>) -> Seq<String> {
    Seq::new(grants.len(), |i: int| grants[i].directory)
}

/// The grants that open `targets` up to `group`: one for each directory of
/// their ancestor closure, each with the same read-and-traverse entry. No
/// directory gets two grants, under whatever spellings it was met.
pub fn plan_grants(targets: &Vec<Target>, group: &str) -> (r: Vec<AclGrant>)
    ensures
        apart(directories(r@)),
        forall|i: int| 0 <= i < r.len() ==> in_closure(targets@, (#[trigger] r[i]).directory@),
        forall|d: Seq<char>| in_closure(targets@, d) ==> covered(directories(r@), d),
        forall|i: int| 0 <= i < r.len() ==> (#[trigger] r[i]).entry@ == acl_entry_text(group@),
{
    let dirs = ancestor_closure(targets);
    let mut out: Vec<AclGrant> = Vec::new();
    let mut i: usize = 0;
    while i < dirs.len()
        invariant
            i <= dirs.len(),
            directories(out@) == dirs@.take(i as int),
            forall|j: int| 0 <= j < out.len() ==> (#[trigger] out[j]).entry@ == acl_entry_text(group@),
        decreases dirs.len() - i,
    {
        let ghost so_far = out@;
        out.push(AclGrant { directory: dirs[i].clone(), entry: acl_entry(group) });
        assert(directories(out@) =~= directories(so_far).push(dirs@[i as int]));
        assert(directories(out@) =~= dirs@.take(i + 1));
        i += 1;
    }
    assert(dirs@.take(dirs.len() as int) =~= dirs@);
    assert forall|i: int| 0 <= i < out.len() implies in_closure(
        targets@,
        (#[trigger] out[i]).directory@,
    ) by {
        assert(directories(out@)[i] == dirs@[i]);
    }
    out
}

/// What the outcome of one grant means for the run: `Ok(true)` where the
/// entry was set, `Ok(false)` where the tool refused this directory, which
/// deserves a warning and nothing more, and an error where the tool could
/// not be started at all.
pub fn grant_verdict(result: CommandResult) -> (r: Result<bool, AccessError>)
    ensures
        r == match result {
            CommandResult::Succeeded => Ok::<bool, AccessError>(true),
            CommandResult::Failed => Ok(false),
            CommandResult::NotStarted => Err(AccessError::FacilityUnusable),
        },
{
    match result {
        CommandResult::Succeeded => Ok(true),
        CommandResult::Failed => Ok(false),
        CommandResult::NotStarted => Err(AccessError::FacilityUnusable),
    }
}

/// Overlap between targets changes nothing: a directory belongs to the
/// closure of two lists of targets together exactly when it belongs to the
/// closure of one of them, so a directory that several targets share is
/// still one member of the closure.
pub proof fn law_closure_of_lists_together(a: Seq<Target>, b: Seq<Target>, d: Seq<char>)
    ensures
        in_closure(a + b, d) <==> (in_closure(a, d) || in_closure(b, d)),
{
    let both = a + b;
    if in_closure(a, d) {
        let k = choose|k: int| 0 <= k < a.len() && opened_by(#[trigger] a[k], d);
        assert(opened_by(both[k], d));
    }
    if in_closure(b, d) {
        let k = choose|k: int| 0 <= k < b.len() && opened_by(#[trigger] b[k], d);
        assert(opened_by(both[a.len() + k], d));
    }
    if in_closure(both, d) {
        let k = choose|k: int| 0 <= k < both.len() && opened_by(#[trigger] both[k], d);
        if k < a.len() {
            assert(opened_by(a[k], d));
        } else {
            assert(opened_by(b[k - a.len()], d));
        }
    }
}

/// What a text that ends in a separator and a run without separators is
/// made of.
proof fn lemma_after_separator(a: Seq<char>, c: Seq<char>)
    requires
        forall|i: int| 0 <= i < c.len() ==> c[i] != '/',
    ensures
        open_run(a + seq!['/'] + c) == c,
        closed_components(a + seq!['/'] + c) == components(a),
    decreases c.len(),
{
    let p = a + seq!['/'] + c;
    if c.len() == 0 {
        assert(p.drop_last() =~= a);
        assert(open_run(p) =~= c);
    } else {
        assert(p.drop_last() =~= a + seq!['/'] + c.drop_last());
        lemma_after_separator(a, c.drop_last());
        assert(c.drop_last().push(c.last()) =~= c);
    }
}

/// The components of a child: those of the directory that holds it, and
/// its own name behind them.
pub proof fn law_components_of_child(a: Seq<char>, c: Seq<char>)
    requires
        names_component(c),
        forall|i: int| 0 <= i < c.len() ==> c[i] != '/',
    ensures
        components(a + seq!['/'] + c) == components(a).push(c),
        !same_directory(a, a + seq!['/'] + c),
{
    lemma_after_separator(a, c);
    assert(components(a).push(c).len() == components(a).len() + 1);
}

/// The directory that holds a path is one of its ancestors, unless it is
/// the root: where `a` ends in a component, `a` is an ancestor of the child
/// `c` of `a`.
pub proof fn law_parent_is_ancestor(a: Seq<char>, c: Seq<char>)
    requires
        names_component(open_run(a)),
        names_component(c),
        forall|i: int| 0 <= i < c.len() ==> c[i] != '/',
    ensures
        is_ancestor(a, a + seq!['/'] + c),
{
    let p = a + seq!['/'] + c;
    lemma_after_separator(a, c);
    assert(a.len() > 0) by {
        if a.len() == 0 {
            assert(open_run(a).len() == 0);
        }
    }
    assert(p.take(a.len() as int) =~= a);
    assert(is_cut(p, a.len() as int));
}

/// An ancestor of an ancestor is an ancestor.
pub proof fn law_ancestors_of_ancestors(a: Seq<char>, b: Seq<char>, p: Seq<char>)
    requires
        is_ancestor(a, b),
        is_ancestor(b, p),
    ensures
        is_ancestor(a, p),
{
    let i = choose|i: int| is_cut(p, i) && b == p.take(i);
    let j = choose|j: int| is_cut(b, j) && a == b.take(j);
    assert(p.take(i).take(j) =~= p.take(j));
    assert(is_cut(p, j));
}

/// Each directory is listed exactly once: in a list of which no two spell
/// the same directory, at most one place spells a given directory.
pub proof fn law_listed_once(list: Seq<String>, d: Seq<char>, i: int, j: int)
    requires
        apart(list),
        0 <= i < list.len(),
        0 <= j < list.len(),
        same_directory(list[i]@, d),
        same_directory(list[j]@, d),
    ensures
        i == j,
{
    if i < j {
        assert(!same_directory(list[i]@, list[j]@));
    }
    if j < i {
        assert(!same_directory(list[j]@, list[i]@));
    }
}

} // verus!
