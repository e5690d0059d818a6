//! The link reconciler: which links to remove from the link directory and
//! which to create, given the inventory and what is on disk.
//!
//! The caller lists the link directory, says which target paths exist, and
//! then carries out the plan: removals first, creations after.

use vstd::prelude::*;
use crate::inventory::{entity_models, Entity, EntityModel};
use crate::names::{link_name, link_name_text};
use crate::text::{is_listed, lemma_texts_push, owned, texts};

verus! {

/// What kind of entry a name in the link directory stands for.
#[derive(Clone, Copy, PartialEq, Eq, Debug)]
pub enum EntryKind {
    /// Anything but a symbolic link.
    Other,
    /// A symbolic link whose target exists.
    LiveLink,
    /// A symbolic link whose target does not exist.
    DanglingLink,
    /// A symbolic link whose target could not be read.
    UnreadableLink,
}

/// One entry of the link directory.
#[derive(Debug, PartialEq, Eq)]
pub struct DirEntry {
    pub name: String,
    pub kind: EntryKind,
}

/// A [`DirEntry`] as contracts see it.
pub struct EntryModel {
    pub name: Seq<char>,
    pub kind: EntryKind,
}

impl View for DirEntry {
    type V = EntryModel;

    open spec fn view(&self) -> EntryModel {
        EntryModel { name: self.name@, kind: self.kind }
    }
}

/// A symbolic link to create: `name` inside the link directory, pointing at
/// `target`.
#[derive(Debug, PartialEq, Eq)]
pub struct Link {
    pub name: String,
    pub target: String,
}

/// A [`Link`] as contracts see it.
pub struct LinkModel {
    pub name: Seq<char>,
    pub target: Seq<char>,
}

impl View for Link {
    type V = LinkModel;

    open spec fn view(&self) -> LinkModel {
        LinkModel { name: self.name@, target: self.target@ }
    }
}

/// What one run of reconciliation comes to.
#[derive(Debug, PartialEq, Eq)]
pub struct Reconciliation {
    /// The names of the links to remove, in directory order.
    pub removed: Vec<String>,
    /// The links to create, in inventory order.
    pub created: Vec<Link>,
    /// The link directory as it stands once the plan is carried out.
    pub entries: Vec<DirEntry>,
}

/// A [`Reconciliation`] as contracts see it.
pub struct ReconciliationModel {
    pub removed: Seq<Seq<char>>,
    pub created: Seq<LinkModel>,
    pub entries: Seq<EntryModel>,
}

impl View for Reconciliation {
    type V = ReconciliationModel;

    open spec fn view(&self) -> ReconciliationModel {
        ReconciliationModel {
            removed: texts(self.removed@),
            created: link_models(self.created@),
            entries: entry_models(self.entries@),
        }
    }
}

impl Reconciliation {
    /// The number of links that the run creates.
    pub fn count_created(&self) -> (r: usize)
        ensures
            r == self@.created.len(),
    {
        self.created.len()
    }
}

/// The models of a list of directory entries, in order.
pub open spec fn entry_models(s: Seq<DirEntry>) -> Seq<EntryModel> {
    Seq::new(s.len(), |i: int| s[i]@)
}

/// The models of a list of links, in order.
pub open spec fn link_models(s: Seq<Link>) -> Seq<LinkModel> {
    Seq::new(s.len(), |i: int| s[i]@)
}

/// The names of a list of entries, in order.
pub open spec fn entry_names(dir: Seq<EntryModel>) -> Seq<Seq<char>> {
    Seq::new(dir.len(), |i: int| dir[i].name)
}

/// The names of a list of links, in order.
pub open spec fn link_names(links: Seq<LinkModel>) -> Seq<Seq<char>> {
    Seq::new(links.len(), |i: int| links[i].name)
}

/// The entries that pruning leaves: all but the dangling links, in order.
pub open spec fn survivors(dir: Seq<EntryModel>) -> Seq<EntryModel>
    decreases dir.len(),
{
    if dir.len() == 0 {
        Seq::empty()
    } else if dir.last().kind == EntryKind::DanglingLink {
        survivors(dir.drop_last())
    } else {
        survivors(dir.drop_last()).push(dir.last())
    }
}

/// The names that pruning removes: those of the dangling links, in order.
pub open spec fn doomed(dir: Seq<EntryModel>) -> Seq<Seq<char>>
    decreases dir.len(),
{
    if dir.len() == 0 {
        Seq::empty()
    } else if dir.last().kind == EntryKind::DanglingLink {
        doomed(dir.drop_last()).push(dir.last().name)
    } else {
        doomed(dir.drop_last())
    }
}

/// Where the data of the server `id` is stored under `root`.
pub open spec fn target_path_text(root: Seq<char>, id: Seq<char>) -> Seq<char> {
    root + seq!['/'] + id
}

/// The link that stands for `e`.
pub open spec fn link_for(root: Seq<char>, e: EntityModel) -> LinkModel {
    LinkModel {
        name: link_name_text(e.display_name, e.id),
        target: target_path_text(root, e.id),
    }
}

/// An entity can be linked when its identifier has at least eight
/// characters and its data exists on disk.
pub open spec fn eligible(root: Seq<char>, present: Seq<Seq<char>>, e: EntityModel) -> bool {
    e.id.len() >= 8 && present.contains(target_path_text(root, e.id))
}

/// The links that the create pass makes for `entities`, in order, when the
/// names `taken` are in the link directory already. An entity gets a link
/// when it is eligible and its link name is neither taken nor made for an
/// entity before it.
pub open spec fn planned(
    taken: Seq<Seq<char>>,
    root: Seq<char>,
    present: Seq<Seq<char>>,
    entities: Seq<EntityModel>,
) -> Seq<LinkModel>
    decreases entities.len(),
{
    if entities.len() == 0 {
        Seq::empty()
    } else {
        let before = planned(taken, root, present, entities.drop_last());
        let link = link_for(root, entities.last());
        if eligible(root, present, entities.last()) && !taken.contains(link.name) && !link_names(
            before,
        ).contains(link.name) {
            before.push(link)
        } else {
            before
        }
    }
}

/// The directory entries that newly made links become. Each points at data
/// that exists.
pub open spec fn as_entries(links: Seq<LinkModel>) -> Seq<EntryModel> {
    Seq::new(links.len(), |i: int| EntryModel { name: links[i].name, kind: EntryKind::LiveLink })
}

/// One run of reconciliation on the directory `dir`: prune, then create.
pub open spec fn reconciled(
    dir: Seq<EntryModel>,
    root: Seq<char>,
    present: Seq<Seq<char>>,
    entities: Seq<EntityModel>,
) -> ReconciliationModel {
    let kept = survivors(dir);
    let created = planned(entry_names(kept), root, present, entities);
    ReconciliationModel { removed: doomed(dir), created, entries: kept + as_entries(created) }
}

/// The path under `root` where the data of the server `id` is stored.
pub fn target_path(root: &str, id: &str) -> (r: String)
    ensures
        r@ == target_path_text(root@, id@),
{
    let mut r = owned(root);
    r.push('/');
    r.append(id);
    r
}

/// The prune pass: splits a listing of the link directory into the entries
/// that stay and the names of the dangling links to remove.
pub fn prune(listing: &Vec<DirEntry>) -> (r: (Vec<DirEntry>, Vec<String>))
    ensures
        entry_models(r.0@) == survivors(entry_models(listing@)),
        texts(r.1@) == doomed(entry_models(listing@)),
{
    let mut kept: Vec<DirEntry> = Vec::new();
    let mut removed: Vec<String> = Vec::new();
    let ghost dir = entry_models(listing@);
    let mut i: usize = 0;
    while i < listing.len()
        invariant
            i <= listing.len(),
            dir == entry_models(listing@),
            entry_models(kept@) == survivors(dir.take(i as int)),
            texts(removed@) == doomed(dir.take(i as int)),
        decreases listing.len() - i,
    {
        let e = &listing[i];
        assert(dir.take(i + 1).drop_last() =~= dir.take(i as int));
        assert(dir.take(i + 1).last() == e@);
        match e.kind {
            EntryKind::DanglingLink => {
                removed.push(e.name.clone());
                assert(texts(removed@) =~= doomed(dir.take(i as int)).push(e.name@));
            },
            _ => {
                kept.push(DirEntry { name: e.name.clone(), kind: e.kind });
                assert(entry_models(kept@) =~= survivors(dir.take(i as int)).push(e@));
            },
        }
        i += 1;
    }
    assert(dir.take(listing.len() as int) =~= dir);
    (kept, removed)
}

/// The create pass: the links to make for `entities`, given the entries
/// `kept` in the link directory and the target paths `present` on disk.
pub fn plan_links(
    kept: &Vec<DirEntry>,
    root: &str,
    present: &Vec<String>,
    entities: &Vec<Entity>,
) -> (r: Vec<Link>)
    ensures
        link_models(r@) == planned(
            entry_names(entry_models(kept@)),
            root@,
            texts(present@),
            entity_models(entities@),
        ),
{
    let ghost taken = entry_names(entry_models(kept@));
    let ghost all = entity_models(entities@);
    let mut names: Vec<String> = Vec::new();
    let mut k: usize = 0;
    while k < kept.len()
        invariant
            k <= kept.len(),
            taken == entry_names(entry_models(kept@)),
            texts(names@) == taken.take(k as int),
        decreases kept.len() - k,
    {
        proof {
            lemma_texts_push(names@, kept[k as int].name);
        }
        names.push(kept[k].name.clone());
        assert(texts(names@) =~= taken.take(k + 1));
        k += 1;
    }
    assert(taken.take(kept.len() as int) =~= taken);
    let mut links: Vec<Link> = Vec::new();
    let mut i: usize = 0;
    while i < entities.len()
        invariant
            i <= entities.len(),
            all == entity_models(entities@),
            link_models(links@) == planned(taken, root@, texts(present@), all.take(i as int)),
            texts(names@) == taken + link_names(link_models(links@)),
        decreases entities.len() - i,
    {
        let e = &entities[i];
        assert(all.take(i + 1).drop_last() =~= all.take(i as int));
        assert(all.take(i + 1).last() == e@);
        let ghost before = link_models(links@);
        let ghost link = link_for(root@, e@);
        proof {
            lemma_contains_either(taken, link_names(before), link.name);
        }
        match link_name(e.display_name.as_str(), e.id.as_str()) {
            None => {},
            Some(name) => {
                let target = target_path(root, e.id.as_str());
                if is_listed(present, &target) && !is_listed(&names, &name) {
                    proof {
                        lemma_texts_push(names@, name);
                    }
                    names.push(name.clone());
                    links.push(Link { name, target });
                    assert(link_models(links@) =~= before.push(link));
                    assert(link_names(before.push(link)) =~= link_names(before).push(link.name));
                    assert(texts(names@) =~= taken + link_names(link_models(links@)));
                }
            },
        }
        i += 1;
    }
    assert(all.take(entities.len() as int) =~= all);
    links
}

/// A text is in a concatenation exactly when it is in one of the parts.
proof fn lemma_contains_either(a: Seq<Seq<char>>, b: Seq<Seq<char>>, x: Seq<char>)
    ensures
        (a + b).contains(x) == (a.contains(x) || b.contains(x)),
{
    if a.contains(x) {
        let i = choose|i: int| 0 <= i < a.len() && a[i] == x;
        assert((a + b)[i] == x);
    }
    if b.contains(x) {
        let i = choose|i: int| 0 <= i < b.len() && b[i] == x;
        assert((a + b)[a.len() + i] == x);
    }
    if (a + b).contains(x) {
        let i = choose|i: int| 0 <= i < (a + b).len() && (a + b)[i] == x;
        if i < a.len() {
            assert(a[i] == x);
        } else {
            assert(b[i - a.len()] == x);
        }
    }
}

/// Reconciles the link directory with the inventory: dangling links go,
/// and every eligible entity whose link name is free gets a link.
///
/// `listing` is the link directory as it is, `present` holds the target
/// paths that exist on disk. The number of links created by the run is the
/// length of `created`.
pub fn reconcile(
    listing: &Vec<DirEntry>,
    root: &str,
    present: &Vec<String>,
    entities: &Vec<Entity>,
) -> (r: Reconciliation)
    ensures
        r@ == reconciled(
            entry_models(listing@),
            root@,
            texts(present@),
            entity_models(entities@),
        ),
{
    let (mut entries, removed) = prune(listing);
    let created = plan_links(&entries, root, present, entities);
    let ghost kept = entry_models(entries@);
    let mut i: usize = 0;
    while i < created.len()
        invariant
            i <= created.len(),
            entry_models(entries@) == kept + as_entries(link_models(created@)).take(i as int),
        decreases created.len() - i,
    {
        let ghost so_far = entries@;
        entries.push(DirEntry { name: created[i].name.clone(), kind: EntryKind::LiveLink });
        assert(entry_models(entries@) =~= entry_models(so_far).push(
            as_entries(link_models(created@))[i as int],
        ));
        assert(entry_models(entries@) =~= kept + as_entries(link_models(created@)).take(i + 1));
        i += 1;
    }
    assert(as_entries(link_models(created@)).take(created.len() as int) =~= as_entries(
        link_models(created@),
    ));
    Reconciliation { removed, created, entries }
}

/// Pruning keeps exactly the entries that are not dangling links.
pub proof fn lemma_survivors(dir: Seq<EntryModel>)
    ensures
        forall|e: EntryModel|
            #![trigger survivors(dir).contains(e)]
            #![trigger dir.contains(e)]
            survivors(dir).contains(e) <==> (dir.contains(e) && e.kind != EntryKind::DanglingLink),
        forall|n: Seq<char>|
            #![trigger doomed(dir).contains(n)]
            doomed(dir).contains(n) <==> dir.contains(
                EntryModel { name: n, kind: EntryKind::DanglingLink },
            ),
    decreases dir.len(),
{
    if dir.len() > 0 {
        let front = dir.drop_last();
        let last = dir.last();
        lemma_survivors(front);
        assert forall|e: EntryModel| dir.contains(e) <==> (front.contains(e) || e == last) by {
            if front.contains(e) {
                let i = choose|i: int| 0 <= i < front.len() && front[i] == e;
                assert(dir[i] == e);
            }
            if e == last {
                assert(dir[dir.len() - 1] == e);
            }
            if dir.contains(e) {
                let i = choose|i: int| 0 <= i < dir.len() && dir[i] == e;
                if i < dir.len() - 1 {
                    assert(front[i] == e);
                }
            }
        }
        assert forall|e: EntryModel|
            survivors(dir).contains(e) <==> (dir.contains(e) && e.kind
                != EntryKind::DanglingLink) by {
            if last.kind != EntryKind::DanglingLink {
                lemma_contains_pushed(survivors(front), last, e);
            }
        }
        assert forall|n: Seq<char>|
            doomed(dir).contains(n) <==> dir.contains(
                EntryModel { name: n, kind: EntryKind::DanglingLink },
            ) by {
            let e = EntryModel { name: n, kind: EntryKind::DanglingLink };
            assert(dir.contains(e) <==> (front.contains(e) || e == last));
            assert(doomed(front).contains(n) <==> front.contains(e));
            if last.kind == EntryKind::DanglingLink {
                lemma_contains_pushed(doomed(front), last.name, n);
                assert(e == last <==> n == last.name);
            }
        }
    }
}

/// What a sequence that grew by one element contains.
proof fn lemma_contains_pushed<A>(s: Seq<A>, a: A, x: A)
    ensures
        s.push(a).contains(x) <==> (s.contains(x) || x == a),
{
    if s.contains(x) {
        let i = choose|i: int| 0 <= i < s.len() && s[i] == x;
        assert(s.push(a)[i] == x);
    }
    if x == a {
        assert(s.push(a)[s.len() as int] == x);
    }
    if s.push(a).contains(x) {
        let i = choose|i: int| 0 <= i < s.push(a).len() && s.push(a)[i] == x;
        if i < s.len() {
            assert(s[i] == x);
        }
    }
}

/// A directory without dangling links is left as it is by pruning.
proof fn lemma_nothing_to_prune(dir: Seq<EntryModel>)
    requires
        forall|i: int| 0 <= i < dir.len() ==> dir[i].kind != EntryKind::DanglingLink,
    ensures
        survivors(dir) == dir,
        doomed(dir) == Seq::<Seq<char>>::empty(),
    decreases dir.len(),
{
    if dir.len() > 0 {
        lemma_nothing_to_prune(dir.drop_last());
        assert(dir.drop_last().push(dir.last()) =~= dir);
    } else {
        assert(survivors(dir) =~= dir);
    }
}

/// What the create pass makes: every link stands for an eligible entity,
/// has a name that was free, and shares its name with no other new link;
/// and every eligible entity finds its link name in the directory
/// afterwards.
pub proof fn lemma_planned(
    taken: Seq<Seq<char>>,
    root: Seq<char>,
    present: Seq<Seq<char>>,
    entities: Seq<EntityModel>,
)
    ensures
        forall|j: int|
            0 <= j < planned(taken, root, present, entities).len() ==> {
                let l = #[trigger] planned(taken, root, present, entities)[j];
                &&& !taken.contains(l.name)
                &&& present.contains(l.target)
                &&& exists|i: int|
                    0 <= i < entities.len() && eligible(root, present, entities[i]) && l
                        == link_for(root, entities[i])
            },
        forall|a: int, b: int|
            0 <= a < b < planned(taken, root, present, entities).len() ==> planned(
                taken,
                root,
                present,
                entities,
            )[a].name != planned(taken, root, present, entities)[b].name,
        forall|i: int|
            0 <= i < entities.len() && eligible(root, present, #[trigger] entities[i]) ==> {
                let name = link_for(root, entities[i]).name;
                taken.contains(name) || link_names(
                    planned(taken, root, present, entities),
                ).contains(name)
            },
    decreases entities.len(),
{
    if entities.len() > 0 {
        let front = entities.drop_last();
        let last = entities.last();
        let before = planned(taken, root, present, front);
        let now = planned(taken, root, present, entities);
        let link = link_for(root, last);
        lemma_planned(taken, root, present, front);
        assert forall|j: int| 0 <= j < now.len() implies {
            let l = #[trigger] now[j];
            &&& !taken.contains(l.name)
            &&& present.contains(l.target)
            &&& exists|i: int|
                0 <= i < entities.len() && eligible(root, present, entities[i]) && l == link_for(
                    root,
                    entities[i],
                )
        } by {
            let l = now[j];
            if j < before.len() {
                assert(l == before[j]);
                let i = choose|i: int|
                    0 <= i < front.len() && eligible(root, present, front[i]) && l == link_for(
                        root,
                        front[i],
                    );
                assert(entities[i] == front[i]);
            } else {
                assert(l == link);
                assert(entities[entities.len() - 1] == last);
            }
        }
        assert forall|a: int, b: int| 0 <= a < b < now.len() implies now[a].name
            != now[b].name by {
            if b >= before.len() {
                assert(link_names(before)[a] == before[a].name);
            }
        }
        assert forall|i: int|
            0 <= i < entities.len() && eligible(root, present, #[trigger] entities[i]) implies {
            let name = link_for(root, entities[i]).name;
            taken.contains(name) || link_names(now).contains(name)
        } by {
            let name = link_for(root, entities[i]).name;
            if i < front.len() {
                assert(front[i] == entities[i]);
                if link_names(before).contains(name) {
                    let j = choose|j: int|
                        0 <= j < link_names(before).len() && link_names(before)[j] == name;
                    assert(link_names(now)[j] == name);
                }
            } else {
                if now.len() > before.len() {
                    assert(link_names(now)[before.len() as int] == name);
                }
            }
        }
    }
}

/// Where every eligible entity finds its link name taken, the create pass
/// makes nothing.
proof fn lemma_nothing_to_create(
    taken: Seq<Seq<char>>,
    root: Seq<char>,
    present: Seq<Seq<char>>,
    entities: Seq<EntityModel>,
)
    requires
        forall|i: int|
            0 <= i < entities.len() && eligible(root, present, #[trigger] entities[i])
                ==> taken.contains(link_for(root, entities[i]).name),
    ensures
        planned(taken, root, present, entities) == Seq::<LinkModel>::empty(),
    decreases entities.len(),
{
    if entities.len() > 0 {
        let front = entities.drop_last();
        assert forall|i: int|
            0 <= i < front.len() && eligible(root, present, #[trigger] front[i])
                implies taken.contains(link_for(root, front[i]).name) by {
            assert(front[i] == entities[i]);
        }
        lemma_nothing_to_create(taken, root, present, front);
        assert(entities[entities.len() - 1] == entities.last());
    }
}

/// Reconciliation is idempotent: a second run on the directory that the
/// first run left, with the same inventory and the same data on disk,
/// removes nothing, creates nothing and leaves the directory as it is.
pub proof fn law_second_run_changes_nothing(
    dir: Seq<EntryModel>,
    root: Seq<char>,
    present: Seq<Seq<char>>,
    entities: Seq<EntityModel>,
)
    ensures
        ({
            let first = reconciled(dir, root, present, entities);
            let second = reconciled(first.entries, root, present, entities);
            &&& second.removed.len() == 0
            &&& second.created.len() == 0
            &&& second.entries == first.entries
        }),
{
    let kept = survivors(dir);
    let created = planned(entry_names(kept), root, present, entities);
    let first = reconciled(dir, root, present, entities);
    lemma_survivors(dir);
    assert forall|i: int| 0 <= i < first.entries.len() implies first.entries[i].kind
        != EntryKind::DanglingLink by {
        if i < kept.len() {
            assert(first.entries[i] == kept[i]);
            assert(kept.contains(kept[i]));
        } else {
            assert(first.entries[i] == as_entries(created)[i - kept.len()]);
        }
    }
    lemma_nothing_to_prune(first.entries);
    lemma_planned(entry_names(kept), root, present, entities);
    let taken = entry_names(first.entries);
    assert(taken =~= entry_names(kept) + link_names(created));
    assert forall|i: int|
        0 <= i < entities.len() && eligible(root, present, #[trigger] entities[i])
            implies taken.contains(link_for(root, entities[i]).name) by {
        lemma_contains_either(entry_names(kept), link_names(created), link_for(root, entities[i]).name);
    }
    lemma_nothing_to_create(taken, root, present, entities);
    assert(first.entries + as_entries(Seq::<LinkModel>::empty()) =~= first.entries);
}

/// Pruning is exact: after reconciliation no dangling link of the
/// directory is left, every other entry of it is still there, in its old
/// place among the others, and the names removed are those of the dangling
/// links and no others.
pub proof fn law_prune_is_exact(
    dir: Seq<EntryModel>,
    root: Seq<char>,
    present: Seq<Seq<char>>,
    entities: Seq<EntityModel>,
)
    ensures
        ({
            let after = reconciled(dir, root, present, entities);
            &&& forall|e: EntryModel|
                dir.contains(e) && e.kind == EntryKind::DanglingLink ==> !after.entries.contains(e)
            &&& forall|e: EntryModel|
                dir.contains(e) && e.kind != EntryKind::DanglingLink ==> after.entries.contains(e)
            &&& after.entries.take(survivors(dir).len() as int) == survivors(dir)
            &&& forall|n: Seq<char>|
                after.removed.contains(n) <==> dir.contains(
                    EntryModel { name: n, kind: EntryKind::DanglingLink },
                )
        }),
{
    let kept = survivors(dir);
    let after = reconciled(dir, root, present, entities);
    lemma_survivors(dir);
    assert(after.entries.take(kept.len() as int) =~= kept);
    assert forall|e: EntryModel|
        dir.contains(e) && e.kind == EntryKind::DanglingLink implies !after.entries.contains(
        e,
    ) by {
        if after.entries.contains(e) {
            let i = choose|i: int| 0 <= i < after.entries.len() && after.entries[i] == e;
            if i < kept.len() {
                assert(kept.contains(kept[i]));
            }
        }
    }
    assert forall|e: EntryModel|
        dir.contains(e) && e.kind != EntryKind::DanglingLink implies after.entries.contains(e) by {
        let i = choose|i: int| 0 <= i < kept.len() && kept[i] == e;
        assert(after.entries[i] == e);
    }
}

/// An entity whose data is not on disk gets no link: every link created
/// points at a path that exists, so none points at the missing data.
pub proof fn law_missing_target_makes_no_link(
    dir: Seq<EntryModel>,
    root: Seq<char>,
    present: Seq<Seq<char>>,
    entities: Seq<EntityModel>,
    i: int,
)
    requires
        0 <= i < entities.len(),
        !present.contains(target_path_text(root, entities[i].id)),
    ensures
        ({
            let after = reconciled(dir, root, present, entities);
            forall|j: int|
                0 <= j < after.created.len() ==> (#[trigger] after.created[j]).target
                    != target_path_text(root, entities[i].id)
        }),
{
    lemma_planned(entry_names(survivors(dir)), root, present, entities);
}

/// A name that is taken is left alone: where the link directory, once
/// pruned, holds an entry under an entity's link name, whatever that entry
/// is, no link of that name is created, and the entry stays.
pub proof fn law_taken_name_is_left_alone(
    dir: Seq<EntryModel>,
    root: Seq<char>,
    present: Seq<Seq<char>>,
    entities: Seq<EntityModel>,
    i: int,
    at: int,
)
    requires
        0 <= i < entities.len(),
        0 <= at < survivors(dir).len(),
        survivors(dir)[at].name == link_for(root, entities[i]).name,
    ensures
        ({
            let after = reconciled(dir, root, present, entities);
            &&& !link_names(after.created).contains(link_for(root, entities[i]).name)
            &&& after.entries[at] == survivors(dir)[at]
        }),
{
    let kept = survivors(dir);
    let after = reconciled(dir, root, present, entities);
    let name = link_for(root, entities[i]).name;
    lemma_planned(entry_names(kept), root, present, entities);
    assert(entry_names(kept)[at] == name);
    if link_names(after.created).contains(name) {
        let j = choose|j: int|
            0 <= j < link_names(after.created).len() && link_names(after.created)[j] == name;
        assert(after.created[j].name == name);
    }
}

} // verus!
