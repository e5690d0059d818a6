//! The remote inventory: which servers the panel has assigned to this node.

use vstd::prelude::*;
use serde_json::Value;
use crate::json::{as_items, as_text, as_u64, element, json_tree, json_trees, member, JsonTree};
use crate::text::{decimal, decimal_text, owned};

verus! {

/// Why the inventory could not be read.
#[derive(Clone, Copy, PartialEq, Eq, Debug)]
pub enum InventoryError {
    /// The panel knows no node with the configured identity.
    NodeNotFound,
    /// The panel keeps announcing further pages beyond the last page number
    /// that can be asked for.
    PageLimit,
}

/// One server of the inventory.
#[derive(Debug, PartialEq, Eq)]
pub struct Entity {
    /// The opaque identifier under which the server's data is stored.
    pub id: String,
    /// The name that the panel shows for the server.
    pub display_name: String,
}

/// An [`Entity`] as contracts see it.
pub struct EntityModel {
    pub id: Seq<char>,
    pub display_name: Seq<char>,
}

impl View for Entity {
    type V = EntityModel;

    open spec fn view(&self) -> EntityModel {
        EntityModel { id: self.id@, display_name: self.display_name@ }
    }
}

/// The models of a list of entities, in order.
pub open spec fn entity_models(s: Seq<Entity>) -> Seq<EntityModel> {
    Seq::new(s.len(), |i: int| s[i]@)
}

/// A named value of a request: a header or a query parameter.
#[derive(Debug, PartialEq, Eq)]
pub struct Field {
    pub name: String,
    pub value: String,
}

/// A `GET` request to the panel.
#[derive(Debug, PartialEq, Eq)]
pub struct Request {
    pub url: String,
    pub headers: Vec<Field>,
    pub query: Vec<Field>,
}

/// The names and values of a list of fields, in order.
pub open spec fn pairs(fields: Seq<Field>) -> Seq<(Seq<char>, Seq<char>)> {
    Seq::new(fields.len(), |i: int| (fields[i].name@, fields[i].value@))
}

/// The headers that every request carries: the bearer token and the
/// media type of the panel's application interface.
pub open spec fn standard_headers(key: Seq<char>) -> Seq<(Seq<char>, Seq<char>)> {
    seq![
        ("Authorization"@, "Bearer "@ + key),
        ("Accept"@, "application/vnd.pterodactyl.v1+json"@),
    ]
}

/// How many servers are asked for in one page.
pub const PAGE_SIZE: u64 = 100;

fn field(name: &str, value: String) -> (r: Field)
    ensures
        r.name@ == name@,
        r.value == value,
{
    Field { name: owned(name), value }
}

fn headers_for(key: &str) -> (r: Vec<Field>)
    ensures
        pairs(r@) == standard_headers(key@),
{
    let mut bearer = owned("Bearer ");
    bearer.append(key);
    let mut headers: Vec<Field> = Vec::new();
    headers.push(field("Authorization", bearer));
    headers.push(field("Accept", owned("application/vnd.pterodactyl.v1+json")));
    assert(pairs(headers@) =~= standard_headers(key@));
    headers
}

/// The request that looks this node up by its UUID. At most one match is
/// asked for.
pub fn node_lookup_request(panel: &str, key: &str, node_uuid: &str) -> (r: Request)
    ensures
        r.url@ == panel@ + "/api/application/nodes"@,
        pairs(r.headers@) == standard_headers(key@),
        pairs(r.query@) == seq![("filter[uuid]"@, node_uuid@), ("per_page"@, decimal_text(1))],
{
    let mut url = owned(panel);
    url.append("/api/application/nodes");
    let mut query: Vec<Field> = Vec::new();
    query.push(field("filter[uuid]", owned(node_uuid)));
    query.push(field("per_page", decimal(1)));
    assert(pairs(query@) =~= seq![("filter[uuid]"@, node_uuid@), ("per_page"@, decimal_text(1))]);
    Request { url, headers: headers_for(key), query }
}

/// The request for page `page` of the server listing.
pub fn server_page_request(panel: &str, key: &str, page: u32) -> (r: Request)
    ensures
        r.url@ == panel@ + "/api/application/servers"@,
        pairs(r.headers@) == standard_headers(key@),
        pairs(r.query@) == seq![
            ("per_page"@, decimal_text(PAGE_SIZE as nat)),
            ("page"@, decimal_text(page as nat)),
        ],
{
    let mut url = owned(panel);
    url.append("/api/application/servers");
    let mut query: Vec<Field> = Vec::new();
    query.push(field("per_page", decimal(PAGE_SIZE)));
    query.push(field("page", decimal(page as u64)));
    assert(pairs(query@) =~= seq![
        ("per_page"@, decimal_text(PAGE_SIZE as nat)),
        ("page"@, decimal_text(page as nat)),
    ]);
    Request { url, headers: headers_for(key), query }
}

/// The numeric identifier of the first node in a node listing: the number
/// at `data[0].attributes.id`.
pub open spec fn first_node_id(doc: JsonTree) -> Option<u64> {
    doc.member("data"@).element(0).member("attributes"@).member("id"@).as_u64()
}

/// Reads this node's numeric identifier from the answer to the node lookup.
/// An answer without a match means that the panel does not know the node.
pub fn node_id(doc: &Value) -> (r: Result<u64, InventoryError>)
    ensures
        r == match first_node_id(json_tree(*doc)) {
            Some(id) => Ok::<u64, InventoryError>(id),
            None => Err(InventoryError::NodeNotFound),
        },
{
    match as_u64(member(member(element(member(doc, "data"), 0), "attributes"), "id")) {
        Some(id) => Ok(id),
        None => Err(InventoryError::NodeNotFound),
    }
}

/// The entity that one item of a server listing stands for: its attributes
/// must name the node `node_id` and hold a text under both `id` and `name`.
/// Any other item stands for nothing.
pub open spec fn entity_in(item: JsonTree, node_id: u64) -> Option<EntityModel> {
    let a = item.member("attributes"@);
    if a.member("node"@).as_u64() == Some(node_id) {
        match (a.member("id"@).as_text(), a.member("name"@).as_text()) {
            (Some(id), Some(name)) => Some(EntityModel { id, display_name: name }),
            _ => None,
        }
    } else {
        None
    }
}

/// The entities that a list of items stands for, in order.
pub open spec fn entities_among(items: Seq<JsonTree>, node_id: u64) -> Seq<EntityModel>
    decreases items.len(),
{
    if items.len() == 0 {
        Seq::empty()
    } else {
        let before = entities_among(items.drop_last(), node_id);
        match entity_in(items.last(), node_id) {
            Some(e) => before.push(e),
            None => before,
        }
    }
}

/// The entities of one page of the server listing that belong to the node
/// `node_id`. A page without a `data` array holds none.
pub open spec fn entities_on_page(doc: JsonTree, node_id: u64) -> Seq<EntityModel> {
    match doc.member("data"@).as_items() {
        Some(items) => entities_among(items, node_id),
        None => Seq::empty(),
    }
}

/// Whether a page is the last one: its `current_page` has reached its
/// `total_pages`. Where the page does not say which page it is, it is taken
/// to be the page `asked` for; where it does not say how many there are, it
/// is taken to be the last.
pub open spec fn is_last_page(doc: JsonTree, asked: u32) -> bool {
    let p = doc.member("meta"@).member("pagination"@);
    let current = match p.member("current_page"@).as_u64() {
        Some(c) => c,
        None => asked as u64,
    };
    let total = match p.member("total_pages"@).as_u64() {
        Some(t) => t,
        None => current,
    };
    current >= total
}

/// Reads the entity that one item of a server listing stands for.
pub fn read_entity(item: &Value, node_id: u64) -> (r: Option<Entity>)
    ensures
        r is Some == entity_in(json_tree(*item), node_id) is Some,
        r is Some ==> r->0@ == entity_in(json_tree(*item), node_id)->0,
{
    let a = member(item, "attributes");
    match as_u64(member(a, "node")) {
        Some(n) => {
            if n != node_id {
                return None;
            }
        },
        None => {
            return None;
        },
    }
    match (as_text(member(a, "id")), as_text(member(a, "name"))) {
        (Some(id), Some(name)) => Some(Entity { id: owned(id), display_name: owned(name) }),
        _ => None,
    }
}

/// Appends to `found` the entities of one page that belong to `node_id`.
pub fn read_page(found: &mut Vec<Entity>, doc: &Value, node_id: u64)
    ensures
        entity_models(final(found)@) == entity_models(old(found)@) + entities_on_page(
            json_tree(*doc),
            node_id,
        ),
{
    let ghost start = entity_models(found@);
    match as_items(member(doc, "data")) {
        None => {
            assert(entity_models(found@) =~= start + Seq::<EntityModel>::empty());
        },
        Some(items) => {
            let ghost trees = json_trees(items@);
            let mut i: usize = 0;
            assert(start + entities_among(trees.take(0), node_id) =~= start);
            while i < items.len()
                invariant
                    i <= items.len(),
                    trees == json_trees(items@),
                    entity_models(found@) == start + entities_among(trees.take(i as int), node_id),
                decreases items.len() - i,
            {
                assert(trees.take(i + 1).drop_last() =~= trees.take(i as int));
                assert(trees.take(i + 1).last() == json_tree(items@[i as int]));
                let ghost so_far = found@;
                match read_entity(&items[i], node_id) {
                    Some(e) => {
                        found.push(e);
                        assert(entity_models(found@) =~= entity_models(so_far).push(e@));
                        assert(entity_models(found@) =~= start + entities_among(
                            trees.take(i + 1),
                            node_id,
                        ));
                    },
                    None => {},
                }
                i += 1;
            }
            assert(trees.take(items.len() as int) =~= trees);
        },
    }
}

/// Whether a page of the server listing is the last one, given the page
/// number that was asked for.
pub fn last_page(doc: &Value, asked: u32) -> (r: bool)
    ensures
        r == is_last_page(json_tree(*doc), asked),
{
    let p = member(member(doc, "meta"), "pagination");
    let current = match as_u64(member(p, "current_page")) {
        Some(c) => c,
        None => asked as u64,
    };
    let total = match as_u64(member(p, "total_pages")) {
        Some(t) => t,
        None => current,
    };
    current >= total
}

/// The state of reading the server listing page by page.
#[derive(Debug, PartialEq, Eq)]
pub struct Listing {
    /// The node whose servers are listed.
    pub node_id: u64,
    /// The number of the page to ask for next; pages count from one.
    pub page: u32,
    /// The entities found on the pages read so far, in order.
    pub found: Vec<Entity>,
    /// Whether the last page has been read.
    pub complete: bool,
}

/// A [`Listing`] as contracts see it.
pub struct ListingModel {
    pub node_id: u64,
    pub page: u32,
    pub found: Seq<EntityModel>,
    pub complete: bool,
}

impl View for Listing {
    type V = ListingModel;

    open spec fn view(&self) -> ListingModel {
        ListingModel {
            node_id: self.node_id,
            page: self.page,
            found: entity_models(self.found@),
            complete: self.complete,
        }
    }
}

/// The listing before any page has been read: page one is asked for first.
pub open spec fn fresh(node_id: u64) -> ListingModel {
    ListingModel { node_id, page: 1, found: Seq::empty(), complete: false }
}

/// The listing after the page `doc`, which answers the request for page
/// `state.page`, has been read. A complete listing takes no further pages.
/// The last page completes the listing; any other page moves on to the
/// next page number, which fails where there is none.
pub open spec fn accepted(state: ListingModel, doc: JsonTree) -> Result<
    ListingModel,
    InventoryError,
> {
    if state.complete {
        Ok(state)
    } else if is_last_page(doc, state.page) {
        Ok(
            ListingModel {
                found: state.found + entities_on_page(doc, state.node_id),
                complete: true,
                ..state
            },
        )
    } else if state.page < u32::MAX {
        Ok(
            ListingModel {
                found: state.found + entities_on_page(doc, state.node_id),
                page: (state.page + 1) as u32,
                ..state
            },
        )
    } else {
        Err(InventoryError::PageLimit)
    }
}

impl Listing {
    /// Starts a listing for the node `node_id`.
    pub fn start(node_id: u64) -> (r: Listing)
        ensures
            r@ == fresh(node_id),
    {
        let r = Listing { node_id, page: 1, found: Vec::new(), complete: false };
        assert(r@.found =~= Seq::empty());
        r
    }

    /// Takes in the page that answers the request for page `self.page`.
    /// On an error the listing is left as it was.
    pub fn accept(&mut self, doc: &Value) -> (r: Result<(), InventoryError>)
        ensures
            match accepted(old(self)@, json_tree(*doc)) {
                Ok(next) => r is Ok && final(self)@ == next,
                Err(e) => r == Err::<(), InventoryError>(e) && final(self)@ == old(self)@,
            },
    {
        if self.complete {
            return Ok(());
        }
        if last_page(doc, self.page) {
            read_page(&mut self.found, doc, self.node_id);
            self.complete = true;
            Ok(())
        } else if self.page < u32::MAX {
            read_page(&mut self.found, doc, self.node_id);
            self.page = self.page + 1;
            Ok(())
        } else {
            Err(InventoryError::PageLimit)
        }
    }
}

/// The listing after a run of pages has been read, one after the other.
pub open spec fn fed(state: ListingModel, docs: Seq<JsonTree>) -> Result<
    ListingModel,
    InventoryError,
>
    decreases docs.len(),
{
    if docs.len() == 0 {
        Ok(state)
    } else {
        match fed(state, docs.drop_last()) {
            Ok(before) => accepted(before, docs.last()),
            Err(e) => Err(e),
        }
    }
}

/// The entities of a run of pages that belong to `node_id`: those of each
/// page, page after page.
pub open spec fn gathered(docs: Seq<JsonTree>, node_id: u64) -> Seq<EntityModel>
    decreases docs.len(),
{
    if docs.len() == 0 {
        Seq::empty()
    } else {
        gathered(docs.drop_last(), node_id) + entities_on_page(docs.last(), node_id)
    }
}

/// Pagination is complete: when the panel answers the requests for pages
/// one, two and so on with `docs`, of which only the last says that it is
/// the last, then the listing asks for exactly these pages, is complete
/// after the last of them and not before, and holds the entities of all
/// pages that belong to the node, each page's once and in order.
pub proof fn law_pages_are_gathered(node_id: u64, docs: Seq<JsonTree>)
    requires
        1 <= docs.len() <= u32::MAX,
        forall|i: int| 0 <= i < docs.len() - 1 ==> !is_last_page(#[trigger] docs[i], (i + 1) as u32),
        is_last_page(docs.last(), docs.len() as u32),
    ensures
        forall|k: int|
            0 <= k < docs.len() ==> (#[trigger] fed(fresh(node_id), docs.take(k))) == Ok::<
                ListingModel,
                InventoryError,
            >(
                ListingModel {
                    node_id,
                    page: (k + 1) as u32,
                    found: gathered(docs.take(k), node_id),
                    complete: false,
                },
            ),
        fed(fresh(node_id), docs) == Ok::<ListingModel, InventoryError>(
            ListingModel {
                node_id,
                page: docs.len() as u32,
                found: gathered(docs, node_id),
                complete: true,
            },
        ),
{
    assert forall|k: int| 0 <= k < docs.len() implies (#[trigger] fed(
        fresh(node_id),
        docs.take(k),
    )) == Ok::<ListingModel, InventoryError>(
        ListingModel {
            node_id,
            page: (k + 1) as u32,
            found: gathered(docs.take(k), node_id),
            complete: false,
        },
    ) by {
        lemma_pages_before_the_last(node_id, docs, k);
    }
    let n = docs.len() as int;
    lemma_pages_before_the_last(node_id, docs, n - 1);
    assert(docs.drop_last() =~= docs.take(n - 1));
}

proof fn lemma_pages_before_the_last(node_id: u64, docs: Seq<JsonTree>, k: int)
    requires
        0 <= k < docs.len() <= u32::MAX,
        forall|i: int| 0 <= i < docs.len() - 1 ==> !is_last_page(#[trigger] docs[i], (i + 1) as u32),
    ensures
        fed(fresh(node_id), docs.take(k)) == Ok::<ListingModel, InventoryError>(
            ListingModel {
                node_id,
                page: (k + 1) as u32,
                found: gathered(docs.take(k), node_id),
                complete: false,
            },
        ),
    decreases k,
{
    if k == 0 {
        assert(gathered(docs.take(0), node_id) =~= Seq::empty());
    } else {
        lemma_pages_before_the_last(node_id, docs, k - 1);
        assert(docs.take(k).drop_last() =~= docs.take(k - 1));
        assert(docs.take(k).last() == docs[k - 1]);
    }
}

} // verus!
