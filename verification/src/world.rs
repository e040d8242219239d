//! The correlation state machine: entities, attributes, and the per-tag
//! transition watcher.
//!
//! An [`App`] models the host's entity store and per-tick scheduler for the
//! attributes this core owns. Each entity carries a set of pending markers
//! (one per result-type tag), at most one raw success carrier, at most one
//! raw failure carrier, and the typed result holders produced by finalize.
//! Result types are identified by a runtime tag (`u64`); registering a tag
//! installs the transition watcher that, once per tick, finalizes every
//! entity whose raw carrier arrived fresh in that tick and which still holds
//! the matching pending marker.

use vstd::prelude::*;

use crate::decode::JsonDecode;
use crate::response::spec_parse;
use crate::response::RawResponse;
use crate::response::TypedResponse;

verus! {

/// A transport-level request descriptor, held as plain values. The core
/// never interprets it; the transport collaborator reads it when it executes
/// the request.
#[derive(Debug, PartialEq, Eq)]
pub struct HttpRequest {
    /// Request method, e.g. `"GET"`.
    pub method: String,
    /// Request URL.
    pub url: String,
    /// Request body bytes.
    pub body: Vec<u8>,
}

/// The pending marker: a tag naming the result type whose transition system
/// owns the entity's completion.
#[derive(Clone, Copy, Debug, PartialEq, Eq, Structural)]
pub struct RequestType(pub u64);

/// A request descriptor together with its pending marker: attaching it to an
/// entity establishes participation in that tag's correlation protocol in
/// one step, with no partial state observable.
#[derive(Debug, PartialEq, Eq)]
pub struct RequestBundle {
    /// The request to execute.
    pub request: HttpRequest,
    /// The tag of the result type that will finalize this request.
    pub request_type: RequestType,
}

impl RequestBundle {
    /// Build a bundle that, once attached, will finalize into a typed result
    /// holder for `tag`.
    pub fn new(request: HttpRequest, tag: u64) -> (b: RequestBundle)
        ensures
            b.request == request,
            b.request_type == RequestType(tag),
    {
        RequestBundle { request, request_type: RequestType(tag) }
    }
}

/// A raw outcome carrier slot. A carrier is attached at most once per
/// completion; it is `Fresh` during the tick in which it arrived (the edge
/// the watcher triggers on) and `Settled` afterwards.
#[derive(Debug, PartialEq, Eq)]
pub enum Carrier<T> {
    /// No carrier attached.
    Absent,
    /// Attached during the current tick; watchers fire on this state.
    Fresh(T),
    /// Attached in an earlier tick; watchers ignore this state.
    Settled(T),
}

/// A typed result holder together with the tag it was finalized for.
#[derive(Debug, PartialEq, Eq)]
pub struct TaggedResponse {
    /// The result-type tag.
    pub tag: u64,
    /// The holder installed at finalize time.
    pub response: TypedResponse,
}

/// One entity's attributes, as stored.
#[derive(Debug, PartialEq, Eq)]
pub struct EntityState {
    /// The request descriptor, present while a bundle is attached.
    pub request: Option<HttpRequest>,
    /// Tags whose pending marker is attached.
    pub pending: Vec<u64>,
    /// The raw success carrier slot.
    pub success: Carrier<RawResponse>,
    /// The raw failure carrier slot.
    pub failure: Carrier<String>,
    /// Typed result holders, tagged by result type; the holder for a tag is
    /// the most recently inserted one.
    pub results: Vec<TaggedResponse>,
}

/// The mathematical view of one entity: pending markers as a set, result
/// holders as a map from tag to holder.
#[verifier::ext_equal]
pub ghost struct EntityModel {
    /// The request descriptor, if attached.
    pub request: Option<HttpRequest>,
    /// Tags with a live pending marker.
    pub pending: Set<u64>,
    /// The raw success carrier slot.
    pub success: Carrier<RawResponse>,
    /// The raw failure carrier slot.
    pub failure: Carrier<String>,
    /// Typed result holders by tag.
    pub results: Map<u64, TypedResponse>,
}

/// The model of an entity with no attributes at all.
pub open spec fn empty_entity_model() -> EntityModel {
    EntityModel {
        request: None,
        pending: Set::empty(),
        success: Carrier::Absent,
        failure: Carrier::Absent,
        results: Map::empty(),
    }
}

/// The holders of a result sequence as a map from tag to holder; a later
/// entry for the same tag shadows an earlier one.
pub open spec fn results_as_map(rs: Seq<TaggedResponse>) -> Map<u64, TypedResponse>
    decreases rs.len(),
{
    if rs.len() == 0 {
        Map::empty()
    } else {
        results_as_map(rs.drop_last()).insert(rs.last().tag, rs.last().response)
    }
}

impl View for EntityState {
    type V = EntityModel;

    open spec fn view(&self) -> EntityModel {
        EntityModel {
            request: self.request,
            pending: self.pending@.to_set(),
            success: self.success,
            failure: self.failure,
            results: results_as_map(self.results@),
        }
    }
}

/// The mathematical view of the whole store: one model per entity, in spawn
/// order, and the registered tags in registration order.
#[verifier::ext_equal]
pub ghost struct AppModel {
    /// Entity models, indexed by entity id.
    pub entities: Seq<EntityModel>,
    /// Tags whose transition watcher is installed.
    pub registered: Seq<u64>,
}

/// The entity store and the scheduler state for the correlation core.
/// Entities are identified by their spawn index.
#[derive(Debug)]
pub struct App {
    /// One state per spawned entity.
    pub entities: Vec<EntityState>,
    /// Tags whose transition watcher is installed, in registration order.
    pub registered: Vec<u64>,
}

impl View for App {
    type V = AppModel;

    open spec fn view(&self) -> AppModel {
        AppModel {
            entities: Seq::new(self.entities@.len(), |i: int| self.entities@[i]@),
            registered: self.registered@,
        }
    }
}

/// One finalize step, as mathematics: if the entity holds the pending marker
/// for `tag` and a raw carrier arrived fresh this tick, install the typed
/// result holder for `tag` and remove the marker; otherwise leave the entity
/// unchanged. When both carriers are fresh in the same tick — a violation of
/// the transport contract — the failure carrier deliberately takes
/// precedence, so that the outcome is defined rather than racy.
pub open spec fn finalize_model(m: EntityModel, tag: u64) -> EntityModel {
    if !m.pending.contains(tag) {
        m
    } else {
        match m.failure {
            Carrier::Fresh(msg) => EntityModel {
                pending: m.pending.remove(tag),
                results: m.results.insert(tag, TypedResponse { result: Err(msg) }),
                ..m
            },
            _ => match m.success {
                Carrier::Fresh(body) => EntityModel {
                    pending: m.pending.remove(tag),
                    results: m.results.insert(tag, TypedResponse { result: Ok(body) }),
                    ..m
                },
                _ => m,
            },
        }
    }
}

/// Running the watchers of `tags` over one entity, in order.
pub open spec fn run_watchers(m: EntityModel, tags: Seq<u64>) -> EntityModel
    decreases tags.len(),
{
    if tags.len() == 0 {
        m
    } else {
        run_watchers(finalize_model(m, tags[0]), tags.drop_first())
    }
}

/// A carrier after the tick in which it arrived: fresh becomes settled.
pub open spec fn settle_carrier<T>(c: Carrier<T>) -> Carrier<T> {
    match c {
        Carrier::Fresh(x) => Carrier::Settled(x),
        other => other,
    }
}

/// An entity at the end of a tick: both carrier slots lose their freshness,
/// so that detection stays edge-triggered.
pub open spec fn settle_model(m: EntityModel) -> EntityModel {
    EntityModel { success: settle_carrier(m.success), failure: settle_carrier(m.failure), ..m }
}

/// One whole tick over one entity: every registered watcher runs, then the
/// carriers settle.
pub open spec fn tick_model(m: EntityModel, tags: Seq<u64>) -> EntityModel {
    settle_model(run_watchers(m, tags))
}

/// Membership in a sequence after a push.
proof fn lemma_contains_push(s: Seq<u64>, x: u64, t: u64)
    ensures
        s.push(x).contains(t) == (s.contains(t) || t == x),
{
    if s.contains(t) {
        let i = choose|i: int| 0 <= i < s.len() && s[i] == t;
        assert(s.push(x)[i] == t);
    }
    if t == x {
        assert(s.push(x)[s.len() as int] == t);
    }
    if s.push(x).contains(t) {
        let i = choose|i: int| 0 <= i < s.push(x).len() && s.push(x)[i] == t;
        if i < s.len() {
            assert(s[i] == t);
        }
    }
}

/// The result map after appending one tagged holder.
proof fn lemma_results_map_push(rs: Seq<TaggedResponse>, x: TaggedResponse)
    ensures
        results_as_map(rs.push(x)) == results_as_map(rs).insert(x.tag, x.response),
{
    assert(rs.push(x).drop_last() =~= rs);
    assert(rs.push(x).last() == x);
}

/// Whether a tag is present in a vector of tags.
fn contains_tag(v: &Vec<u64>, tag: u64) -> (b: bool)
    ensures
        b == v@.contains(tag),
{
    let mut i: usize = 0;
    while i < v.len()
        invariant
            i <= v@.len(),
            forall|k: int| 0 <= k < i ==> v@[k] != tag,
        decreases v@.len() - i,
    {
        if v[i] == tag {
            assert(v@[i as int] == tag);
            return true;
        }
        i += 1;
    }
    false
}

/// Remove every occurrence of a tag from a vector of tags.
fn remove_tag(v: &mut Vec<u64>, tag: u64)
    ensures
        forall|t: u64| final(v)@.contains(t) == (old(v)@.contains(t) && t != tag),
{
    let ghost orig = v@;
    let mut out: Vec<u64> = Vec::new();
    let mut i: usize = 0;
    while i < v.len()
        invariant
            i <= v@.len(),
            v@ == orig,
            forall|t: u64| out@.contains(t) == (orig.take(i as int).contains(t) && t != tag),
        decreases v@.len() - i,
    {
        let x = v[i];
        let ghost prefix = orig.take(i as int);
        let ghost out_before = out@;
        if x != tag {
            out.push(x);
        }
        proof {
            assert(orig.take(i + 1 as int) =~= prefix.push(orig[i as int]));
            assert forall|t: u64|
                out@.contains(t) == (orig.take(i + 1 as int).contains(t) && t != tag) by {
                lemma_contains_push(prefix, orig[i as int], t);
                if x != tag {
                    lemma_contains_push(out_before, x, t);
                }
            }
        }
        i += 1;
    }
    proof {
        assert(orig.take(v@.len() as int) =~= orig);
    }
    *v = out;
}

/// One finalize step on one stored entity; implements [`finalize_model`].
fn finalize_entity(e: &mut EntityState, tag: u64)
    ensures
        final(e)@ == finalize_model(old(e)@, tag),
{
    let pending_here = contains_tag(&e.pending, tag);
    if pending_here {
        match &e.failure {
            Carrier::Fresh(msg) => {
                let holder = TypedResponse { result: Err(msg.clone()) };
                let ghost before = e.results@;
                e.results.push(TaggedResponse { tag, response: holder });
                remove_tag(&mut e.pending, tag);
                proof {
                    lemma_results_map_push(
                        before,
                        TaggedResponse { tag, response: TypedResponse { result: Err(old(e).failure->Fresh_0) } },
                    );
                    assert(e.pending@.to_set() =~= old(e).pending@.to_set().remove(tag));
                    assert(e@ =~= finalize_model(old(e)@, tag));
                }
            },
            _ => {
                match &e.success {
                    Carrier::Fresh(body) => {
                        let holder = TypedResponse { result: Ok(body.clone()) };
                        let ghost before = e.results@;
                        e.results.push(TaggedResponse { tag, response: holder });
                        remove_tag(&mut e.pending, tag);
                        proof {
                            lemma_results_map_push(
                                before,
                                TaggedResponse { tag, response: TypedResponse { result: Ok(old(e).success->Fresh_0) } },
                            );
                            assert(e.pending@.to_set() =~= old(e).pending@.to_set().remove(tag));
                            assert(e@ =~= finalize_model(old(e)@, tag));
                        }
                    },
                    _ => {},
                }
            },
        }
    }
}

/// Settle both carrier slots of one stored entity; implements
/// [`settle_model`].
fn settle_entity(e: &mut EntityState)
    ensures
        final(e)@ == settle_model(old(e)@),
{
    match &e.success {
        Carrier::Fresh(body) => {
            let settled = body.clone();
            e.success = Carrier::Settled(settled);
        },
        _ => {},
    }
    match &e.failure {
        Carrier::Fresh(msg) => {
            let settled = msg.clone();
            e.failure = Carrier::Settled(settled);
        },
        _ => {},
    }
    proof {
        assert(e@ =~= settle_model(old(e)@));
    }
}

/// The transition watcher for one result-type tag: finalize, in this tick,
/// every entity whose matching raw carrier arrived fresh and whose pending
/// marker for `tag` is still attached. The host runs this once per tick per
/// registered tag; [`App::update`] does exactly that.
pub fn handle_typed_response(app: &mut App, tag: u64)
    ensures
        final(app)@.registered == old(app)@.registered,
        final(app)@.entities.len() == old(app)@.entities.len(),
        forall|j: int|
            0 <= j < old(app)@.entities.len() ==> final(app)@.entities[j] == finalize_model(
                old(app)@.entities[j],
                tag,
            ),
{
    let n = app.entities.len();
    let mut i: usize = 0;
    while i < n
        invariant
            i <= n,
            n == app.entities@.len(),
            app.entities@.len() == old(app).entities@.len(),
            app.registered@ == old(app).registered@,
            forall|j: int| 0 <= j < i ==> app.entities@[j]@ == finalize_model(old(app).entities@[j]@, tag),
            forall|j: int| i <= j < n ==> app.entities@[j] == old(app).entities@[j],
        decreases n - i,
    {
        finalize_entity(&mut app.entities[i], tag);
        i += 1;
    }
}

impl App {
    /// An empty store: no entities, no watchers.
    pub fn new() -> (app: App)
        ensures
            app@.entities == Seq::<EntityModel>::empty(),
            app@.registered == Seq::<u64>::empty(),
    {
        let app = App { entities: Vec::new(), registered: Vec::new() };
        proof {
            assert(app@.entities =~= Seq::<EntityModel>::empty());
            assert(app@.registered =~= Seq::<u64>::empty());
        }
        app
    }

    /// Spawn a fresh entity with no attributes; returns its id.
    pub fn spawn(&mut self) -> (id: usize)
        ensures
            id == old(self)@.entities.len(),
            final(self)@.registered == old(self)@.registered,
            final(self)@.entities == old(self)@.entities.push(empty_entity_model()),
    {
        let id = self.entities.len();
        self.entities.push(EntityState {
            request: None,
            pending: Vec::new(),
            success: Carrier::Absent,
            failure: Carrier::Absent,
            results: Vec::new(),
        });
        proof {
            assert(self.entities@.last()@ =~= empty_entity_model());
            assert(self@.entities =~= old(self)@.entities.push(empty_entity_model()));
        }
        id
    }

    /// Number of spawned entities.
    pub fn entity_count(&self) -> (n: usize)
        ensures
            n == self@.entities.len(),
    {
        self.entities.len()
    }

    /// Attach a request bundle: the request descriptor and the pending
    /// marker for the bundle's tag arrive together, atomically from the
    /// point of view of every other operation.
    pub fn attach_bundle(&mut self, entity: usize, bundle: RequestBundle)
        requires
            entity < old(self)@.entities.len(),
        ensures
            final(self)@.registered == old(self)@.registered,
            final(self)@.entities.len() == old(self)@.entities.len(),
            forall|j: int|
                0 <= j < old(self)@.entities.len() && j != entity ==> final(self)@.entities[j]
                    == old(self)@.entities[j],
            final(self)@.entities[entity as int] == (EntityModel {
                request: Some(bundle.request),
                pending: old(self)@.entities[entity as int].pending.insert(bundle.request_type.0),
                ..old(self)@.entities[entity as int]
            }),
    {
        let tag = bundle.request_type.0;
        let e = &mut self.entities[entity];
        let ghost pending_before = e.pending@;
        e.request = Some(bundle.request);
        let already = contains_tag(&e.pending, tag);
        if !already {
            e.pending.push(tag);
        }
        proof {
            assert forall|t: u64|
                e.pending@.to_set().contains(t) == pending_before.to_set().insert(tag).contains(
                    t,
                ) by {
                if !already {
                    lemma_contains_push(pending_before, tag, t);
                }
            }
            assert(e.pending@.to_set() =~= pending_before.to_set().insert(tag));
            assert(e@ =~= EntityModel {
                request: Some(bundle.request),
                pending: pending_before.to_set().insert(tag),
                ..old(self).entities@[entity as int]@
            });
        }
    }

    /// Attach a raw success carrier, fresh for the current tick. Called by
    /// the transport collaborator when the request finished with a response.
    pub fn attach_success(&mut self, entity: usize, response: RawResponse)
        requires
            entity < old(self)@.entities.len(),
        ensures
            final(self)@.registered == old(self)@.registered,
            final(self)@.entities.len() == old(self)@.entities.len(),
            forall|j: int|
                0 <= j < old(self)@.entities.len() && j != entity ==> final(self)@.entities[j]
                    == old(self)@.entities[j],
            final(self)@.entities[entity as int] == (EntityModel {
                success: Carrier::Fresh(response),
                ..old(self)@.entities[entity as int]
            }),
    {
        let e = &mut self.entities[entity];
        e.success = Carrier::Fresh(response);
        proof {
            assert(e@ =~= EntityModel {
                success: e@.success,
                ..old(self).entities@[entity as int]@
            });
        }
    }

    /// Attach a raw failure carrier, fresh for the current tick. Called by
    /// the transport collaborator when the request finished with an error;
    /// the message is surfaced verbatim.
    pub fn attach_failure(&mut self, entity: usize, message: String)
        requires
            entity < old(self)@.entities.len(),
        ensures
            final(self)@.registered == old(self)@.registered,
            final(self)@.entities.len() == old(self)@.entities.len(),
            forall|j: int|
                0 <= j < old(self)@.entities.len() && j != entity ==> final(self)@.entities[j]
                    == old(self)@.entities[j],
            final(self)@.entities[entity as int] == (EntityModel {
                failure: Carrier::Fresh(message),
                ..old(self)@.entities[entity as int]
            }),
    {
        let e = &mut self.entities[entity];
        e.failure = Carrier::Fresh(message);
        proof {
            assert(e@ =~= EntityModel {
                failure: e@.failure,
                ..old(self).entities@[entity as int]@
            });
        }
    }

    /// Remove the pending marker for one tag, if attached: the only
    /// cancellation primitive. The pending transition for that tag is
    /// silently dropped; no typed result holder will ever appear for it.
    pub fn remove_pending(&mut self, entity: usize, tag: u64)
        requires
            entity < old(self)@.entities.len(),
        ensures
            final(self)@.registered == old(self)@.registered,
            final(self)@.entities.len() == old(self)@.entities.len(),
            forall|j: int|
                0 <= j < old(self)@.entities.len() && j != entity ==> final(self)@.entities[j]
                    == old(self)@.entities[j],
            final(self)@.entities[entity as int] == (EntityModel {
                pending: old(self)@.entities[entity as int].pending.remove(tag),
                ..old(self)@.entities[entity as int]
            }),
    {
        let e = &mut self.entities[entity];
        let ghost pending_before = e.pending@;
        remove_tag(&mut e.pending, tag);
        proof {
            assert(e.pending@.to_set() =~= pending_before.to_set().remove(tag));
            assert(e@ =~= EntityModel {
                pending: pending_before.to_set().remove(tag),
                ..old(self).entities@[entity as int]@
            });
        }
    }

    /// Remove an entity from the protocol: every attribute this core owns or
    /// reads is detached. Work still pending on the entity is silently
    /// abandoned. The id itself stays allocated and bare.
    pub fn despawn(&mut self, entity: usize)
        requires
            entity < old(self)@.entities.len(),
        ensures
            final(self)@.registered == old(self)@.registered,
            final(self)@.entities.len() == old(self)@.entities.len(),
            forall|j: int|
                0 <= j < old(self)@.entities.len() && j != entity ==> final(self)@.entities[j]
                    == old(self)@.entities[j],
            final(self)@.entities[entity as int] == empty_entity_model(),
    {
        let e = &mut self.entities[entity];
        e.request = None;
        e.pending = Vec::new();
        e.success = Carrier::Absent;
        e.failure = Carrier::Absent;
        e.results = Vec::new();
        proof {
            assert(e.pending@.to_set() =~= Set::<u64>::empty());
            assert(e@ =~= empty_entity_model());
        }
    }

    /// Whether the pending marker for `tag` is attached to the entity.
    pub fn has_pending(&self, entity: usize, tag: u64) -> (b: bool)
        requires
            entity < self@.entities.len(),
        ensures
            b == self@.entities[entity as int].pending.contains(tag),
    {
        contains_tag(&self.entities[entity].pending, tag)
    }

    /// The request descriptor attached to the entity, if any.
    pub fn request_of(&self, entity: usize) -> (r: &Option<HttpRequest>)
        requires
            entity < self@.entities.len(),
        ensures
            *r == self@.entities[entity as int].request,
    {
        &self.entities[entity].request
    }

    /// The typed result holder finalized for `tag` on the entity, if one has
    /// been installed.
    pub fn typed_response(&self, entity: usize, tag: u64) -> (r: Option<&TypedResponse>)
        requires
            entity < self@.entities.len(),
        ensures
            match r {
                Some(t) => self@.entities[entity as int].results.contains_key(tag) && *t
                    == self@.entities[entity as int].results[tag],
                None => !self@.entities[entity as int].results.contains_key(tag),
            },
    {
        let rs = &self.entities[entity].results;
        let mut found: Option<usize> = None;
        let mut i: usize = 0;
        while i < rs.len()
            invariant
                i <= rs@.len(),
                match found {
                    Some(k) => k < i && rs@[k as int].tag == tag && results_as_map(
                        rs@.take(i as int),
                    ).contains_key(tag) && results_as_map(rs@.take(i as int))[tag] == rs@[k as int].response,
                    None => !results_as_map(rs@.take(i as int)).contains_key(tag),
                },
            decreases rs@.len() - i,
        {
            let ghost prefix = rs@.take(i as int);
            if rs[i].tag == tag {
                found = Some(i);
            }
            proof {
                assert(rs@.take(i + 1 as int) =~= prefix.push(rs@[i as int]));
                lemma_results_map_push(prefix, rs@[i as int]);
            }
            i += 1;
        }
        proof {
            assert(rs@.take(rs@.len() as int) =~= rs@);
        }
        match found {
            Some(k) => Some(&rs[k].response),
            None => None,
        }
    }

    /// Run one tick: every registered transition watcher, in registration
    /// order, then both carrier slots of every entity settle, so that
    /// detection stays edge-triggered and each completion is finalized in
    /// exactly the tick in which its carrier arrived.
    pub fn update(&mut self)
        ensures
            final(self)@.registered == old(self)@.registered,
            final(self)@.entities.len() == old(self)@.entities.len(),
            forall|j: int|
                0 <= j < old(self)@.entities.len() ==> final(self)@.entities[j] == tick_model(
                    old(self)@.entities[j],
                    old(self)@.registered,
                ),
    {
        let ghost reg = self.registered@;
        let ghost entities0 = self@.entities;
        let nt = self.registered.len();
        let mut k: usize = 0;
        while k < nt
            invariant
                k <= nt,
                nt == self.registered@.len(),
                self.registered@ == reg,
                self@.entities.len() == entities0.len(),
                forall|j: int|
                    0 <= j < entities0.len() ==> self@.entities[j] == run_watchers(
                        entities0[j],
                        reg.take(k as int),
                    ),
            decreases nt - k,
        {
            let tag = self.registered[k];
            handle_typed_response(self, tag);
            proof {
                assert(reg.take(k + 1 as int) =~= reg.take(k as int).push(reg[k as int]));
                assert forall|j: int|
                    0 <= j < entities0.len() implies self@.entities[j] == run_watchers(
                    entities0[j],
                    reg.take(k + 1 as int),
                ) by {
                    lemma_run_watchers_push(entities0[j], reg.take(k as int), reg[k as int]);
                }
            }
            k += 1;
        }
        proof {
            assert(reg.take(nt as int) =~= reg);
        }
        let n = self.entities.len();
        let ghost mid = self@.entities;
        let mut i: usize = 0;
        while i < n
            invariant
                i <= n,
                n == self.entities@.len(),
                self.registered@ == reg,
                self@.entities.len() == mid.len(),
                forall|j: int| 0 <= j < i ==> self@.entities[j] == settle_model(mid[j]),
                forall|j: int| i <= j < n ==> self@.entities[j] == mid[j],
            decreases n - i,
        {
            let ghost before = self.entities@;
            proof {
                assert forall|j: int| 0 <= j < before.len() implies before[j]@ == self@.entities[j] by {}
            }
            let ghost view_before = self@.entities;
            settle_entity(&mut self.entities[i]);
            proof {
                assert(self.entities@ == before.update(i as int, self.entities@[i as int]));
                assert(self.entities@[i as int]@ == settle_model(mid[i as int]));
                assert forall|j: int| 0 <= j < i + 1 implies self@.entities[j] == settle_model(
                    mid[j],
                ) by {
                    assert(self@.entities[j] == self.entities@[j]@);
                    if j < i {
                        assert(self.entities@[j] == before[j]);
                        assert(before[j]@ == view_before[j]);
                        assert(view_before[j] == settle_model(mid[j]));
                    }
                }
            }
            i += 1;
        }
    }
}

/// Install the transition watcher for one result-type tag. Must be called
/// for every tag used in a request bundle, at latest before the tick in
/// which its completion is expected: a bundle whose tag was never registered
/// leaves its entity pending forever, with no diagnostic. Registering the
/// same tag twice installs the watcher once.
pub fn register_request_type(app: &mut App, tag: u64)
    ensures
        final(app)@.entities == old(app)@.entities,
        final(app)@.registered == if old(app)@.registered.contains(tag) {
            old(app)@.registered
        } else {
            old(app)@.registered.push(tag)
        },
{
    let already = contains_tag(&app.registered, tag);
    if !already {
        app.registered.push(tag);
    }
}

/// One row of the success query pass: an entity whose raw success carrier
/// arrived fresh this tick and which still holds the pending marker for the
/// watcher's tag. The watcher finalizes these entities with `Ok`, except
/// where a fresh failure carrier takes precedence.
#[derive(Debug, PartialEq, Eq)]
pub struct TypedRequestQuery {
    /// The entity's id.
    pub entity: usize,
    /// The fresh success payload.
    pub response: RawResponse,
    /// The pending marker matched on.
    pub type_info: RequestType,
}

/// One row of the failure query pass: an entity whose raw failure carrier
/// arrived fresh this tick and which still holds the pending marker for the
/// watcher's tag. The watcher finalizes exactly these entities with `Err`.
#[derive(Debug, PartialEq, Eq)]
pub struct TypedFailedRequestQuery {
    /// The entity's id.
    pub entity: usize,
    /// The fresh failure message.
    pub response: String,
    /// The pending marker matched on.
    pub type_info: RequestType,
}

/// The rows of the success query pass over a store prefix, in entity order.
pub open spec fn success_rows(ms: Seq<EntityModel>, tag: u64) -> Seq<TypedRequestQuery>
    decreases ms.len(),
{
    if ms.len() == 0 {
        Seq::empty()
    } else {
        let rest = success_rows(ms.drop_last(), tag);
        let m = ms.last();
        if m.pending.contains(tag) && (m.success is Fresh) {
            rest.push(TypedRequestQuery {
                entity: (ms.len() - 1) as usize,
                response: m.success->Fresh_0,
                type_info: RequestType(tag),
            })
        } else {
            rest
        }
    }
}

/// The rows of the failure query pass over a store prefix, in entity order.
pub open spec fn failure_rows(ms: Seq<EntityModel>, tag: u64) -> Seq<TypedFailedRequestQuery>
    decreases ms.len(),
{
    if ms.len() == 0 {
        Seq::empty()
    } else {
        let rest = failure_rows(ms.drop_last(), tag);
        let m = ms.last();
        if m.pending.contains(tag) && (m.failure is Fresh) {
            rest.push(TypedFailedRequestQuery {
                entity: (ms.len() - 1) as usize,
                response: m.failure->Fresh_0,
                type_info: RequestType(tag),
            })
        } else {
            rest
        }
    }
}

/// The success query pass for one tag: the entities a watcher for `tag`
/// would finalize with `Ok` this tick, with their payloads.
pub fn completed_requests(app: &App, tag: u64) -> (rows: Vec<TypedRequestQuery>)
    ensures
        rows@ == success_rows(app@.entities, tag),
{
    let mut rows: Vec<TypedRequestQuery> = Vec::new();
    let n = app.entities.len();
    let mut i: usize = 0;
    while i < n
        invariant
            i <= n,
            n == app.entities@.len(),
            rows@ == success_rows(app@.entities.take(i as int), tag),
        decreases n - i,
    {
        let ghost prefix = app@.entities.take(i as int);
        let e = &app.entities[i];
        let pending_here = contains_tag(&e.pending, tag);
        if pending_here {
            match &e.success {
                Carrier::Fresh(body) => {
                    rows.push(TypedRequestQuery {
                        entity: i,
                        response: body.clone(),
                        type_info: RequestType(tag),
                    });
                },
                _ => {},
            }
        }
        proof {
            let longer = app@.entities.take(i + 1 as int);
            assert(longer =~= prefix.push(app@.entities[i as int]));
            assert(longer.drop_last() =~= prefix);
            assert(longer.last() == app@.entities[i as int]);
            assert(app@.entities[i as int] == e@);
        }
        i += 1;
    }
    proof {
        assert(app@.entities.take(n as int) =~= app@.entities);
    }
    rows
}

/// The failure query pass for one tag: the entities a watcher for `tag`
/// would finalize with `Err` this tick, with their messages.
pub fn failed_requests(app: &App, tag: u64) -> (rows: Vec<TypedFailedRequestQuery>)
    ensures
        rows@ == failure_rows(app@.entities, tag),
{
    let mut rows: Vec<TypedFailedRequestQuery> = Vec::new();
    let n = app.entities.len();
    let mut i: usize = 0;
    while i < n
        invariant
            i <= n,
            n == app.entities@.len(),
            rows@ == failure_rows(app@.entities.take(i as int), tag),
        decreases n - i,
    {
        let ghost prefix = app@.entities.take(i as int);
        let e = &app.entities[i];
        let pending_here = contains_tag(&e.pending, tag);
        if pending_here {
            match &e.failure {
                Carrier::Fresh(msg) => {
                    rows.push(TypedFailedRequestQuery {
                        entity: i,
                        response: msg.clone(),
                        type_info: RequestType(tag),
                    });
                },
                _ => {},
            }
        }
        proof {
            let longer = app@.entities.take(i + 1 as int);
            assert(longer =~= prefix.push(app@.entities[i as int]));
            assert(longer.drop_last() =~= prefix);
            assert(longer.last() == app@.entities[i as int]);
            assert(app@.entities[i as int] == e@);
        }
        i += 1;
    }
    proof {
        assert(app@.entities.take(n as int) =~= app@.entities);
    }
    rows
}

/// A sequence that contains an element other than its head still contains
/// it after the head is dropped.
proof fn lemma_contains_drop_first(s: Seq<u64>, t: u64)
    requires
        s.len() > 0,
        s.contains(t),
        s[0] != t,
    ensures
        s.drop_first().contains(t),
{
    let i = choose|i: int| 0 <= i < s.len() && s[i] == t;
    assert(s.drop_first()[i - 1] == t);
}

/// Running one more watcher after a run of watchers.
proof fn lemma_run_watchers_push(m: EntityModel, s: Seq<u64>, t: u64)
    ensures
        run_watchers(m, s.push(t)) == finalize_model(run_watchers(m, s), t),
    decreases s.len(),
{
    if s.len() == 0 {
        assert(s.push(t)[0] == t);
        assert(s.push(t).drop_first() =~= Seq::<u64>::empty());
        assert(run_watchers(m, s.push(t)) == run_watchers(
            finalize_model(m, t),
            Seq::<u64>::empty(),
        ));
        assert(run_watchers(finalize_model(m, t), Seq::<u64>::empty()) == finalize_model(m, t));
        assert(run_watchers(m, s) == m);
    } else {
        assert(s.push(t)[0] == s[0]);
        assert(s.push(t).drop_first() =~= s.drop_first().push(t));
        assert(run_watchers(m, s.push(t)) == run_watchers(
            finalize_model(m, s[0]),
            s.drop_first().push(t),
        ));
        lemma_run_watchers_push(finalize_model(m, s[0]), s.drop_first(), t);
        assert(run_watchers(m, s) == run_watchers(finalize_model(m, s[0]), s.drop_first()));
    }
}

/// Watchers never touch the raw carriers or the request descriptor: those
/// belong to the transport collaborator and are read-only to this core.
pub proof fn lemma_run_watchers_carriers(m: EntityModel, tags: Seq<u64>)
    ensures
        run_watchers(m, tags).success == m.success,
        run_watchers(m, tags).failure == m.failure,
        run_watchers(m, tags).request == m.request,
    decreases tags.len(),
{
    if tags.len() > 0 {
        lemma_run_watchers_carriers(finalize_model(m, tags[0]), tags.drop_first());
    }
}

/// A tag that is not pending on an entity is never finalized by any run of
/// watchers: the marker stays absent and the holder map keeps exactly what
/// it held for that tag.
pub proof fn lemma_run_watchers_preserves_done(m: EntityModel, tags: Seq<u64>, tag: u64)
    requires
        !m.pending.contains(tag),
    ensures
        !run_watchers(m, tags).pending.contains(tag),
        run_watchers(m, tags).results.contains_key(tag) == m.results.contains_key(tag),
        m.results.contains_key(tag) ==> run_watchers(m, tags).results[tag] == m.results[tag],
    decreases tags.len(),
{
    if tags.len() > 0 {
        lemma_run_watchers_preserves_done(finalize_model(m, tags[0]), tags.drop_first(), tag);
    }
}

/// An entity that holds the pending marker for a registered tag and whose
/// raw success carrier arrived fresh this tick is finalized exactly once in
/// that tick: afterwards exactly one typed result holder for the tag is
/// present -- `Ok` with the raw payload -- and the pending marker is gone.
pub proof fn lemma_success_finalized_in_one_tick(
    m: EntityModel,
    tags: Seq<u64>,
    tag: u64,
    body: RawResponse,
)
    requires
        tags.contains(tag),
        m.pending.contains(tag),
        m.success == Carrier::<RawResponse>::Fresh(body),
        (m.failure is Absent),
    ensures
        tick_model(m, tags).results.contains_key(tag),
        tick_model(m, tags).results[tag] == (TypedResponse { result: Ok(body) }),
        !tick_model(m, tags).pending.contains(tag),
    decreases tags.len(),
{
    if tags[0] == tag {
        let m1 = finalize_model(m, tag);
        lemma_run_watchers_preserves_done(m1, tags.drop_first(), tag);
    } else {
        lemma_contains_drop_first(tags, tag);
        lemma_success_finalized_in_one_tick(finalize_model(m, tags[0]), tags.drop_first(), tag, body);
    }
}

/// An entity that holds the pending marker for a registered tag and whose
/// raw failure carrier arrived fresh this tick is finalized in that tick
/// with `Err` of the transport's message, verbatim, whatever the success
/// slot holds; the pending marker is gone afterwards.
pub proof fn lemma_failure_finalized_in_one_tick(
    m: EntityModel,
    tags: Seq<u64>,
    tag: u64,
    message: String,
)
    requires
        tags.contains(tag),
        m.pending.contains(tag),
        m.failure == Carrier::<String>::Fresh(message),
    ensures
        tick_model(m, tags).results.contains_key(tag),
        tick_model(m, tags).results[tag] == (TypedResponse { result: Err(message) }),
        !tick_model(m, tags).pending.contains(tag),
    decreases tags.len(),
{
    if tags[0] == tag {
        let m1 = finalize_model(m, tag);
        lemma_run_watchers_preserves_done(m1, tags.drop_first(), tag);
    } else {
        lemma_contains_drop_first(tags, tag);
        lemma_failure_finalized_in_one_tick(finalize_model(m, tags[0]), tags.drop_first(), tag, message);
    }
}

/// An entity that does not hold the pending marker for a tag and has no
/// typed result holder for it acquires neither during a tick, whatever raw
/// carriers are attached: a watcher only ever acts on entities that carry
/// its own tag's pending marker.
pub proof fn lemma_unclaimed_tag_untouched(m: EntityModel, tags: Seq<u64>, tag: u64)
    requires
        !m.pending.contains(tag),
        !m.results.contains_key(tag),
    ensures
        !tick_model(m, tags).pending.contains(tag),
        !tick_model(m, tags).results.contains_key(tag),
{
    lemma_run_watchers_preserves_done(m, tags, tag);
}

/// Watchers act only on fresh carriers.
proof fn lemma_run_watchers_inert(m: EntityModel, tags: Seq<u64>)
    requires
        !(m.success is Fresh),
        !(m.failure is Fresh),
    ensures
        run_watchers(m, tags) == m,
    decreases tags.len(),
{
    if tags.len() > 0 {
        assert(finalize_model(m, tags[0]) == m);
        lemma_run_watchers_inert(m, tags.drop_first());
    }
}

/// Detection is edge-triggered: once a carrier has settled — that is, in
/// every tick after the one in which it arrived — no watcher fires again, so
/// each completion is finalized exactly once, in its arrival tick.
pub proof fn lemma_settled_carriers_are_inert(m: EntityModel, tags: Seq<u64>)
    requires
        !(m.success is Fresh),
        !(m.failure is Fresh),
    ensures
        tick_model(m, tags).results == m.results,
        tick_model(m, tags).pending == m.pending,
        tick_model(m, tags).request == m.request,
{
    lemma_run_watchers_inert(m, tags);
}

/// The entity after `n` whole ticks with no interleaved outside action.
pub open spec fn tick_model_n(m: EntityModel, tags: Seq<u64>, n: nat) -> EntityModel
    decreases n,
{
    if n == 0 {
        m
    } else {
        tick_model_n(tick_model(m, tags), tags, (n - 1) as nat)
    }
}

/// Across any number of ticks, a tag with no pending marker and no typed
/// result holder keeps neither: this covers both a marker removed before
/// completion and a watcher whose tag the entity never carried.
pub proof fn lemma_unclaimed_tag_untouched_forever(
    m: EntityModel,
    tags: Seq<u64>,
    tag: u64,
    n: nat,
)
    requires
        !m.pending.contains(tag),
        !m.results.contains_key(tag),
    ensures
        !tick_model_n(m, tags, n).pending.contains(tag),
        !tick_model_n(m, tags, n).results.contains_key(tag),
    decreases n,
{
    if n > 0 {
        lemma_unclaimed_tag_untouched(m, tags, tag);
        lemma_unclaimed_tag_untouched_forever(tick_model(m, tags), tags, tag, (n - 1) as nat);
    }
}

/// Round trip through finalize: when the fresh success payload's text is a
/// valid encoding of `v`, the holder installed by that tick's watcher
/// decodes back to exactly `v`.
pub proof fn lemma_round_trip_through_finalize<T: JsonDecode>(
    m: EntityModel,
    tags: Seq<u64>,
    tag: u64,
    body: RawResponse,
    text: String,
    v: T,
)
    requires
        tags.contains(tag),
        m.pending.contains(tag),
        m.success == Carrier::<RawResponse>::Fresh(body),
        (m.failure is Absent),
        body.text == Some(text),
        T::spec_decode(text@) == Some(v),
    ensures
        tick_model(m, tags).results.contains_key(tag),
        spec_parse::<T>(tick_model(m, tags).results[tag]) == Some(v),
{
    lemma_success_finalized_in_one_tick(m, tags, tag, body);
    crate::response::lemma_parse_round_trip::<T>(body, text, v);
}

} // verus!
