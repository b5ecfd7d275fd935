//! The asynchronous update pipeline: a bounded queue of update messages feeds
//! a single sequential worker, which fetches the affected profile from the
//! store, runs the group mutation engine, and publishes the signed result.
//!
//! Producers hold cloneable [`InternalUpdaterClient`] handles and only ever
//! enqueue; the worker alone drains the queue. A `Stop` message halts intake:
//! nothing queued behind it is processed.

use vstd::prelude::*;
use vstd::rwlock::RwLock;
use vstd::rwlock::RwLockPredicate;

use std::sync::Arc;

use crate::groups::Signer;
use crate::groups::signed_merge;
use crate::groups::update_groups;
use crate::queue::QUEUE_BOUND;
use crate::queue::UpdateQueue;
use crate::schema::Profile;
use crate::schema::ProfileView;
use crate::schema::StoreError;

verus! {

/// A request to replace one user's group memberships with the given list.
#[derive(Clone, Debug)]
pub struct GroupUpdate {
    pub user_id: String,
    pub groups: Vec<String>,
}

/// Mathematical model of a group update request.
pub ghost struct GroupUpdateView {
    pub user_id: Seq<char>,
    pub groups: Seq<Seq<char>>,
}

impl View for GroupUpdate {
    type V = GroupUpdateView;

    open spec fn view(&self) -> GroupUpdateView {
        GroupUpdateView { user_id: self.user_id@, groups: self.groups.deep_view() }
    }
}

impl DeepView for GroupUpdate {
    type V = GroupUpdateView;

    open spec fn deep_view(&self) -> GroupUpdateView {
        self.view()
    }
}

/// A message on the work queue: one update, a batch processed strictly in
/// sequence, or the cooperative shutdown sentinel.
#[derive(Clone, Debug)]
pub enum UpdateMessage {
    Update(GroupUpdate),
    Bulk(Vec<GroupUpdate>),
    Stop,
}

/// Mathematical model of an update message.
pub ghost enum UpdateMessageView {
    Update(GroupUpdateView),
    Bulk(Seq<GroupUpdateView>),
    Stop,
}

impl View for UpdateMessage {
    type V = UpdateMessageView;

    open spec fn view(&self) -> UpdateMessageView {
        match self {
            UpdateMessage::Update(u) => UpdateMessageView::Update(u@),
            UpdateMessage::Bulk(us) => UpdateMessageView::Bulk(us.deep_view()),
            UpdateMessage::Stop => UpdateMessageView::Stop,
        }
    }
}

impl DeepView for UpdateMessage {
    type V = UpdateMessageView;

    open spec fn deep_view(&self) -> UpdateMessageView {
        self.view()
    }
}

/// The key a profile is looked up by in the store.
#[derive(Clone, Copy, Debug, PartialEq, Eq, Structural)]
pub enum GetBy {
    UserId,
    PrimaryEmail,
    PrimaryUsername,
    Uuid,
}

/// The user ids of a request sequence, in order.
pub open spec fn user_ids(rs: Seq<GroupUpdateView>) -> Seq<Seq<char>> {
    rs.map_values(|r: GroupUpdateView| r.user_id)
}

/// The profile store capability: fetch a profile, publish a partial update.
/// Implementations live outside the verified library (a network client in
/// production, a recording fake in tests) and nothing is assumed of them;
/// the worker talks to the store only through [`LoggedStore`], which keeps a
/// verified record of every call it forwards.
pub trait ProfileStoreClient {
    /// Fetches the profile stored for `user_id`. Success is the store's
    /// decision.
    fn get_user_by(&mut self, user_id: &String, by: &GetBy, filter: Option<&String>) -> Result<
        Profile,
        StoreError,
    >;

    /// Publishes `profile` as a partial update of `user_id`'s record. Success
    /// is the store's decision.
    fn update_user(&mut self, user_id: &String, profile: Profile) -> Result<(), StoreError>;
}

/// A store client together with a ghost record of the calls made through it:
/// `fetches` holds each fetch's user id and outcome (the returned profile
/// view, or nothing when the store refused), `publishes` each publish call
/// with the profile handed over. The logs are maintained here, in verified
/// code, so they hold of any [`ProfileStoreClient`] implementation.
pub struct LoggedStore<T: ProfileStoreClient> {
    inner: T,
    fetch_log: Ghost<Seq<(Seq<char>, Option<ProfileView>)>>,
    publish_log: Ghost<Seq<(Seq<char>, ProfileView)>>,
}

impl<T: ProfileStoreClient> LoggedStore<T> {
    /// The wrapped store client.
    pub closed spec fn backend(&self) -> T {
        self.inner
    }

    /// Every fetch call made so far, oldest first: the user id asked for and
    /// the outcome the store returned.
    pub closed spec fn fetches(&self) -> Seq<(Seq<char>, Option<ProfileView>)> {
        self.fetch_log@
    }

    /// Every publish call made so far: target user id and published profile.
    pub closed spec fn publishes(&self) -> Seq<(Seq<char>, ProfileView)> {
        self.publish_log@
    }

    pub fn new(inner: T) -> (r: Self)
        ensures
            r.backend() == inner,
            r.fetches() == Seq::<(Seq<char>, Option<ProfileView>)>::empty(),
            r.publishes() == Seq::<(Seq<char>, ProfileView)>::empty(),
    {
        LoggedStore { inner, fetch_log: Ghost(Seq::empty()), publish_log: Ghost(Seq::empty()) }
    }

    /// Forwards a fetch and records its outcome.
    pub fn get_user_by(&mut self, user_id: &String, by: &GetBy, filter: Option<&String>) -> (r:
        Result<Profile, StoreError>)
        ensures
            r matches Ok(p) ==> final(self).fetches() == old(self).fetches().push(
                (user_id@, Some(p@)),
            ),
            r is Err ==> final(self).fetches() == old(self).fetches().push(
                (user_id@, None::<ProfileView>),
            ),
            final(self).publishes() == old(self).publishes(),
    {
        let r = self.inner.get_user_by(user_id, by, filter);
        match &r {
            Result::Ok(p) => {
                self.fetch_log = Ghost(self.fetch_log@.push((user_id@, Some(p@))));
            },
            Result::Err(_) => {
                self.fetch_log = Ghost(self.fetch_log@.push((user_id@, None)));
            },
        }
        r
    }

    /// Forwards a publish and records it.
    pub fn update_user(&mut self, user_id: &String, profile: Profile) -> (r: Result<
        (),
        StoreError,
    >)
        ensures
            final(self).fetches() == old(self).fetches(),
            final(self).publishes() == old(self).publishes().push((user_id@, profile@)),
    {
        let ghost pv = profile@;
        let r = self.inner.update_user(user_id, profile);
        self.publish_log = Ghost(self.publish_log@.push((user_id@, pv)));
        r
    }
}

/// The user ids of a fetch log, in call order.
pub open spec fn fetch_ids(log: Seq<(Seq<char>, Option<ProfileView>)>) -> Seq<Seq<char>> {
    log.map_values(|e: (Seq<char>, Option<ProfileView>)| e.0)
}

/// The publish-log entry `e` is the signed merge of the request `u` into the
/// fetched profile `p`: it targets `u`'s user id, and its profile is the
/// mutation engine's output for `u`'s group list on `p`, at some timestamp,
/// with some signature.
pub open spec fn publishes_merge_of(
    e: (Seq<char>, ProfileView),
    p: ProfileView,
    u: GroupUpdateView,
) -> bool {
    e.0 == u.user_id && exists|now: Seq<char>, sig: Seq<char>|
        now.len() > 0 && sig.len() > 0 && e.1 == #[trigger] signed_merge(p, u.groups, now, sig)
}

/// The publish-log entry `e` is a signed merge of the request `u` into some
/// fetched profile.
pub open spec fn publishes_update_for(e: (Seq<char>, ProfileView), u: GroupUpdateView) -> bool {
    exists|p: ProfileView| #[trigger] publishes_merge_of(e, p, u)
}

/// The publish-log entry `e` is a signed merge of one of the requests in
/// `us`.
pub open spec fn publishes_some_update_of(
    e: (Seq<char>, ProfileView),
    us: Seq<GroupUpdateView>,
) -> bool {
    exists|j: int| 0 <= j < us.len() && publishes_update_for(e, #[trigger] us[j])
}

/// The publish-log entry `e` is a signed merge of some request: nothing
/// reaches the store that did not come out of the mutation engine.
pub open spec fn published_entry_ok(e: (Seq<char>, ProfileView)) -> bool {
    exists|p: ProfileView, g: Seq<Seq<char>>, now: Seq<char>, sig: Seq<char>|
        now.len() > 0 && sig.len() > 0 && e.1 == #[trigger] signed_merge(p, g, now, sig)
}

proof fn lemma_update_for_ok(e: (Seq<char>, ProfileView), u: GroupUpdateView)
    requires
        publishes_update_for(e, u),
    ensures
        published_entry_ok(e),
{
    let p = choose|p: ProfileView| #[trigger] publishes_merge_of(e, p, u);
    let (now, sig) = choose|now: Seq<char>, sig: Seq<char>|
        now.len() > 0 && sig.len() > 0 && e.1 == #[trigger] signed_merge(p, u.groups, now, sig);
    assert(e.1 == signed_merge(p, u.groups, now, sig));
}

/// Always-verified at the pipeline boundary: every profile the worker hands to
/// the store's publish call came out of the mutation engine, so its group
/// attribute has `verified` forced, a present `values` mapping, this
/// pipeline's publisher authority, and a non-empty signature and timestamp.
pub proof fn lemma_published_entry_verified(e: (Seq<char>, ProfileView))
    requires
        published_entry_ok(e),
    ensures
        e.1.mozilliansorg.verified,
        e.1.mozilliansorg.signature.len() > 0,
        e.1.mozilliansorg.values is Some,
        e.1.mozilliansorg.publisher == crate::schema::PublisherAuthority::Mozilliansorg,
        e.1.mozilliansorg.last_modified.len() > 0,
{
    let (p, g, now, sig) = choose|p: ProfileView, g: Seq<Seq<char>>, now: Seq<char>, sig: Seq<char>|
        now.len() > 0 && sig.len() > 0 && e.1 == #[trigger] signed_merge(p, g, now, sig);
    assert(e.1 == signed_merge(p, g, now, sig));
}

proof fn lemma_prefix_refl<A>(s: Seq<A>)
    ensures
        s.is_prefix_of(s),
{
    assert(s.subrange(0, s.len() as int) =~= s);
}

proof fn lemma_prefix_trans<A>(a: Seq<A>, b: Seq<A>, c: Seq<A>)
    requires
        a.is_prefix_of(b),
        b.is_prefix_of(c),
    ensures
        a.is_prefix_of(c),
{
    assert(a =~= c.subrange(0, a.len() as int));
}

proof fn lemma_log_extends<A>(a: Seq<A>, b: Seq<A>, c: Seq<A>, pred: spec_fn(A) -> bool)
    requires
        a.is_prefix_of(b),
        b.is_prefix_of(c),
        forall|i: int| a.len() <= i < b.len() ==> pred(#[trigger] b[i]),
        forall|i: int| b.len() <= i < c.len() ==> pred(#[trigger] c[i]),
    ensures
        a.is_prefix_of(c),
        forall|i: int| a.len() <= i < c.len() ==> pred(#[trigger] c[i]),
{
    assert(a =~= c.subrange(0, a.len() as int));
    assert forall|i: int| a.len() <= i < c.len() implies pred(#[trigger] c[i]) by {
        if i < b.len() {
            assert(b[i] == c[i]);
        }
    }
}

proof fn lemma_some_update_monotone(
    e: (Seq<char>, ProfileView),
    us1: Seq<GroupUpdateView>,
    us2: Seq<GroupUpdateView>,
)
    requires
        publishes_some_update_of(e, us1),
        us1.is_prefix_of(us2),
    ensures
        publishes_some_update_of(e, us2),
{
    let j = choose|j: int| 0 <= j < us1.len() && publishes_update_for(e, #[trigger] us1[j]);
    assert(us2[j] == us1[j]);
}

proof fn lemma_some_update_shift(
    e: (Seq<char>, ProfileView),
    a: Seq<GroupUpdateView>,
    b: Seq<GroupUpdateView>,
)
    requires
        publishes_some_update_of(e, b),
    ensures
        publishes_some_update_of(e, a + b),
{
    let j = choose|j: int| 0 <= j < b.len() && publishes_update_for(e, #[trigger] b[j]);
    assert((a + b)[a.len() + j] == b[j]);
}

/// The per-request flow: fetch the profile, merge and sign the new group
/// list, publish the result. A failure at any stage aborts this request
/// only, so the flow always reports success at the batch level; the worker
/// never halts on it. Exactly one fetch is attempted; when it fails nothing
/// is published for this request, and anything published is the signed merge
/// of this request into the very profile that fetch returned.
pub fn update<T: ProfileStoreClient, S: Signer>(
    cis_client: &mut LoggedStore<T>,
    signer: &S,
    group_update: GroupUpdate,
) -> (r: bool)
    ensures
        r,
        final(cis_client).fetches().len() == old(cis_client).fetches().len() + 1,
        final(cis_client).fetches().drop_last() == old(cis_client).fetches(),
        final(cis_client).fetches().last().0 == group_update.user_id@,
        old(cis_client).publishes().is_prefix_of(final(cis_client).publishes()),
        final(cis_client).publishes().len() <= old(cis_client).publishes().len() + 1,
        final(cis_client).fetches().last().1 is None ==> final(cis_client).publishes() == old(
            cis_client,
        ).publishes(),
        forall|i: int|
            old(cis_client).publishes().len() <= i < final(cis_client).publishes().len() ==> (
            final(cis_client).fetches().last().1 matches Some(fp) && publishes_merge_of(
                #[trigger] final(cis_client).publishes()[i],
                fp,
                group_update@,
            )),
{
    let ghost gu = group_update@;
    let GroupUpdate { user_id, groups } = group_update;
    match cis_client.get_user_by(&user_id, &GetBy::UserId, Option::None) {
        Result::Ok(profile) => {
            proof {
                assert(cis_client.fetches().drop_last() =~= old(cis_client).fetches());
            }
            match update_groups(profile, groups, signer) {
                Result::Ok(updated) => {
                    let ghost updated_view = updated@;
                    let ghost fetched_view = profile@;
                    let _ = cis_client.update_user(&user_id, updated);
                    proof {
                        let (noww, sigw) = choose|now: Seq<char>, sig: Seq<char>|
                            now.len() > 0 && sig.len() > 0 && updated_view == #[trigger] signed_merge(
                                fetched_view,
                                gu.groups,
                                now,
                                sig,
                            );
                        let e = (user_id@, updated_view);
                        assert(e.1 == signed_merge(fetched_view, gu.groups, noww, sigw));
                        assert(publishes_merge_of(e, fetched_view, gu));
                        assert(cis_client.fetches().last().1 == Some(fetched_view));
                        assert(old(cis_client).publishes().is_prefix_of(
                            cis_client.publishes(),
                        )) by {
                            assert(cis_client.publishes().subrange(
                                0,
                                old(cis_client).publishes().len() as int,
                            ) =~= old(cis_client).publishes());
                        }
                    }
                },
                Result::Err(_) => {
                    proof {
                        lemma_prefix_refl(cis_client.publishes());
                    }
                },
            }
        },
        Result::Err(_) => {
            proof {
                assert(cis_client.fetches().drop_last() =~= old(cis_client).fetches());
                lemma_prefix_refl(cis_client.publishes());
            }
        },
    }
    true
}

/// Bulk update: the batch is processed strictly in the given order, never
/// interleaved. The per-request flow always reports success at the batch
/// level, so a failed request can never cut a batch short: the batch always
/// runs to completion, and per-request failures surface only through the
/// absent publish calls.
pub fn update_batch<T: ProfileStoreClient, S: Signer>(
    cis_client: &mut LoggedStore<T>,
    signer: &S,
    updates: Vec<GroupUpdate>,
) -> (r: bool)
    ensures
        r,
        fetch_ids(final(cis_client).fetches()) == fetch_ids(old(cis_client).fetches()) + user_ids(
            updates.deep_view(),
        ),
        old(cis_client).fetches().is_prefix_of(final(cis_client).fetches()),
        old(cis_client).publishes().is_prefix_of(final(cis_client).publishes()),
        final(cis_client).publishes().len() <= old(cis_client).publishes().len()
            + updates.deep_view().len(),
        forall|i: int|
            old(cis_client).publishes().len() <= i < final(cis_client).publishes().len()
                ==> publishes_some_update_of(
                #[trigger] final(cis_client).publishes()[i],
                updates.deep_view(),
            ),
{
    let ghost us = updates.deep_view();
    let mut remaining = updates;
    let ghost mut k: int = 0;
    proof {
        assert(remaining.deep_view() =~= us.skip(0));
        assert(user_ids(us.take(0)) =~= Seq::<Seq<char>>::empty());
        assert(fetch_ids(cis_client.fetches()) =~= fetch_ids(old(cis_client).fetches())
            + user_ids(us.take(0)));
        lemma_prefix_refl(cis_client.fetches());
        lemma_prefix_refl(cis_client.publishes());
    }
    while remaining.len() > 0
        invariant
            0 <= k <= us.len(),
            k == us.len() - remaining.deep_view().len(),
            remaining.deep_view() == us.skip(k),
            fetch_ids(cis_client.fetches()) == fetch_ids(old(cis_client).fetches()) + user_ids(
                us.take(k),
            ),
            old(cis_client).fetches().is_prefix_of(cis_client.fetches()),
            old(cis_client).publishes().is_prefix_of(cis_client.publishes()),
            cis_client.publishes().len() <= old(cis_client).publishes().len() + k,
            forall|i: int|
                old(cis_client).publishes().len() <= i < cis_client.publishes().len()
                    ==> publishes_some_update_of(#[trigger] cis_client.publishes()[i], us),
        decreases remaining.len(),
    {
        let ghost fetches_before = cis_client.fetches();
        let ghost pubs_before = cis_client.publishes();
        let ghost rem_before = remaining.deep_view();
        let u = remaining.remove(0);
        proof {
            assert(u@ == rem_before[0]);
            assert(rem_before[0] == us[k]);
            assert(remaining.deep_view() =~= rem_before.drop_first());
            assert(rem_before.drop_first() =~= us.skip(k + 1));
        }
        let _ = update(cis_client, signer, u);
        proof {
            assert(fetch_ids(cis_client.fetches()) =~= fetch_ids(fetches_before).push(
                us[k].user_id,
            ));
            assert(user_ids(us.take(k + 1)) =~= user_ids(us.take(k)).push(us[k].user_id));
            assert(fetch_ids(old(cis_client).fetches()) + user_ids(us.take(k)).push(
                us[k].user_id,
            ) =~= (fetch_ids(old(cis_client).fetches()) + user_ids(us.take(k))).push(
                us[k].user_id,
            ));
            assert(fetches_before.is_prefix_of(cis_client.fetches())) by {
                assert(cis_client.fetches().subrange(0, fetches_before.len() as int)
                    =~= fetches_before);
            }
            lemma_prefix_trans(old(cis_client).fetches(), fetches_before, cis_client.fetches());
            let pred = |e: (Seq<char>, ProfileView)| publishes_some_update_of(e, us);
            assert forall|i: int|
                pubs_before.len() <= i < cis_client.publishes().len() implies pred(
                #[trigger] cis_client.publishes()[i],
            ) by {
                let fo = cis_client.fetches().last().1;
                assert(fo matches Some(fp) && publishes_merge_of(
                    cis_client.publishes()[i],
                    fp,
                    us[k],
                ));
                assert(publishes_update_for(cis_client.publishes()[i], us[k]));
                assert(0 <= k < us.len());
            }
            lemma_log_extends(
                old(cis_client).publishes(),
                pubs_before,
                cis_client.publishes(),
                pred,
            );
            k = k + 1;
        }
    }
    proof {
        assert(us.take(us.len() as int) =~= us);
    }
    true
}

/// The requests one message carries: one, a batch, or none for `Stop`.
pub open spec fn requests_of(m: UpdateMessageView) -> Seq<GroupUpdateView> {
    match m {
        UpdateMessageView::Update(u) => seq![u],
        UpdateMessageView::Bulk(us) => us,
        UpdateMessageView::Stop => Seq::empty(),
    }
}

/// The requests a sequential sweep over `msgs` performs, in order: everything
/// before the first `Stop`, with each batch inlined in its given order.
pub open spec fn processed_requests(msgs: Seq<UpdateMessageView>) -> Seq<GroupUpdateView>
    decreases msgs.len(),
{
    if msgs.len() == 0 {
        Seq::empty()
    } else if msgs[0] is Stop {
        Seq::empty()
    } else {
        requests_of(msgs[0]) + processed_requests(msgs.drop_first())
    }
}

/// Whether `msgs` holds a `Stop` sentinel.
pub open spec fn saw_stop(msgs: Seq<UpdateMessageView>) -> bool
    decreases msgs.len(),
{
    msgs.len() > 0 && (msgs[0] is Stop || saw_stop(msgs.drop_first()))
}

/// One step of the worker's state machine: processes a single dequeued
/// message and says whether the worker should keep draining. `Stop` halts the
/// worker and touches nothing; the two update forms always report success and
/// never halt it.
pub fn process_message<T: ProfileStoreClient, S: Signer>(
    cis_client: &mut LoggedStore<T>,
    signer: &S,
    message: UpdateMessage,
) -> (cont: bool)
    ensures
        cont == !(message@ is Stop),
        message@ is Stop ==> final(cis_client).fetches() == old(cis_client).fetches()
            && final(cis_client).publishes() == old(cis_client).publishes(),
        message@ matches UpdateMessageView::Update(u) ==> fetch_ids(final(cis_client).fetches())
            == fetch_ids(old(cis_client).fetches()).push(u.user_id),
        message@ matches UpdateMessageView::Bulk(us) ==> fetch_ids(final(cis_client).fetches())
            == fetch_ids(old(cis_client).fetches()) + user_ids(us),
        old(cis_client).fetches().is_prefix_of(final(cis_client).fetches()),
        old(cis_client).publishes().is_prefix_of(final(cis_client).publishes()),
        forall|i: int|
            old(cis_client).publishes().len() <= i < final(cis_client).publishes().len()
                ==> publishes_some_update_of(
                #[trigger] final(cis_client).publishes()[i],
                requests_of(message@),
            ),
{
    match message {
        UpdateMessage::Update(u) => {
            let ghost uv = u@;
            let ghost msg_view = message@;
            let _ = update(cis_client, signer, u);
            proof {
                assert(fetch_ids(cis_client.fetches()) =~= fetch_ids(
                    old(cis_client).fetches(),
                ).push(uv.user_id));
                assert(old(cis_client).fetches().is_prefix_of(cis_client.fetches())) by {
                    assert(cis_client.fetches().subrange(
                        0,
                        old(cis_client).fetches().len() as int,
                    ) =~= old(cis_client).fetches());
                }
                assert forall|i: int|
                    old(cis_client).publishes().len() <= i < cis_client.publishes().len() implies
                    publishes_some_update_of(
                    #[trigger] cis_client.publishes()[i],
                    requests_of(msg_view),
                ) by {
                    let fo = cis_client.fetches().last().1;
                    assert(fo matches Some(fp) && publishes_merge_of(
                        cis_client.publishes()[i],
                        fp,
                        uv,
                    ));
                    assert(publishes_update_for(cis_client.publishes()[i], uv));
                    assert(requests_of(msg_view)[0] == uv);
                }
            }
            true
        },
        UpdateMessage::Bulk(us) => {
            let _ = update_batch(cis_client, signer, us);
            true
        },
        UpdateMessage::Stop => {
            proof {
                lemma_prefix_refl(cis_client.fetches());
                lemma_prefix_refl(cis_client.publishes());
            }
            false
        },
    }
}

/// Drains one batch of queued messages in first-in-first-out order. The
/// fetches performed are exactly for the requests before the first `Stop`, in
/// enqueue order, with batches inlined in sequence; nothing behind a `Stop`
/// is touched, everything published is a signed merge of one of those
/// requests, and the result says whether `Stop` was seen.
pub fn process_queue<T: ProfileStoreClient, S: Signer>(
    cis_client: &mut LoggedStore<T>,
    signer: &S,
    queue: UpdateQueue,
) -> (stopped: bool)
    ensures
        stopped == saw_stop(queue@),
        fetch_ids(final(cis_client).fetches()) == fetch_ids(old(cis_client).fetches()) + user_ids(
            processed_requests(queue@),
        ),
        old(cis_client).fetches().is_prefix_of(final(cis_client).fetches()),
        old(cis_client).publishes().is_prefix_of(final(cis_client).publishes()),
        forall|i: int|
            old(cis_client).publishes().len() <= i < final(cis_client).publishes().len()
                ==> publishes_some_update_of(
                #[trigger] final(cis_client).publishes()[i],
                processed_requests(queue@),
            ),
{
    let ghost all = queue@;
    let mut q = queue;
    let ghost mut processed: Seq<GroupUpdateView> = Seq::empty();
    proof {
        assert(user_ids(processed) =~= Seq::<Seq<char>>::empty());
        assert(fetch_ids(cis_client.fetches()) =~= fetch_ids(old(cis_client).fetches())
            + user_ids(processed));
        assert(processed + processed_requests(q@) =~= processed_requests(all));
        lemma_prefix_refl(cis_client.fetches());
        lemma_prefix_refl(cis_client.publishes());
    }
    loop
        invariant
            all == queue@,
            fetch_ids(cis_client.fetches()) == fetch_ids(old(cis_client).fetches()) + user_ids(
                processed,
            ),
            old(cis_client).fetches().is_prefix_of(cis_client.fetches()),
            processed + processed_requests(q@) == processed_requests(all),
            saw_stop(all) == saw_stop(q@),
            old(cis_client).publishes().is_prefix_of(cis_client.publishes()),
            forall|i: int|
                old(cis_client).publishes().len() <= i < cis_client.publishes().len()
                    ==> publishes_some_update_of(#[trigger] cis_client.publishes()[i], processed),
        decreases q@.len(),
    {
        let ghost q_before = q@;
        let msg_opt = q.dequeue();
        match msg_opt {
            Option::None => {
                proof {
                    assert(processed =~= processed_requests(all));
                }
                return false;
            },
            Option::Some(msg) => {
                let ghost msg_view = msg@;
                let ghost fetches_mid = cis_client.fetches();
                let ghost pubs_mid = cis_client.publishes();
                let cont = process_message(cis_client, signer, msg);
                proof {
                    assert(q_before[0] == msg_view);
                    assert(q@ == q_before.drop_first());
                    let processed_old = processed;
                    let reqs = requests_of(msg_view);
                    match msg_view {
                        UpdateMessageView::Update(u) => {
                            assert(processed_requests(q_before) == reqs + processed_requests(q@));
                            assert(user_ids(processed_old + reqs) =~= user_ids(processed_old).push(
                                u.user_id,
                            ));
                            assert((fetch_ids(old(cis_client).fetches()) + user_ids(
                                processed_old,
                            )).push(u.user_id) =~= fetch_ids(old(cis_client).fetches())
                                + user_ids(processed_old).push(u.user_id));
                        },
                        UpdateMessageView::Bulk(us) => {
                            assert(processed_requests(q_before) == reqs + processed_requests(q@));
                            assert(user_ids(processed_old + reqs) =~= user_ids(processed_old)
                                + user_ids(us));
                            assert((fetch_ids(old(cis_client).fetches()) + user_ids(
                                processed_old,
                            )) + user_ids(us) =~= fetch_ids(old(cis_client).fetches()) + (user_ids(
                                processed_old,
                            ) + user_ids(us)));
                        },
                        UpdateMessageView::Stop => {
                            assert(processed_requests(q_before) =~= Seq::<GroupUpdateView>::empty());
                            assert(processed_old + reqs =~= processed_old);
                            assert(processed_old =~= processed_requests(all));
                        },
                    }
                    processed = processed_old + reqs;
                    assert(user_ids(processed_old + reqs) =~= user_ids(processed_old) + user_ids(
                        reqs,
                    ));
                    assert((processed_old + reqs) + processed_requests(q@) =~= processed_old + (
                    reqs + processed_requests(q@)));
                    lemma_prefix_trans(
                        old(cis_client).fetches(),
                        fetches_mid,
                        cis_client.fetches(),
                    );
                    assert(processed_old.is_prefix_of(processed)) by {
                        assert(processed_old =~= processed.subrange(
                            0,
                            processed_old.len() as int,
                        ));
                    }
                    assert forall|i: int|
                        old(cis_client).publishes().len() <= i < pubs_mid.len() implies
                        publishes_some_update_of(#[trigger] pubs_mid[i], processed) by {
                        lemma_some_update_monotone(pubs_mid[i], processed_old, processed);
                    }
                    assert forall|i: int|
                        pubs_mid.len() <= i < cis_client.publishes().len() implies
                        publishes_some_update_of(
                        #[trigger] cis_client.publishes()[i],
                        processed,
                    ) by {
                        lemma_some_update_shift(cis_client.publishes()[i], processed_old, reqs);
                    }
                    lemma_log_extends(
                        old(cis_client).publishes(),
                        pubs_mid,
                        cis_client.publishes(),
                        |e: (Seq<char>, ProfileView)| publishes_some_update_of(e, processed),
                    );
                }
                if !cont {
                    return true;
                }
            },
        }
    }
}

/// The producer-side handle contract: enqueue an update message, or request
/// cooperative shutdown. Both are best-effort and never block the caller.
pub trait UpdaterClient {
    fn update(&self, message: UpdateMessage);

    fn stop(&self);
}

/// Something that hands out producer handles onto its work queue.
pub trait Updater<U: UpdaterClient> {
    fn client(&self) -> U;
}

/// The lock invariant of the shared queue: never more messages waiting than
/// the admission bound, which is fixed at [`QUEUE_BOUND`].
pub struct QueuePred;

impl RwLockPredicate<UpdateQueue> for QueuePred {
    open spec fn inv(self, q: UpdateQueue) -> bool {
        q@.len() <= q.capacity() && q.capacity() == QUEUE_BOUND as nat
    }
}

/// Relies on std's `Arc::clone`: the clone shares the same allocation as the
/// original, so it holds the very same lock.
#[verifier::external_body]
fn clone_queue(q: &Arc<RwLock<UpdateQueue, QueuePred>>) -> (r: Arc<RwLock<UpdateQueue, QueuePred>>)
    ensures
        r == *q,
{
    Arc::clone(q)
}

/// A cloneable, thread-safe producer handle: all clones enqueue into the same
/// underlying bounded queue, guarded by a verified reader-writer lock.
pub struct InternalUpdaterClient {
    sender: Arc<RwLock<UpdateQueue, QueuePred>>,
}

impl InternalUpdaterClient {
    /// The shared lock this handle enqueues into.
    pub closed spec fn queue_of(&self) -> Arc<RwLock<UpdateQueue, QueuePred>> {
        self.sender
    }
}

impl Clone for InternalUpdaterClient {
    /// The clone feeds the same underlying queue as the original.
    fn clone(&self) -> (r: Self)
        ensures
            r.queue_of() == self.queue_of(),
    {
        InternalUpdaterClient { sender: clone_queue(&self.sender) }
    }
}

impl UpdaterClient for InternalUpdaterClient {
    /// Best-effort admission: when the queue is full the message is dropped,
    /// and the producer is never blocked.
    fn update(&self, message: UpdateMessage) {
        let (mut q, handle) = self.sender.acquire_write();
        let _accepted = q.enqueue(message);
        handle.release_write(q);
    }

    /// Requests cooperative shutdown, subject to the same drop policy.
    fn stop(&self) {
        let (mut q, handle) = self.sender.acquire_write();
        let _accepted = q.enqueue(UpdateMessage::Stop);
        handle.release_write(q);
    }
}

/// The update worker: owns the consuming end of the shared bounded queue and
/// the store client and signer capabilities.
pub struct InternalUpdater<T: ProfileStoreClient, S: Signer> {
    cis_client: LoggedStore<T>,
    signer: S,
    queue: Arc<RwLock<UpdateQueue, QueuePred>>,
}

impl<T: ProfileStoreClient, S: Signer> InternalUpdater<T, S> {
    /// The store client this worker talks through, with its verified call
    /// logs; what `run` promises is stated over this.
    pub closed spec fn store_client(&self) -> LoggedStore<T> {
        self.cis_client
    }

    /// The shared lock the worker drains; every handle from `client` feeds
    /// it.
    pub closed spec fn queue_of(&self) -> Arc<RwLock<UpdateQueue, QueuePred>> {
        self.queue
    }

    pub fn new(cis_client: T, signer: S) -> (r: Self)
        ensures
            r.store_client().backend() == cis_client,
            r.store_client().fetches() == Seq::<(Seq<char>, Option<ProfileView>)>::empty(),
            r.store_client().publishes() == Seq::<(Seq<char>, ProfileView)>::empty(),
    {
        InternalUpdater {
            cis_client: LoggedStore::new(cis_client),
            signer,
            queue: Arc::new(RwLock::new(UpdateQueue::new(QUEUE_BOUND), Ghost(QueuePred))),
        }
    }

    /// One sweep of the worker's drain loop: takes everything currently
    /// queued (releasing the lock before any store call, so producers are
    /// never blocked on network work) and processes it in first-in-first-out
    /// order, one message at a time. A `Stop` sentinel halts the sweep and
    /// returns true; nothing queued behind it is processed. An exhausted
    /// queue ends the sweep gracefully with false, and the caller decides
    /// whether to sweep again or treat the producers as gone.
    pub fn run(&mut self) -> (stopped: bool)
        ensures
            old(self).store_client().fetches().is_prefix_of(final(self).store_client().fetches()),
            old(self).store_client().publishes().is_prefix_of(
                final(self).store_client().publishes(),
            ),
            forall|i: int|
                old(self).store_client().publishes().len() <= i
                    < final(self).store_client().publishes().len() ==> published_entry_ok(
                    #[trigger] final(self).store_client().publishes()[i],
                ),
            exists|msgs: Seq<UpdateMessageView>|
                fetch_ids(final(self).store_client().fetches()) == fetch_ids(
                    old(self).store_client().fetches(),
                ) + user_ids(#[trigger] processed_requests(msgs)) && stopped == saw_stop(msgs),
            final(self).queue_of() == old(self).queue_of(),
    {
        let (q, handle) = self.queue.acquire_write();
        handle.release_write(UpdateQueue::new(QUEUE_BOUND));
        let ghost taken = q@;
        let stopped = process_queue(&mut self.cis_client, &self.signer, q);
        proof {
            assert(fetch_ids(self.cis_client.fetches()) == fetch_ids(
                old(self).cis_client.fetches(),
            ) + user_ids(processed_requests(taken)));
            assert forall|i: int|
                old(self).cis_client.publishes().len() <= i
                    < self.cis_client.publishes().len() implies published_entry_ok(
                #[trigger] self.cis_client.publishes()[i],
            ) by {
                let e = self.cis_client.publishes()[i];
                let j = choose|j: int|
                    0 <= j < processed_requests(taken).len() && publishes_update_for(
                        e,
                        #[trigger] processed_requests(taken)[j],
                    );
                lemma_update_for_ok(e, processed_requests(taken)[j]);
            }
        }
        stopped
    }
}

impl<T: ProfileStoreClient, S: Signer> Updater<InternalUpdaterClient> for InternalUpdater<T, S> {
    /// Hands out a new producer handle that feeds this worker's own queue:
    /// the handle shares the worker's lock, so anything it (or a clone of it)
    /// enqueues is what `run` drains.
    fn client(&self) -> (r: InternalUpdaterClient)
        ensures
            r.queue_of() == self.queue_of(),
    {
        InternalUpdaterClient { sender: clone_queue(&self.queue) }
    }
}

} // verus!
