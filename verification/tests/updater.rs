use std::cell::RefCell;
use std::rc::Rc;

use dino_park_evo::groups::Signer;
use dino_park_evo::queue::QUEUE_BOUND;
use dino_park_evo::queue::UpdateQueue;
use dino_park_evo::schema::GroupAttribute;
use dino_park_evo::schema::Profile;
use dino_park_evo::schema::SignError;
use dino_park_evo::schema::StoreError;
use dino_park_evo::updater::GetBy;
use dino_park_evo::updater::GroupUpdate;
use dino_park_evo::updater::InternalUpdater;
use dino_park_evo::updater::LoggedStore;
use dino_park_evo::updater::ProfileStoreClient;
use dino_park_evo::updater::UpdateMessage;
use dino_park_evo::updater::Updater;
use dino_park_evo::updater::UpdaterClient;
use dino_park_evo::updater::process_queue;
use dino_park_evo::updater::update;
use dino_park_evo::updater::update_batch;

struct FakeSigner {}

impl Signer for FakeSigner {
    fn sign_attribute(&self, attr: &mut GroupAttribute) -> Result<(), SignError> {
        attr.signature.value = String::from("fake-signature");
        Ok(())
    }
}

struct RefusingSigner {}

impl Signer for RefusingSigner {
    fn sign_attribute(&self, _attr: &mut GroupAttribute) -> Result<(), SignError> {
        Err(SignError {
            message: String::from("key unavailable"),
        })
    }
}

/// A store fake that records every call; the test keeps clones of the shared
/// logs so it can inspect them after the worker consumed the fake.
#[derive(Clone, Default)]
struct FakeStore {
    fetches: Rc<RefCell<Vec<String>>>,
    publishes: Rc<RefCell<Vec<(String, Profile)>>>,
    fail_fetch_for: Option<String>,
    fail_publish_for: Option<String>,
}

impl ProfileStoreClient for FakeStore {
    fn get_user_by(
        &mut self,
        user_id: &String,
        _by: &GetBy,
        _filter: Option<&String>,
    ) -> Result<Profile, StoreError> {
        self.fetches.borrow_mut().push(user_id.clone());
        if self.fail_fetch_for.as_ref() == Some(user_id) {
            return Err(StoreError {
                message: String::from("fetch failed"),
            });
        }
        let mut profile = Profile::default();
        profile.user_id = user_id.clone();
        profile.active = true;
        Ok(profile)
    }

    fn update_user(&mut self, user_id: &String, profile: Profile) -> Result<(), StoreError> {
        self.publishes.borrow_mut().push((user_id.clone(), profile));
        if self.fail_publish_for.as_ref() == Some(user_id) {
            return Err(StoreError {
                message: String::from("publish failed"),
            });
        }
        Ok(())
    }
}

fn single(user_id: &str, groups: &[&str]) -> UpdateMessage {
    UpdateMessage::Update(GroupUpdate {
        user_id: String::from(user_id),
        groups: groups.iter().map(|g| String::from(*g)).collect(),
    })
}

#[test]
fn fifo_processing_order() {
    let store = FakeStore::default();
    let fetches = store.fetches.clone();
    let updater = InternalUpdater::new(store, FakeSigner {});
    let client = updater.client();
    client.update(single("u1", &["a"]));
    client.update(single("u2", &["b"]));
    client.update(single("u3", &["c"]));
    let mut updater = updater;
    let stopped = updater.run();
    assert!(!stopped);
    assert_eq!(
        *fetches.borrow(),
        vec![String::from("u1"), String::from("u2"), String::from("u3")]
    );
}

#[test]
fn stop_halts_intake() {
    let store = FakeStore::default();
    let fetches = store.fetches.clone();
    let publishes = store.publishes.clone();
    let updater = InternalUpdater::new(store, FakeSigner {});
    let client = updater.client();
    client.update(single("u1", &["a"]));
    client.stop();
    client.update(single("u2", &["b"]));
    let mut updater = updater;
    let stopped = updater.run();
    assert!(stopped);
    assert_eq!(*fetches.borrow(), vec![String::from("u1")]);
    assert_eq!(publishes.borrow().len(), 1);
}

#[test]
fn bulk_processes_all_in_order() {
    let store = FakeStore::default();
    let fetches = store.fetches.clone();
    let publishes = store.publishes.clone();
    let updater = InternalUpdater::new(store, FakeSigner {});
    let client = updater.client();
    let batch: Vec<GroupUpdate> = (1..=5)
        .map(|i| GroupUpdate {
            user_id: format!("u{}", i),
            groups: vec![String::from("g")],
        })
        .collect();
    client.update(UpdateMessage::Bulk(batch));
    let mut updater = updater;
    updater.run();
    assert_eq!(fetches.borrow().len(), 5);
    assert_eq!(publishes.borrow().len(), 5);
    assert_eq!(
        *fetches.borrow(),
        (1..=5).map(|i| format!("u{}", i)).collect::<Vec<_>>()
    );
}

#[test]
fn queue_saturation_drops_excess() {
    let mut q = UpdateQueue::new(2);
    assert!(q.enqueue(single("u1", &[])));
    assert!(q.enqueue(single("u2", &[])));
    assert!(!q.enqueue(single("u3", &[])));
    assert_eq!(q.len(), 2);
}

#[test]
fn saturated_pipeline_survives() {
    let store = FakeStore::default();
    let fetches = store.fetches.clone();
    let updater = InternalUpdater::new(store, FakeSigner {});
    let client = updater.client();
    for i in 0..(QUEUE_BOUND + 5) {
        client.update(single(&format!("u{}", i), &["g"]));
    }
    let mut updater = updater;
    let stopped = updater.run();
    assert!(!stopped);
    assert_eq!(fetches.borrow().len(), QUEUE_BOUND);
}

#[test]
fn fetch_failure_aborts_request_only() {
    let mut store = FakeStore::default();
    store.fail_fetch_for = Some(String::from("u2"));
    let fetches = store.fetches.clone();
    let publishes = store.publishes.clone();
    let updater = InternalUpdater::new(store, FakeSigner {});
    let client = updater.client();
    client.update(single("u1", &["a"]));
    client.update(single("u2", &["b"]));
    client.update(single("u3", &["c"]));
    let mut updater = updater;
    updater.run();
    assert_eq!(fetches.borrow().len(), 3);
    let published: Vec<String> = publishes.borrow().iter().map(|e| e.0.clone()).collect();
    assert_eq!(published, vec![String::from("u1"), String::from("u3")]);
}

#[test]
fn publish_failure_does_not_halt_worker() {
    let mut store = FakeStore::default();
    store.fail_publish_for = Some(String::from("u1"));
    let fetches = store.fetches.clone();
    let updater = InternalUpdater::new(store, FakeSigner {});
    let client = updater.client();
    client.update(single("u1", &["a"]));
    client.update(single("u2", &["b"]));
    let mut updater = updater;
    let stopped = updater.run();
    assert!(!stopped);
    assert_eq!(fetches.borrow().len(), 2);
}

#[test]
fn signer_failure_publishes_nothing() {
    let store = FakeStore::default();
    let fetches = store.fetches.clone();
    let publishes = store.publishes.clone();
    let updater = InternalUpdater::new(store, RefusingSigner {});
    let client = updater.client();
    client.update(single("u1", &["a"]));
    let mut updater = updater;
    updater.run();
    assert_eq!(fetches.borrow().len(), 1);
    assert!(publishes.borrow().is_empty());
}

#[test]
fn update_reports_success_even_on_failure() {
    // The per-request flow always reports success at the batch level, so the
    // bulk short-circuit can never trigger; this pins that external contract.
    let mut store = FakeStore::default();
    store.fail_fetch_for = Some(String::from("u1"));
    let publishes = store.publishes.clone();
    let mut client = LoggedStore::new(store);
    let processed = update(
        &mut client,
        &FakeSigner {},
        GroupUpdate {
            user_id: String::from("u1"),
            groups: vec![],
        },
    );
    assert!(processed);
    assert!(publishes.borrow().is_empty());
}

#[test]
fn update_publishes_signed_merge() {
    let store = FakeStore::default();
    let publishes = store.publishes.clone();
    let mut client = LoggedStore::new(store);
    update(
        &mut client,
        &FakeSigner {},
        GroupUpdate {
            user_id: String::from("u9"),
            groups: vec![String::from("x"), String::from("x"), String::from("y")],
        },
    );
    let log = publishes.borrow();
    assert_eq!(log.len(), 1);
    let (target, profile) = &log[0];
    assert_eq!(target, &String::from("u9"));
    assert_eq!(profile.user_id, String::from("u9"));
    assert!(profile.active);
    assert_eq!(
        profile.mozilliansorg.values,
        Some(vec![String::from("x"), String::from("y")])
    );
    assert!(profile.mozilliansorg.metadata.verified);
    assert_eq!(
        profile.mozilliansorg.signature.value,
        String::from("fake-signature")
    );
}

#[test]
fn update_batch_returns_true() {
    let store = FakeStore::default();
    let fetches = store.fetches.clone();
    let mut client = LoggedStore::new(store);
    let batch: Vec<GroupUpdate> = (1..=3)
        .map(|i| GroupUpdate {
            user_id: format!("b{}", i),
            groups: vec![],
        })
        .collect();
    assert!(update_batch(&mut client, &FakeSigner {}, batch));
    assert_eq!(fetches.borrow().len(), 3);
}

#[test]
fn process_queue_stops_at_sentinel() {
    let mut q = UpdateQueue::new(10);
    q.enqueue(single("u1", &["a"]));
    q.enqueue(UpdateMessage::Stop);
    q.enqueue(single("u2", &["b"]));
    let store = FakeStore::default();
    let fetches = store.fetches.clone();
    let mut client = LoggedStore::new(store);
    let stopped = process_queue(&mut client, &FakeSigner {}, q);
    assert!(stopped);
    assert_eq!(*fetches.borrow(), vec![String::from("u1")]);
}

#[test]
fn dequeue_is_first_in_first_out() {
    let mut q = UpdateQueue::new(4);
    q.enqueue(single("u1", &[]));
    q.enqueue(single("u2", &[]));
    let first = q.dequeue();
    match first {
        Some(UpdateMessage::Update(u)) => assert_eq!(u.user_id, String::from("u1")),
        _ => panic!("expected the first enqueued message"),
    }
    assert_eq!(q.len(), 1);
    match q.dequeue() {
        Some(UpdateMessage::Update(u)) => assert_eq!(u.user_id, String::from("u2")),
        _ => panic!("expected the second enqueued message"),
    }
    assert!(q.dequeue().is_none());
}

#[test]
fn cloned_handle_feeds_same_queue() {
    let store = FakeStore::default();
    let fetches = store.fetches.clone();
    let updater = InternalUpdater::new(store, FakeSigner {});
    let client = updater.client();
    let second = client.clone();
    client.update(single("u1", &["a"]));
    second.update(single("u2", &["b"]));
    let mut updater = updater;
    updater.run();
    assert_eq!(
        *fetches.borrow(),
        vec![String::from("u1"), String::from("u2")]
    );
}
