use dots_wallet::cache::ItemSetCache;
use dots_wallet::db::{FindOutcome, InsertOutcome, ReplaceOutcome};
use dots_wallet::handlers::{
    add_item_handler, create_wallet_handler, items_replaced, retrieve_item_handler, wallet_found,
    wallet_inserted, AddItemBody, CreateWalletBody, JsonResponse, Purpose, Response, Status, Step,
};
use dots_wallet::{ItemId, Wallet, WalletId};

/// A store in memory that answers as a store with a unique index on the
/// wallet identifier does.
struct Store {
    wallets: Vec<Wallet>,
}

impl Store {
    fn new() -> Self {
        Store { wallets: Vec::new() }
    }

    fn find(&self, wallet_id: WalletId) -> FindOutcome {
        match self.wallets.iter().find(|w| w.id == wallet_id) {
            Some(wallet) => FindOutcome::Found(wallet.clone()),
            None => FindOutcome::Missing,
        }
    }

    fn insert(&mut self, wallet_id: WalletId) -> InsertOutcome {
        if self.wallets.iter().any(|w| w.id == wallet_id) {
            return InsertOutcome::Duplicate;
        }
        self.wallets.push(Wallet::new(wallet_id));
        InsertOutcome::Inserted
    }

    fn replace(&mut self, wallet_id: WalletId, items: &[ItemId]) -> ReplaceOutcome {
        match self.wallets.iter_mut().find(|w| w.id == wallet_id) {
            Some(wallet) => {
                wallet.items = items.to_vec();
                ReplaceOutcome::Replaced
            }
            None => ReplaceOutcome::Missing,
        }
    }

    fn items(&self, wallet_id: WalletId) -> Option<Vec<ItemId>> {
        self.wallets.iter().find(|w| w.id == wallet_id).map(|w| w.items.clone())
    }
}

fn settle(first: Step, cache: &mut ItemSetCache, store: &mut Store) -> Response {
    let mut step = first;
    loop {
        step = match step {
            Step::Find(wallet_id, purpose) => {
                let outcome = store.find(wallet_id);
                wallet_found(wallet_id, purpose, outcome, cache)
            }
            Step::Insert(wallet_id) => {
                let outcome = store.insert(wallet_id);
                Step::Reply(wallet_inserted(wallet_id, outcome, cache))
            }
            Step::Replace(wallet_id, wallet, item_id) => {
                let outcome = store.replace(wallet_id, &wallet.items);
                Step::Reply(items_replaced(wallet_id, wallet, item_id, outcome, cache))
            }
            Step::Reply(response) => return response,
        };
    }
}

fn create_wallet(cache: &mut ItemSetCache, store: &mut Store, wallet_id: WalletId) -> Response {
    let first = create_wallet_handler(CreateWalletBody::V1Body(wallet_id), cache);
    settle(first, cache, store)
}

fn add_item(
    cache: &mut ItemSetCache,
    store: &mut Store,
    wallet_id: WalletId,
    item_id: ItemId,
) -> Response {
    let first = add_item_handler(wallet_id, AddItemBody::V1Body(item_id));
    settle(first, cache, store)
}

fn has_item(
    cache: &mut ItemSetCache,
    store: &mut Store,
    wallet_id: WalletId,
    item_id: ItemId,
) -> Response {
    let first = retrieve_item_handler(wallet_id, item_id, cache);
    settle(first, cache, store)
}

fn failed(message: &str) -> Response {
    Response::Failure(JsonResponse {
        status: Status::Error,
        data: None,
        message: Some(message.to_string()),
    })
}

fn created(wallet_id: WalletId) -> Response {
    Response::Wallet(JsonResponse { status: Status::Success, data: Some(wallet_id), message: None })
}

fn added(wallet_id: WalletId, item_id: ItemId) -> Response {
    Response::Added(JsonResponse {
        status: Status::Success,
        data: Some((wallet_id, item_id)),
        message: None,
    })
}

fn owned(item_id: ItemId) -> Response {
    Response::Item(JsonResponse { status: Status::Success, data: Some(item_id), message: None })
}

#[test]
fn test_print_request_body_json() {
    let create_wallet_body = CreateWalletBody::V1Body(10);
    let add_item_body = AddItemBody::V1Body(10);
    let CreateWalletBody::V1Body(wallet_id) = create_wallet_body;
    let AddItemBody::V1Body(item_id) = add_item_body;
    let mut create = serde_json::Map::new();
    create.insert("V1Body".to_string(), serde_json::Value::from(wallet_id));
    let mut add = serde_json::Map::new();
    add.insert("V1Body".to_string(), serde_json::Value::from(item_id));
    println!("{}", serde_json::to_string(&serde_json::Value::Object(create)).unwrap());
    println!("{}", serde_json::to_string(&serde_json::Value::Object(add)).unwrap());
}

#[test]
fn new_wallet_is_created_and_owns_nothing() {
    let mut cache = ItemSetCache::new(10);
    let mut store = Store::new();
    assert_eq!(create_wallet(&mut cache, &mut store, 7), created(7));
    assert_eq!(store.items(7), Some(vec![]));
    assert_eq!(has_item(&mut cache, &mut store, 7, 1), failed("no such item"));
    assert_eq!(has_item(&mut cache, &mut store, 7, 4_000_000_000), failed("no such item"));
}

#[test]
fn new_wallet_owns_nothing_when_the_cache_holds_nothing() {
    let mut cache = ItemSetCache::new(0);
    let mut store = Store::new();
    assert_eq!(create_wallet(&mut cache, &mut store, 7), created(7));
    assert_eq!(has_item(&mut cache, &mut store, 7, 1), failed("no such item"));
}

#[test]
fn second_creation_fails() {
    let mut cache = ItemSetCache::new(10);
    let mut store = Store::new();
    assert_eq!(create_wallet(&mut cache, &mut store, 10), created(10));
    assert_eq!(create_wallet(&mut cache, &mut store, 10), failed("wallet already exists"));
    assert_eq!(store.wallets.len(), 1);
}

#[test]
fn second_creation_is_refused_by_the_cache_without_a_call() {
    let mut cache = ItemSetCache::new(10);
    let mut store = Store::new();
    assert_eq!(create_wallet(&mut cache, &mut store, 10), created(10));
    let step = create_wallet_handler(CreateWalletBody::V1Body(10), &mut cache);
    assert_eq!(step, Step::Reply(failed("wallet already exists")));
}

#[test]
fn second_creation_is_refused_by_the_store_when_the_cache_forgot() {
    let mut cache = ItemSetCache::new(1);
    let mut store = Store::new();
    assert_eq!(create_wallet(&mut cache, &mut store, 10), created(10));
    assert_eq!(create_wallet(&mut cache, &mut store, 11), created(11));
    let step = create_wallet_handler(CreateWalletBody::V1Body(10), &mut cache);
    assert_eq!(step, Step::Find(10, Purpose::Create));
    assert_eq!(settle(step, &mut cache, &mut store), failed("wallet already exists"));
}

#[test]
fn added_item_is_owned() {
    let mut cache = ItemSetCache::new(10);
    let mut store = Store::new();
    assert_eq!(create_wallet(&mut cache, &mut store, 10), created(10));
    assert_eq!(add_item(&mut cache, &mut store, 10, 55), added(10, 55));
    assert_eq!(has_item(&mut cache, &mut store, 10, 55), owned(55));
}

#[test]
fn item_is_added_once() {
    let mut cache = ItemSetCache::new(10);
    let mut store = Store::new();
    assert_eq!(create_wallet(&mut cache, &mut store, 10), created(10));
    assert_eq!(add_item(&mut cache, &mut store, 10, 55), added(10, 55));
    assert_eq!(add_item(&mut cache, &mut store, 10, 55), failed("item already in wallet"));
    assert_eq!(store.items(10), Some(vec![55]));
}

#[test]
fn item_needs_a_wallet() {
    let mut cache = ItemSetCache::new(10);
    let mut store = Store::new();
    assert_eq!(add_item(&mut cache, &mut store, 999, 1), failed("no such wallet"));
    assert_eq!(store.wallets.len(), 0);
}

#[test]
fn other_item_is_not_owned() {
    let mut cache = ItemSetCache::new(10);
    let mut store = Store::new();
    assert_eq!(create_wallet(&mut cache, &mut store, 10), created(10));
    assert_eq!(add_item(&mut cache, &mut store, 10, 55), added(10, 55));
    assert_eq!(has_item(&mut cache, &mut store, 10, 77), failed("no such item"));
}

#[test]
fn question_needs_a_wallet() {
    let mut cache = ItemSetCache::new(10);
    let mut store = Store::new();
    assert_eq!(has_item(&mut cache, &mut store, 3, 1), failed("no such wallet"));
}

#[test]
fn evicted_wallet_is_answered_from_the_store() {
    let mut cache = ItemSetCache::new(2);
    let mut store = Store::new();
    assert_eq!(create_wallet(&mut cache, &mut store, 1), created(1));
    assert_eq!(add_item(&mut cache, &mut store, 1, 5), added(1, 5));
    let from_cache = has_item(&mut cache, &mut store, 1, 5);
    assert_eq!(create_wallet(&mut cache, &mut store, 2), created(2));
    assert_eq!(create_wallet(&mut cache, &mut store, 3), created(3));
    // Wallet 1 has left the cache: the question goes to the store.
    let step = retrieve_item_handler(1, 5, &mut cache);
    assert_eq!(step, Step::Find(1, Purpose::Retrieve(5)));
    let from_store = settle(step, &mut cache, &mut store);
    assert_eq!(from_store, from_cache);
    assert_eq!(from_store, owned(5));
    // The read filled the cache again: the next question needs no call.
    let step = retrieve_item_handler(1, 6, &mut cache);
    assert_eq!(step, Step::Reply(failed("no such item")));
}

#[test]
fn added_items_are_all_stored() {
    let mut cache = ItemSetCache::new(10);
    let mut store = Store::new();
    assert_eq!(create_wallet(&mut cache, &mut store, 4), created(4));
    let items: Vec<ItemId> = vec![9, 3, 7, 1, 8];
    for item in items.iter() {
        assert_eq!(add_item(&mut cache, &mut store, 4, *item), added(4, *item));
    }
    assert_eq!(store.items(4), Some(vec![9, 3, 7, 1, 8]));
    for item in items.iter() {
        assert_eq!(has_item(&mut cache, &mut store, 4, *item), owned(*item));
    }
    assert_eq!(has_item(&mut cache, &mut store, 4, 2), failed("no such item"));
}

#[test]
fn interleaved_additions_lose_the_first() {
    let mut cache = ItemSetCache::new(10);
    let mut store = Store::new();
    assert_eq!(create_wallet(&mut cache, &mut store, 4), created(4));
    // Both requests read the wallet before either writes.
    assert_eq!(add_item_handler(4, AddItemBody::V1Body(1)), Step::Find(4, Purpose::AddItem(1)));
    assert_eq!(add_item_handler(4, AddItemBody::V1Body(2)), Step::Find(4, Purpose::AddItem(2)));
    let first = wallet_found(4, Purpose::AddItem(1), store.find(4), &mut cache);
    let second = wallet_found(4, Purpose::AddItem(2), store.find(4), &mut cache);
    assert_eq!(settle(first, &mut cache, &mut store), added(4, 1));
    assert_eq!(settle(second, &mut cache, &mut store), added(4, 2));
    // Both were told of success; only the later write is in the store.
    assert_eq!(store.items(4), Some(vec![2]));
    assert_eq!(has_item(&mut cache, &mut store, 4, 1), failed("no such item"));
    assert_eq!(has_item(&mut cache, &mut store, 4, 2), owned(2));
}

#[test]
fn literal_scenario() {
    let mut cache = ItemSetCache::new(10);
    let mut store = Store::new();
    let response = create_wallet(&mut cache, &mut store, 10);
    assert_eq!(
        response,
        Response::Wallet(JsonResponse { status: Status::Success, data: Some(10), message: None })
    );
    let response = add_item(&mut cache, &mut store, 10, 55);
    assert_eq!(
        response,
        Response::Added(JsonResponse {
            status: Status::Success,
            data: Some((10, 55)),
            message: None
        })
    );
    let response = has_item(&mut cache, &mut store, 10, 55);
    assert_eq!(
        response,
        Response::Item(JsonResponse { status: Status::Success, data: Some(55), message: None })
    );
    let response = has_item(&mut cache, &mut store, 10, 999);
    assert_eq!(
        response,
        Response::Failure(JsonResponse {
            status: Status::Error,
            data: None,
            message: Some("no such item".to_string())
        })
    );
}

#[test]
fn creation_goes_on_when_the_probe_fails() {
    let mut cache = ItemSetCache::new(10);
    let step =
        wallet_found(10, Purpose::Create, FindOutcome::Failed("timeout".to_string()), &mut cache);
    assert_eq!(step, Step::Insert(10));
    let step = wallet_found(10, Purpose::Create, FindOutcome::Missing, &mut cache);
    assert_eq!(step, Step::Insert(10));
}

#[test]
fn creation_lost_to_another_creator() {
    let mut cache = ItemSetCache::new(10);
    let response = wallet_inserted(10, InsertOutcome::Duplicate, &mut cache);
    assert_eq!(response, failed("wallet already exists"));
    // Nothing entered the cache.
    assert_eq!(cache.lookup(10), None);
}

#[test]
fn store_failures_are_reported_as_such() {
    let mut cache = ItemSetCache::new(10);
    let response = wallet_inserted(10, InsertOutcome::Failed("down".to_string()), &mut cache);
    assert_eq!(response, failed("Db(down)"));
    assert_eq!(cache.lookup(10), None);
    let step =
        wallet_found(10, Purpose::AddItem(1), FindOutcome::Failed("down".to_string()), &mut cache);
    assert_eq!(step, Step::Reply(failed("Db(down)")));
    let step =
        wallet_found(10, Purpose::Retrieve(1), FindOutcome::Failed("down".to_string()), &mut cache);
    assert_eq!(step, Step::Reply(failed("Db(down)")));
    let wallet = Wallet { id: 10, items: vec![1] };
    let outcome = ReplaceOutcome::Failed("down".to_string());
    let response = items_replaced(10, wallet.clone(), 1, outcome, &mut cache);
    assert_eq!(response, failed("Db(down)"));
    let response = items_replaced(10, wallet, 1, ReplaceOutcome::Missing, &mut cache);
    assert_eq!(response, failed("no such wallet"));
    assert_eq!(cache.lookup(10), None);
}

#[test]
fn addition_writes_the_whole_list() {
    let mut cache = ItemSetCache::new(10);
    let read = FindOutcome::Found(Wallet { id: 10, items: vec![4, 5] });
    let step = wallet_found(10, Purpose::AddItem(6), read, &mut cache);
    assert_eq!(step, Step::Replace(10, Wallet { id: 10, items: vec![4, 5, 6] }, 6));
    // The cache is filled only once the write has succeeded.
    assert_eq!(cache.lookup(10), None);
    let response = items_replaced(
        10,
        Wallet { id: 10, items: vec![4, 5, 6] },
        6,
        ReplaceOutcome::Replaced,
        &mut cache,
    );
    assert_eq!(response, added(10, 6));
    let held = cache.lookup(10).unwrap();
    assert_eq!(held.len(), 3);
    assert!(held.contains(&4) && held.contains(&5) && held.contains(&6));
}
