//! The node's part in the ballots: it collects events, puts them to the vote when it
//! leads, and acts on what a ballot decided.

use serde_json::Value;
use vstd::prelude::*;

use crate::dns::{decision, process_dns_event, Decision, DnsDecision};
use crate::ipv4::is_ipv4;
use crate::json::{
    json_document, json_items, json_of, json_parse, json_text, json_texts, json_write_strings,
    jsons_of, strings_json, texts_of, Json,
};
use crate::nostr::{
    event_fields, event_of, event_verifies, npub_text, EventView, NostrEvent,
};

verus! {

/// A node: the events that wait for a ballot, each as its JSON text, where the number of the
/// next ballot is kept, and the key of the DNS server.
pub struct Charter {
    nostr_pool: Vec<String>,
    ballot_path: String,
    dns_api_key: String,
}

/// What follows from a decided ballot.
pub struct RollOutcome {
    /// Whether the ballot's document is an array that lists anything.
    pub listed: bool,
    /// What becomes of the decided events, in their order.
    pub decisions: Vec<DnsDecision>,
    /// The number of the next ballot, to be kept once the decisions are carried out;
    /// `None` after the last number.
    pub next_ballot: Option<u64>,
}

/// The event whose JSON text an item is, in a list of its own; the empty list where it is none.
pub open spec fn item_event(item: Json) -> Seq<EventView> {
    match item {
        Json::Text(json) => match event_of(json) {
            Some(event) => seq![event],
            None => Seq::empty(),
        },
        _ => Seq::empty(),
    }
}

/// The events among some items, in their order.
pub open spec fn item_events(items: Seq<Json>) -> Seq<EventView>
    decreases items.len(),
{
    if items.len() == 0 {
        Seq::empty()
    } else {
        item_events(items.drop_last()) + item_event(items.last())
    }
}

/// The events that a decided document holds: those of an array, else none.
pub open spec fn decided_events(document: Json) -> Seq<EventView> {
    match document {
        Json::Array(items) => item_events(items),
        _ => Seq::empty(),
    }
}

/// Whether a decided document is an array that lists anything.
pub open spec fn lists_items(document: Json) -> bool {
    document matches Json::Array(items) && items.len() > 0
}

/// The ids of some events.
pub open spec fn event_ids(events: Seq<EventView>) -> Seq<Seq<char>> {
    Seq::new(events.len(), |i: int| events[i].id)
}

/// What becomes of some events.
pub open spec fn event_decisions(events: Seq<EventView>) -> Seq<Decision> {
    Seq::new(events.len(), |i: int| decision(events[i]))
}

/// The views of some events.
pub open spec fn views_of(events: Seq<NostrEvent>) -> Seq<EventView> {
    Seq::new(events.len(), |i: int| events[i]@)
}

/// The views of some decisions.
pub open spec fn decisions_of(decisions: Seq<DnsDecision>) -> Seq<Decision> {
    Seq::new(decisions.len(), |i: int| decisions[i]@)
}

/// Whether an event is among those with the given ids; a text that is no event is not.
pub open spec fn is_decided(json: Seq<char>, ids: Seq<Seq<char>>) -> bool {
    event_of(json) matches Some(event) && ids.contains(event.id)
}

/// What is left of a pool when the events with the given ids are taken out.
pub open spec fn undecided(pool: Seq<Seq<char>>, ids: Seq<Seq<char>>) -> Seq<Seq<char>> {
    pool.filter(|json: Seq<char>| !is_decided(json, ids))
}

/// The ballot after `ballot`.
pub open spec fn next_ballot(ballot: u64) -> Option<u64> {
    if ballot < u64::MAX {
        Some((ballot + 1) as u64)
    } else {
        None
    }
}

/// Whether `id` is one of `ids`.
fn has_id(ids: &Vec<String>, id: &String) -> (found: bool)
    ensures
        found == texts_of(ids@).contains(id@),
{
    let mut i: usize = 0;
    while i < ids.len()
        invariant
            i <= ids@.len(),
            forall|j: int| 0 <= j < i ==> texts_of(ids@)[j] != id@,
        decreases ids@.len() - i,
    {
        if ids[i] == *id {
            assert(texts_of(ids@)[i as int] == id@);
            return true;
        }
        i = i + 1;
    }
    false
}

/// The texts of a pool, given the id of each that is an event, whose id is not among those
/// decided; a text that is no event stays.
pub open spec fn retained(
    pool: Seq<Seq<char>>,
    pool_ids: Seq<Option<Seq<char>>>,
    ids: Seq<Seq<char>>,
) -> Seq<Seq<char>>
    decreases pool.len(),
{
    if pool.len() == 0 {
        Seq::empty()
    } else {
        let before = retained(pool.drop_last(), pool_ids.drop_last(), ids);
        match pool_ids.last() {
            Some(id) if ids.contains(id) => before,
            _ => before.push(pool.last()),
        }
    }
}

/// The characters of some ids, in order.
pub open spec fn optional_texts(ids: Seq<Option<String>>) -> Seq<Option<Seq<char>>> {
    Seq::new(
        ids.len(),
        |i: int|
            match ids[i] {
                Some(id) => Some(id@),
                None => None,
            },
    )
}

/// Takes the decided events out of a pool, given the id of each text that is an event.
pub fn retain_undecided(
    pool: Vec<String>,
    pool_ids: &Vec<Option<String>>,
    ids: &Vec<String>,
) -> (kept: Vec<String>)
    requires
        pool@.len() == pool_ids@.len(),
    ensures
        texts_of(kept@) == retained(texts_of(pool@), optional_texts(pool_ids@), texts_of(ids@)),
{
    let ghost all = texts_of(pool@);
    let ghost all_ids = optional_texts(pool_ids@);
    let mut kept: Vec<String> = Vec::new();
    let mut i: usize = 0;
    assert(texts_of(kept@) =~= retained(all.take(0), all_ids.take(0), texts_of(ids@)));
    while i < pool.len()
        invariant
            i <= pool@.len(),
            pool@.len() == pool_ids@.len(),
            all == texts_of(pool@),
            all_ids == optional_texts(pool_ids@),
            texts_of(kept@) == retained(
                all.take(i as int),
                all_ids.take(i as int),
                texts_of(ids@),
            ),
        decreases pool@.len() - i,
    {
        let drop_it: bool = match &pool_ids[i] {
            Some(id) => has_id(ids, id),
            None => false,
        };
        let ghost before = texts_of(kept@);
        if !drop_it {
            kept.push(pool[i].clone());
            assert(texts_of(kept@) =~= before.push(all[i as int]));
        }
        assert(all.take(i + 1).drop_last() =~= all.take(i as int));
        assert(all_ids.take(i + 1).drop_last() =~= all_ids.take(i as int));
        i = i + 1;
    }
    assert(all.take(i as int) =~= all);
    assert(all_ids.take(i as int) =~= all_ids);
    kept
}

/// The ids of the texts of a pool that are events.
spec fn pool_event_ids(pool: Seq<Seq<char>>) -> Seq<Option<Seq<char>>> {
    Seq::new(
        pool.len(),
        |i: int|
            match event_of(pool[i]) {
                Some(event) => Some(event.id),
                None => None,
            },
    )
}

proof fn lemma_retained_is_undecided(pool: Seq<Seq<char>>, ids: Seq<Seq<char>>)
    ensures
        retained(pool, pool_event_ids(pool), ids) == undecided(pool, ids),
    decreases pool.len(),
{
    reveal(Seq::filter);
    if pool.len() > 0 {
        lemma_retained_is_undecided(pool.drop_last(), ids);
        assert(pool_event_ids(pool).drop_last() =~= pool_event_ids(pool.drop_last()));
    }
}

/// Reads the ids of the texts of a pool that are events.
fn read_pool_ids(pool: &Vec<String>) -> (ids: Vec<Option<String>>)
    ensures
        ids@.len() == pool@.len(),
        optional_texts(ids@) == pool_event_ids(texts_of(pool@)),
{
    let ghost all = pool_event_ids(texts_of(pool@));
    let mut ids: Vec<Option<String>> = Vec::new();
    let mut i: usize = 0;
    while i < pool.len()
        invariant
            i <= pool@.len(),
            ids@.len() == i,
            all == pool_event_ids(texts_of(pool@)),
            optional_texts(ids@) == all.take(i as int),
        decreases pool@.len() - i,
    {
        let ghost before = optional_texts(ids@);
        ids.push(NostrEvent::parse_id(pool[i].as_str()));
        assert(optional_texts(ids@) =~= before.push(all[i as int]));
        assert(optional_texts(ids@) =~= all.take(i + 1));
        i = i + 1;
    }
    assert(optional_texts(ids@) =~= all);
    ids
}

/// Reads the events among some items.
fn read_item_events(items: &Vec<Value>) -> (events: Vec<NostrEvent>)
    ensures
        views_of(events@) == item_events(jsons_of(items@)),
{
    let ghost all = jsons_of(items@);
    let mut events: Vec<NostrEvent> = Vec::new();
    let mut i: usize = 0;
    assert(views_of(events@) =~= item_events(all.take(0)));
    while i < items.len()
        invariant
            i <= items@.len(),
            all == jsons_of(items@),
            views_of(events@) == item_events(all.take(i as int)),
        decreases items@.len() - i,
    {
        assert(all.take(i + 1).drop_last() =~= all.take(i as int));
        let ghost before = views_of(events@);
        assert(before + Seq::<EventView>::empty() =~= before);
        match json_text(&items[i]) {
            Some(text) => match NostrEvent::parse(text) {
                Some(event) => {
                    events.push(event);
                    assert(views_of(events@) =~= before + seq![event@]);
                },
                None => {},
            },
            None => {},
        }
        i = i + 1;
    }
    assert(all.take(i as int) =~= all);
    events
}

/// What follows from the decided events of a ballot: what becomes of them, the next ballot,
/// and what is left of the pool, given the id of each of its texts that is an event.
/// `listed` says whether the ballot's document lists anything.
pub fn settle_roll(
    ballot: u64,
    listed: bool,
    events: &Vec<NostrEvent>,
    pool: Vec<String>,
    pool_ids: &Vec<Option<String>>,
) -> (settled: (RollOutcome, Vec<String>))
    requires
        pool@.len() == pool_ids@.len(),
    ensures
        settled.0.listed == listed,
        decisions_of(settled.0.decisions@) == event_decisions(views_of(events@)),
        settled.0.next_ballot == next_ballot(ballot),
        ballot < u64::MAX ==> (settled.0.next_ballot matches Some(next) && next == ballot + 1),
        ballot == u64::MAX ==> settled.0.next_ballot is None,
        settled.0.decisions@.len() == events@.len(),
        forall|i: int|
            0 <= i < events@.len() ==> match #[trigger] settled.0.decisions@[i] {
                DnsDecision::Update { label, ip } => {
                    &&& events@[i].verified
                    &&& is_ipv4(events@[i].content@)
                    &&& label@ == events@[i].label@
                    &&& ip@ == events@[i].content@
                },
                DnsDecision::InvalidSignature { id } => !events@[i].verified && id@
                    == events@[i].id@,
                DnsDecision::InvalidAddress { id } => {
                    &&& events@[i].verified
                    &&& !is_ipv4(events@[i].content@)
                    &&& id@ == events@[i].id@
                },
            },
        texts_of(settled.1@) == retained(
            texts_of(pool@),
            optional_texts(pool_ids@),
            event_ids(views_of(events@)),
        ),
{
    let ghost all = views_of(events@);
    let mut ids: Vec<String> = Vec::new();
    let mut decisions: Vec<DnsDecision> = Vec::new();
    let mut i: usize = 0;
    while i < events.len()
        invariant
            i <= events@.len(),
            all == views_of(events@),
            texts_of(ids@) == event_ids(all).take(i as int),
            decisions_of(decisions@) == event_decisions(all).take(i as int),
            decisions@.len() == i,
            forall|j: int|
                0 <= j < i ==> match #[trigger] decisions@[j] {
                    DnsDecision::Update { label, ip } => {
                        &&& events@[j].verified
                        &&& is_ipv4(events@[j].content@)
                        &&& label@ == events@[j].label@
                        &&& ip@ == events@[j].content@
                    },
                    DnsDecision::InvalidSignature { id } => !events@[j].verified && id@
                        == events@[j].id@,
                    DnsDecision::InvalidAddress { id } => {
                        &&& events@[j].verified
                        &&& !is_ipv4(events@[j].content@)
                        &&& id@ == events@[j].id@
                    },
                },
        decreases events@.len() - i,
    {
        let ghost before_ids = texts_of(ids@);
        let ghost before = decisions_of(decisions@);
        ids.push(events[i].id.clone());
        decisions.push(process_dns_event(&events[i]));
        assert(texts_of(ids@) =~= before_ids.push(all[i as int].id));
        assert(texts_of(ids@) =~= event_ids(all).take(i + 1));
        assert(decisions_of(decisions@) =~= before.push(decision(all[i as int])));
        assert(decisions_of(decisions@) =~= event_decisions(all).take(i + 1));
        i = i + 1;
    }
    assert(texts_of(ids@) =~= event_ids(all));
    assert(decisions_of(decisions@) =~= event_decisions(all));
    let next: Option<u64> = ballot.checked_add(1);
    (RollOutcome { listed, decisions, next_ballot: next }, retain_undecided(pool, pool_ids, &ids))
}

impl Charter {
    /// The texts that wait for a ballot, in the order in which they came.
    pub closed spec fn pool(&self) -> Seq<Seq<char>> {
        texts_of(self.nostr_pool@)
    }

    /// Where the number of the next ballot is kept.
    pub closed spec fn path(&self) -> Seq<char> {
        self.ballot_path@
    }

    /// The key of the DNS server.
    pub closed spec fn api_key(&self) -> Seq<char> {
        self.dns_api_key@
    }

    /// A node with the given events waiting.
    pub fn new(nostr_pool: Vec<String>, ballot_path: String, dns_api_key: String) -> (charter: Self)
        ensures
            charter.pool() == texts_of(nostr_pool@),
            charter.path() == ballot_path@,
            charter.api_key() == dns_api_key@,
    {
        Charter { nostr_pool, ballot_path, dns_api_key }
    }

    /// How many texts wait for a ballot.
    pub fn pool_len(&self) -> (len: usize)
        ensures
            len == self.pool().len(),
    {
        self.nostr_pool.len()
    }

    /// The texts that wait for a ballot.
    pub fn nostr_pool(&self) -> (pool: &Vec<String>)
        ensures
            texts_of(pool@) == self.pool(),
    {
        &self.nostr_pool
    }

    /// Where the number of the next ballot is kept.
    pub fn ballot_path(&self) -> (path: &str)
        ensures
            path@ == self.path(),
    {
        self.ballot_path.as_str()
    }

    /// The key of the DNS server.
    pub fn dns_api_key(&self) -> (key: &str)
        ensures
            key@ == self.api_key(),
    {
        self.dns_api_key.as_str()
    }

    /// Takes in an event that a relay sent, if it came for the node's own subscription.
    pub fn observe_event(&mut self, subscription: &String, own: &String, json: String)
        ensures
            final(self).pool() == if subscription@ == own@ {
                old(self).pool().push(json@)
            } else {
                old(self).pool()
            },
            final(self).path() == old(self).path(),
            final(self).api_key() == old(self).api_key(),
    {
        if *subscription == *own {
            self.nostr_pool.push(json);
            assert(self.pool() =~= old(self).pool().push(json@));
        }
    }

    /// The payload of the vote that the node casts as the leader of a ballot: the JSON array
    /// of all that waits. Nothing is left waiting.
    pub fn produce_payload(&mut self, _ballot: u64) -> (payload: Vec<u8>)
        ensures
            payload@ == strings_json(old(self).pool()),
            json_document(payload@) == Some(json_texts(old(self).pool())),
            json_document(payload@) matches Some(Json::Array(items)) && items.len() == old(
                self,
            ).pool().len() && forall|i: int|
                0 <= i < items.len() ==> #[trigger] items[i] == Json::Text(old(self).pool()[i]),
            final(self).pool() == Seq::<Seq<char>>::empty(),
            final(self).path() == old(self).path(),
            final(self).api_key() == old(self).api_key(),
    {
        let mut events: Vec<String> = Vec::new();
        std::mem::swap(&mut self.nostr_pool, &mut events);
        assert(self.pool() =~= Seq::<Seq<char>>::empty());
        match json_write_strings(&events) {
            Ok(payload) => payload,
            Err(_) => Vec::new(),
        }
    }

    /// Takes in what a ballot decided. The payload must be a JSON document, else nothing
    /// changes. The events that it holds, where it is an array, leave the pool, and each is
    /// decided on; items that are no events are passed over.
    pub fn on_roll_observed(&mut self, ballot: u64, payload: &[u8]) -> (result: Result<
        RollOutcome,
        serde_json::Error,
    >)
        ensures
            match json_document(payload@) {
                None => result is Err && final(self).pool() == old(self).pool(),
                Some(document) => {
                    let events = decided_events(document);
                    &&& result matches Ok(outcome)
                    &&& outcome.listed == lists_items(document)
                    &&& decisions_of(outcome.decisions@) == event_decisions(events)
                    &&& outcome.next_ballot == next_ballot(ballot)
                    &&& ballot < u64::MAX ==> (outcome.next_ballot matches Some(next) && next
                        == ballot + 1)
                    &&& ballot == u64::MAX ==> outcome.next_ballot is None
                    &&& outcome.listed <==> (document matches Json::Array(items) && items.len() > 0)
                    &&& outcome.decisions@.len() == events.len()
                    &&& final(self).pool() == undecided(old(self).pool(), event_ids(events))
                },
            },
            final(self).path() == old(self).path(),
            final(self).api_key() == old(self).api_key(),
    {
        let document = match json_parse(payload) {
            Ok(document) => document,
            Err(error) => return Err(error),
        };
        let (listed, events) = match json_items(&document) {
            Some(items) => (items.len() > 0, read_item_events(items)),
            None => (false, Vec::new()),
        };
        let ghost decided = decided_events(json_of(document));
        assert(views_of(events@) =~= decided);
        assert(events@.len() == views_of(events@).len());
        let mut pool: Vec<String> = Vec::new();
        std::mem::swap(&mut self.nostr_pool, &mut pool);
        let pool_ids = read_pool_ids(&pool);
        proof {
            lemma_retained_is_undecided(texts_of(pool@), event_ids(decided));
        }
        let (outcome, kept) = settle_roll(ballot, listed, &events, pool, &pool_ids);
        self.nostr_pool = kept;
        Ok(outcome)
    }
}

/// The events of a list of texts, in their order; texts that are no events are passed over.
pub open spec fn events_among(texts: Seq<Seq<char>>) -> Seq<EventView> {
    texts.filter(|json: Seq<char>| event_of(json) is Some).map_values(
        |json: Seq<char>| event_of(json)->0,
    )
}

/// A ballot without events leaves a pool as it is.
pub proof fn nothing_decided_changes_nothing(pool: Seq<Seq<char>>)
    ensures
        undecided(pool, Seq::empty()) == pool,
    decreases pool.len(),
{
    reveal(Seq::filter);
    if pool.len() > 0 {
        nothing_decided_changes_nothing(pool.drop_last());
        assert(undecided(pool, Seq::empty()) =~= pool);
    } else {
        assert(undecided(pool, Seq::empty()) =~= pool);
    }
}

/// What waits after a ballot is what waited before and was not decided.
pub proof fn only_decided_events_leave(pool: Seq<Seq<char>>, ids: Seq<Seq<char>>, json: Seq<char>)
    ensures
        undecided(pool, ids).contains(json) <==> pool.contains(json) && !is_decided(json, ids),
    decreases pool.len(),
{
    reveal(Seq::filter);
    if pool.len() > 0 {
        let before = pool.drop_last();
        only_decided_events_leave(before, ids, json);
        assert(pool =~= before.push(pool.last()));
        assert(pool.contains(json) <==> before.contains(json) || pool.last() == json) by {
            if before.contains(json) {
                let i = choose|i: int| 0 <= i < before.len() && before[i] == json;
                assert(pool[i] == json);
            }
            assert(pool[pool.len() - 1] == pool.last());
        }
        let kept = undecided(before, ids);
        if !is_decided(pool.last(), ids) {
            assert(undecided(pool, ids) =~= kept.push(pool.last()));
            assert(kept.push(pool.last()).contains(json) <==> kept.contains(json) || pool.last()
                == json) by {
                if kept.contains(json) {
                    let i = choose|i: int| 0 <= i < kept.len() && kept[i] == json;
                    assert(kept.push(pool.last())[i] == json);
                }
                assert(kept.push(pool.last())[kept.len() as int] == pool.last());
            }
        }
    }
}

/// A ballot that is observed again changes nothing more.
pub proof fn observing_twice_is_observing_once(pool: Seq<Seq<char>>, ids: Seq<Seq<char>>)
    ensures
        undecided(undecided(pool, ids), ids) == undecided(pool, ids),
    decreases pool.len(),
{
    reveal(Seq::filter);
    if pool.len() > 0 {
        let before = pool.drop_last();
        observing_twice_is_observing_once(before, ids);
        if !is_decided(pool.last(), ids) {
            let kept = undecided(before, ids);
            assert(kept.push(pool.last()).drop_last() =~= kept);
        }
    }
}

/// Every event that a leader puts to the vote is decided, in the order in which it waited.
pub proof fn leader_events_are_decided(pool: Seq<Seq<char>>)
    ensures
        decided_events(json_texts(pool)) == events_among(pool),
    decreases pool.len(),
{
    reveal(Seq::filter);
    let items = json_texts(pool)->Array_0;
    if pool.len() > 0 {
        leader_events_are_decided(pool.drop_last());
        let before = json_texts(pool.drop_last())->Array_0;
        assert(items.drop_last() =~= before);
        assert(events_among(pool) =~= events_among(pool.drop_last()) + item_event(items.last()));
    } else {
        assert(events_among(pool) =~= Seq::<EventView>::empty());
    }
}

/// When a ballot decides all that waited, no event is left waiting.
pub proof fn own_ballot_clears_the_pool(pool: Seq<Seq<char>>, json: Seq<char>)
    requires
        event_of(json) is Some,
    ensures
        !undecided(pool, event_ids(decided_events(json_texts(pool)))).contains(json),
{
    let events = events_among(pool);
    let ids = event_ids(events);
    leader_events_are_decided(pool);
    only_decided_events_leave(pool, ids, json);
    if pool.contains(json) {
        let texts = pool.filter(|json: Seq<char>| event_of(json) is Some);
        let k = choose|k: int| 0 <= k < pool.len() && pool[k] == json;
        pool.lemma_filter_contains(|json: Seq<char>| event_of(json) is Some, k);
        let i = choose|i: int| 0 <= i < texts.len() && texts[i] == json;
        assert(ids[i] == (event_of(json)->0).id);
    }
}

/// Whether an item is the JSON text of a signed event that gives its author's label an address.
pub open spec fn sets_record(item: Json, label: Seq<char>, ip: Seq<char>) -> bool {
    item matches Json::Text(json) && event_of(json) matches Some(event) && event.verified && is_ipv4(
        event.content,
    ) && event.label == label && event.content == ip
}

proof fn lemma_item_records(items: Seq<Json>, label: Seq<char>, ip: Seq<char>)
    ensures
        event_decisions(item_events(items)).contains(Decision::Update { label, ip }) <==> exists|
            k: int,
        |
            0 <= k < items.len() && sets_record(#[trigger] items[k], label, ip),
    decreases items.len(),
{
    let update = Decision::Update { label, ip };
    let all = event_decisions(item_events(items));
    if items.len() > 0 {
        let before = items.drop_last();
        lemma_item_records(before, label, ip);
        let first = event_decisions(item_events(before));
        let last = event_decisions(item_event(items.last()));
        assert(all =~= first + last);
        assert(last.contains(update) <==> sets_record(items.last(), label, ip)) by {
            if sets_record(items.last(), label, ip) {
                assert(last[0] == update);
            }
        }
        assert(all.contains(update) <==> first.contains(update) || last.contains(update)) by {
            if first.contains(update) {
                let i = choose|i: int| 0 <= i < first.len() && first[i] == update;
                assert(all[i] == update);
            }
            if last.contains(update) {
                let i = choose|i: int| 0 <= i < last.len() && last[i] == update;
                assert(all[first.len() + i] == update);
            }
        }
        assert(items[items.len() - 1] == items.last());
        assert(forall|k: int| 0 <= k < before.len() ==> before[k] == #[trigger] items[k]);
        if exists|k: int| 0 <= k < before.len() && sets_record(#[trigger] before[k], label, ip) {
            let k = choose|k: int|
                0 <= k < before.len() && sets_record(#[trigger] before[k], label, ip);
            assert(sets_record(items[k], label, ip));
        }
        if exists|k: int| 0 <= k < items.len() && sets_record(#[trigger] items[k], label, ip) {
            let k = choose|k: int|
                0 <= k < items.len() && sets_record(#[trigger] items[k], label, ip);
            if k < before.len() {
                assert(sets_record(before[k], label, ip));
            }
        }
    }
}

/// A decided document sets an address exactly where it lists a signed event of the label's
/// owner that holds that address.
pub proof fn only_signed_events_set_records(document: Json, label: Seq<char>, ip: Seq<char>)
    ensures
        event_decisions(decided_events(document)).contains(Decision::Update { label, ip }) <==> (
        document matches Json::Array(items) && exists|k: int|
            0 <= k < items.len() && sets_record(#[trigger] items[k], label, ip)),
{
    if let Json::Array(items) = document {
        lemma_item_records(items, label, ip);
    }
}

/// A node moves on by one ballot, from every ballot but the last.
pub proof fn ballots_advance_by_one(ballot: u64)
    ensures
        ballot < u64::MAX ==> (next_ballot(ballot) matches Some(next) && next == ballot + 1),
        ballot == u64::MAX ==> next_ballot(ballot) is None,
{
}

/// Lists of events, decisions and ids keep their length and their order.
pub proof fn rolls_in_order(
    events: Seq<EventView>,
    read: Seq<NostrEvent>,
    decisions: Seq<DnsDecision>,
    ids: Seq<Option<String>>,
)
    ensures
        event_ids(events).len() == events.len(),
        forall|i: int| 0 <= i < events.len() ==> #[trigger] event_ids(events)[i] == events[i].id,
        event_decisions(events).len() == events.len(),
        forall|i: int|
            0 <= i < events.len() ==> #[trigger] event_decisions(events)[i] == decision(events[i]),
        views_of(read).len() == read.len(),
        forall|i: int|
            0 <= i < read.len() ==> {
                &&& #[trigger] views_of(read)[i].id == read[i].id@
                &&& views_of(read)[i].content == read[i].content@
                &&& views_of(read)[i].verified == read[i].verified
                &&& views_of(read)[i].label == read[i].label@
            },
        decisions_of(decisions).len() == decisions.len(),
        forall|i: int|
            0 <= i < decisions.len() ==> #[trigger] decisions_of(decisions)[i] == decisions[i]@,
        optional_texts(ids).len() == ids.len(),
        forall|i: int|
            0 <= i < ids.len() ==> match #[trigger] optional_texts(ids)[i] {
                Some(text) => ids[i] matches Some(id) && id@ == text,
                None => ids[i] is None,
            },
{
}

/// An item is decided on exactly where it is a text that is an event; then it is that event.
pub proof fn item_is_its_event(item: Json)
    ensures
        !(item is Text) ==> item_events(seq![item]) == Seq::<EventView>::empty(),
        item matches Json::Text(json) ==> match event_fields(json) {
            None => item_events(seq![item]) == Seq::<EventView>::empty(),
            Some((id, pubkey, content)) => item_events(seq![item]) == seq![
                EventView {
                    id,
                    content,
                    verified: event_verifies(json),
                    label: npub_text(pubkey),
                },
            ],
        },
{
    reveal_with_fuel(item_events, 2);
    assert(seq![item].drop_last() =~= Seq::<Json>::empty());
    assert(item_events(seq![item]) =~= item_event(item));
}

/// The items of a list are decided on one after the other, none left out and none twice: the
/// events of two lists joined are those of the first, then those of the second.
pub proof fn items_one_after_the_other(first: Seq<Json>, second: Seq<Json>)
    ensures
        item_events(first + second) == item_events(first) + item_events(second),
        decided_events(Json::Array(first)) == item_events(first),
    decreases second.len(),
{
    if second.len() == 0 {
        assert(first + second =~= first);
        assert(item_events(first) + item_events(second) =~= item_events(first));
    } else {
        items_one_after_the_other(first, second.drop_last());
        assert((first + second).drop_last() =~= first + second.drop_last());
        assert(item_events(first + second) =~= item_events(first) + item_events(second));
    }
}

/// Only an array decides anything.
pub proof fn only_arrays_decide(document: Json)
    ensures
        !(document is Array) ==> decided_events(document) == Seq::<EventView>::empty(),
        document matches Json::Array(items) ==> decided_events(document) == item_events(items),
        lists_items(document) <==> (document matches Json::Array(items) && items.len() > 0),
{
}

/// A text leaves the pool exactly where it is an event whose id was decided.
pub proof fn text_leaves_by_its_id(json: Seq<char>, ids: Seq<Seq<char>>)
    ensures
        event_fields(json) matches Some((id, _, _)) && ids.contains(id) ==> undecided(
            seq![json],
            ids,
        ) == Seq::<Seq<char>>::empty(),
        !(event_fields(json) matches Some((id, _, _)) && ids.contains(id)) ==> undecided(
            seq![json],
            ids,
        ) == seq![json],
{
    reveal_with_fuel(Seq::filter, 2);
    assert(seq![json].drop_last() =~= Seq::<Seq<char>>::empty());
    assert(undecided(seq![json], ids) =~= if is_decided(json, ids) {
        Seq::empty()
    } else {
        seq![json]
    });
}

/// What is left of a pool is in its order, each text judged by itself: what is left of two
/// pools joined is what is left of the first, then what is left of the second.
pub proof fn pools_one_after_the_other(
    first: Seq<Seq<char>>,
    second: Seq<Seq<char>>,
    ids: Seq<Seq<char>>,
)
    ensures
        undecided(first + second, ids) == undecided(first, ids) + undecided(second, ids),
    decreases second.len(),
{
    reveal(Seq::filter);
    if second.len() == 0 {
        assert(first + second =~= first);
        assert(undecided(first, ids) + undecided(second, ids) =~= undecided(first, ids));
    } else {
        pools_one_after_the_other(first, second.drop_last(), ids);
        assert((first + second).drop_last() =~= first + second.drop_last());
        assert(undecided(first + second, ids) =~= undecided(first, ids) + undecided(second, ids));
    }
}

/// A text with a given id is dropped exactly where that id was decided; a text without one
/// stays.
pub proof fn retained_by_id(json: Seq<char>, own: Option<Seq<char>>, ids: Seq<Seq<char>>)
    ensures
        own matches Some(id) && ids.contains(id) ==> retained(seq![json], seq![own], ids) == Seq::<
            Seq<char>,
        >::empty(),
        !(own matches Some(id) && ids.contains(id)) ==> retained(seq![json], seq![own], ids)
            == seq![json],
{
    reveal_with_fuel(retained, 2);
    assert(seq![json].drop_last() =~= Seq::<Seq<char>>::empty());
    assert(retained(seq![json], seq![own], ids) =~= match own {
        Some(id) if ids.contains(id) => Seq::empty(),
        _ => seq![json],
    });
}

/// What is retained of two pools joined is what is retained of the first, then what is
/// retained of the second.
pub proof fn retained_one_after_the_other(
    first: Seq<Seq<char>>,
    first_ids: Seq<Option<Seq<char>>>,
    second: Seq<Seq<char>>,
    second_ids: Seq<Option<Seq<char>>>,
    ids: Seq<Seq<char>>,
)
    requires
        first.len() == first_ids.len(),
        second.len() == second_ids.len(),
    ensures
        retained(first + second, first_ids + second_ids, ids) == retained(first, first_ids, ids)
            + retained(second, second_ids, ids),
    decreases second.len(),
{
    if second.len() == 0 {
        assert(first + second =~= first);
        assert(first_ids + second_ids =~= first_ids);
        assert(retained(first, first_ids, ids) + retained(second, second_ids, ids) =~= retained(
            first,
            first_ids,
            ids,
        ));
    } else {
        retained_one_after_the_other(
            first,
            first_ids,
            second.drop_last(),
            second_ids.drop_last(),
            ids,
        );
        assert((first + second).drop_last() =~= first + second.drop_last());
        assert((first_ids + second_ids).drop_last() =~= first_ids + second_ids.drop_last());
        assert(retained(first + second, first_ids + second_ids, ids) =~= retained(
            first,
            first_ids,
            ids,
        ) + retained(second, second_ids, ids));
    }
}

} // verus!
