//! The monthly credits of the API keys.

use crate::client::TinifyClient;
use crate::clock::{local_now, month_text, LocalTime};
use crate::table::KeyTable;
use vstd::prelude::*;

verus! {

/// How many compressions a key has in a month.
pub const MONTHLY_CREDITS: u32 = 500;

/// The name of the file that holds the state, in the home directory.
pub const STATE_FILE: &'static str = ".tinypngx_state.toml";

/// What is known of the API keys.
#[derive(Debug)]
pub struct ApiState {
    /// The credits that each key has left.
    pub key_statuses: KeyTable<u32>,
    pub metadata: ApiMetadata,
}

/// When the state was written, and which month it is about.
#[derive(Debug)]
pub struct ApiMetadata {
    pub last_updated: String,
    pub current_month: String,
}

/// The keys that have credits left.
pub open spec fn active_keys(credits: Map<Seq<char>, u32>) -> Set<Seq<char>> {
    credits.dom().filter(|k: Seq<char>| credits[k] > 0)
}

/// The sum of all credits.
pub open spec fn total_credits(credits: Map<Seq<char>, u32>) -> nat
    decreases credits.dom().len(),
{
    if credits.dom().finite() && credits.dom().len() > 0 {
        let k = credits.dom().choose();
        credits[k] as nat + total_credits(credits.remove(k))
    } else {
        0
    }
}

/// The set of the listed keys.
pub open spec fn key_set(keys: Seq<String>) -> Set<Seq<char>> {
    keys.map_values(|k: String| k@).to_set()
}

/// The credits after the list of keys has become `keys`: a key that stays keeps what it has, a key
/// that is new starts with a month's credits, and every other key is gone.
pub open spec fn credits_for(
    credits: Map<Seq<char>, u32>,
    keys: Set<Seq<char>>,
) -> Map<Seq<char>, u32> {
    Map::new(
        |k: Seq<char>| keys.contains(k),
        |k: Seq<char>|
            if credits.dom().contains(k) {
                credits[k]
            } else {
                MONTHLY_CREDITS
            },
    )
}

/// The credits after a key was found to have `credit` left: a key that is not listed stays out.
pub open spec fn credits_with(
    credits: Map<Seq<char>, u32>,
    key: Seq<char>,
    credit: u32,
) -> Map<Seq<char>, u32> {
    if credits.dom().contains(key) {
        credits.insert(key, credit)
    } else {
        credits
    }
}

/// The state without keys, at a given time.
pub open spec fn fresh_at(state: ApiState, now: LocalTime) -> bool {
    &&& state.key_statuses@ == Map::<Seq<char>, u32>::empty()
    &&& state.metadata.last_updated@ == now.rfc3339@
    &&& state.metadata.current_month@ == now.label()
}

/// What `state` is loaded as at a given time: in another month than its own every key has a full
/// month's credits again.
pub open spec fn rolled_at(state: ApiState, now: LocalTime, loaded: ApiState) -> bool {
    &&& loaded.metadata.last_updated@ == state.metadata.last_updated@
    &&& loaded.metadata.current_month@ == now.label()
    &&& loaded.key_statuses@ == if state.metadata.current_month@ == now.label() {
        state.key_statuses@
    } else {
        state.key_statuses@.map_values(|c: u32| MONTHLY_CREDITS)
    }
}

/// What is loaded at a given time, from the stored state or, where none is stored, afresh.
pub open spec fn loaded_at(stored: Option<ApiState>, now: LocalTime, loaded: ApiState) -> bool {
    match stored {
        Some(state) => rolled_at(state, now, loaded),
        None => fresh_at(loaded, now),
    }
}

/// The same state, last updated at a given time.
pub open spec fn stamped_at(state: ApiState, now: LocalTime, stamped: ApiState) -> bool {
    &&& stamped.key_statuses == state.key_statuses
    &&& stamped.metadata.current_month == state.metadata.current_month
    &&& stamped.metadata.last_updated == now.rfc3339
}

/// The state with the credits that the client knows of.
pub open spec fn learned(state: ApiState, client: TinifyClient, taught: ApiState) -> bool {
    &&& taught.key_statuses@ == client.state.key_statuses@
    &&& taught.metadata == state.metadata
}

/// Adding a key adds its credits.
pub proof fn lemma_total_insert(credits: Map<Seq<char>, u32>, key: Seq<char>, credit: u32)
    requires
        credits.dom().finite(),
        !credits.dom().contains(key),
    ensures
        total_credits(credits.insert(key, credit)) == total_credits(credits) + credit,
    decreases credits.dom().len(),
{
    let more = credits.insert(key, credit);
    let k = more.dom().choose();
    assert(more.dom().contains(key));
    assert(more.dom().len() > 0);
    assert(more.dom().contains(k));
    if k == key {
        assert(more.remove(k) =~= credits);
    } else {
        let rest = credits.remove(k);
        assert(more.remove(k) =~= rest.insert(key, credit));
        lemma_total_insert(rest, key, credit);
        lemma_total_insert(rest, k, credits[k]);
        assert(rest.insert(k, credits[k]) =~= credits);
    }
}

impl Clone for ApiMetadata {
    fn clone(&self) -> (copy: ApiMetadata)
        ensures
            copy == *self,
    {
        ApiMetadata {
            last_updated: self.last_updated.clone(),
            current_month: self.current_month.clone(),
        }
    }
}

impl Clone for ApiState {
    fn clone(&self) -> (copy: ApiState)
        ensures
            copy.key_statuses@ == self.key_statuses@,
            copy.metadata == self.metadata,
    {
        ApiState {
            key_statuses: self.key_statuses.duplicate(),
            metadata: self.metadata.clone(),
        }
    }
}

impl ApiState {
    /// A state without keys, for the current month.
    pub fn new() -> (state: ApiState)
        ensures
            exists|now: LocalTime| now.wf() && #[trigger] fresh_at(state, now),
    {
        let now = local_now();
        let ghost reading = now;
        let state = ApiState::new_at(now);
        assert(fresh_at(state, reading));
        state
    }

    /// A state without keys, at a given time.
    pub fn new_at(now: LocalTime) -> (state: ApiState)
        ensures
            fresh_at(state, now),
    {
        let current_month = month_text(now.year, now.month);
        ApiState {
            key_statuses: KeyTable::new(),
            metadata: ApiMetadata { last_updated: now.rfc3339, current_month },
        }
    }

    /// The state to work with now, from the stored state if there is one.
    pub fn load(stored: Option<ApiState>) -> (loaded: ApiState)
        ensures
            exists|now: LocalTime| now.wf() && #[trigger] loaded_at(stored, now, loaded),
    {
        let now = local_now();
        let ghost reading = now;
        let loaded = ApiState::load_at(stored, now);
        assert(loaded_at(stored, reading, loaded));
        loaded
    }

    /// The state to work with at a given time, from the stored state if there is one.
    pub fn load_at(stored: Option<ApiState>, now: LocalTime) -> (loaded: ApiState)
        ensures
            loaded_at(stored, now, loaded),
    {
        match stored {
            Some(state) => {
                let mut state = state;
                let current_month = month_text(now.year, now.month);
                if state.metadata.current_month != current_month {
                    state.metadata.current_month = current_month;
                    state.key_statuses.fill(MONTHLY_CREDITS);
                }
                state
            },
            None => ApiState::new_at(now),
        }
    }

    /// Notes the current time as that of the last update.
    pub fn stamp(&mut self)
        ensures
            exists|now: LocalTime| now.wf() && #[trigger] stamped_at(*old(self), now, *final(self)),
    {
        let now = local_now();
        let ghost reading = now;
        self.stamp_at(now);
        assert(stamped_at(*old(self), reading, *self));
    }

    /// Notes a given time as that of the last update.
    pub fn stamp_at(&mut self, now: LocalTime)
        ensures
            stamped_at(*old(self), now, *final(self)),
    {
        self.metadata.last_updated = now.rfc3339;
    }

    /// Takes over the credits that the client has learned.
    pub fn learn(&mut self, client: &TinifyClient)
        ensures
            final(self).key_statuses@ == client.state.key_statuses@,
            final(self).metadata == old(self).metadata,
    {
        self.key_statuses = client.state.key_statuses.duplicate();
    }

    /// Takes over a list of keys.
    pub fn update_keys(&mut self, keys: &[String])
        ensures
            final(self).key_statuses@ == credits_for(old(self).key_statuses@, key_set(keys@)),
            final(self).metadata == old(self).metadata,
    {
        let ghost before = self.key_statuses@;
        let ghost views = keys@.map_values(|k: String| k@);
        let mut i: usize = 0;
        assert(views.take(0).to_set() =~= Set::<Seq<char>>::empty());
        while i < keys.len()
            invariant
                i <= keys.len(),
                views == keys@.map_values(|k: String| k@),
                self.metadata == old(self).metadata,
                self.key_statuses@.dom() =~= before.dom().union(views.take(i as int).to_set()),
                forall|k: Seq<char>| #[trigger]
                    before.dom().contains(k) ==> self.key_statuses@[k] == before[k],
                forall|k: Seq<char>| #[trigger]
                    self.key_statuses@.dom().contains(k) && !before.dom().contains(k)
                        ==> self.key_statuses@[k] == MONTHLY_CREDITS,
            decreases keys.len() - i,
        {
            proof {
                let more = views.take(i + 1);
                assert(more =~= views.take(i as int).push(views[i as int]));
                views.take(i as int).lemma_push_to_set_commute(views[i as int]);
            }
            if !self.key_statuses.contains_key(keys[i].as_str()) {
                self.key_statuses.insert(keys[i].clone(), MONTHLY_CREDITS);
            }
            i = i + 1;
        }
        assert(views.take(i as int) =~= views);
        self.key_statuses.retain(keys);
        assert(self.key_statuses@ =~= credits_for(before, key_set(keys@)));
    }

    /// How many keys have credits left.
    pub fn active_keys_count(&self) -> (n: usize)
        ensures
            n == active_keys(self.key_statuses@).len(),
            active_keys(self.key_statuses@).finite(),
    {
        let ghost m = self.key_statuses@;
        let ghost order = self.key_statuses.order();
        let len = self.key_statuses.len();
        let mut n: usize = 0;
        let mut i: usize = 0;
        assert(active_keys(m.restrict(order.take(0).to_set())) =~= Set::<Seq<char>>::empty());
        while i < len
            invariant
                n <= i <= len,
                len == order.len(),
                m == self.key_statuses@,
                order == self.key_statuses.order(),
                order.no_duplicates(),
                order.to_set() == m.dom(),
                n == active_keys(m.restrict(order.take(i as int).to_set())).len(),
                active_keys(m.restrict(order.take(i as int).to_set())).finite(),
            decreases len - i,
        {
            proof {
                let done = order.take(i as int);
                assert(order.take(i + 1) =~= done.push(order[i as int]));
                done.lemma_push_to_set_commute(order[i as int]);
                assert(!done.contains(order[i as int]));
                assert(order.contains(order[i as int]));
                let now = active_keys(m.restrict(done.to_set()));
                let then = active_keys(m.restrict(done.to_set().insert(order[i as int])));
                if m[order[i as int]] > 0 {
                    assert(then =~= now.insert(order[i as int]));
                } else {
                    assert(then =~= now);
                }
            }
            if *self.key_statuses.value_at(i) > 0 {
                n = n + 1;
            }
            i = i + 1;
        }
        assert(order.take(i as int) =~= order);
        assert(m.restrict(order.to_set()) =~= m);
        n
    }

    fn sum_credits(&self) -> (sum: u128)
        ensures
            sum == total_credits(self.key_statuses@),
    {
        let ghost m = self.key_statuses@;
        let ghost order = self.key_statuses.order();
        let len = self.key_statuses.len();
        let mut sum: u128 = 0;
        let mut i: usize = 0;
        assert(m.restrict(order.take(0).to_set()) =~= Map::<Seq<char>, u32>::empty());
        while i < len
            invariant
                i <= len,
                len == order.len(),
                m == self.key_statuses@,
                order == self.key_statuses.order(),
                order.no_duplicates(),
                order.to_set() == m.dom(),
                m.dom().finite(),
                sum == total_credits(m.restrict(order.take(i as int).to_set())),
                sum <= i * 0xffff_ffff,
            decreases len - i,
        {
            proof {
                let done = order.take(i as int);
                assert(order.take(i + 1) =~= done.push(order[i as int]));
                done.lemma_push_to_set_commute(order[i as int]);
                assert(!done.contains(order[i as int]));
                assert(order.contains(order[i as int]));
                let now = m.restrict(done.to_set());
                assert(now.dom() =~= done.to_set().intersect(m.dom()));
                vstd::set_lib::lemma_set_subset_finite(m.dom(), now.dom());
                lemma_total_insert(now, order[i as int], m[order[i as int]]);
                assert(m.restrict(done.to_set().insert(order[i as int])) =~= now.insert(
                    order[i as int],
                    m[order[i as int]],
                ));
            }
            sum = sum + *self.key_statuses.value_at(i) as u128;
            i = i + 1;
        }
        assert(order.take(i as int) =~= order);
        assert(m.restrict(order.to_set()) =~= m);
        sum
    }

    /// The credits that all keys have left together.
    pub fn total_remaining_credits(&self) -> (sum: u32)
        requires
            total_credits(self.key_statuses@) <= u32::MAX,
        ensures
            sum == total_credits(self.key_statuses@),
    {
        self.sum_credits() as u32
    }

    /// The credits that all keys have left together, where they fit in a `u32`.
    pub fn checked_total_remaining_credits(&self) -> (sum: Option<u32>)
        ensures
            sum == if total_credits(self.key_statuses@) <= u32::MAX {
                Some(total_credits(self.key_statuses@) as u32)
            } else {
                None
            },
    {
        if self.sum_credits() <= 0xffff_ffff {
            Some(self.total_remaining_credits())
        } else {
            None
        }
    }

    /// Notes the credits that a listed key has left.
    pub fn update_key_credit(&mut self, key: &str, new_credit: u32)
        ensures
            final(self).key_statuses@ == credits_with(old(self).key_statuses@, key@, new_credit),
            final(self).metadata == old(self).metadata,
    {
        if self.key_statuses.contains_key(key) {
            self.key_statuses.insert(key.to_owned(), new_credit);
        }
    }

    /// Notes that a key has no credits left.
    pub fn mark_key_invalid(&mut self, key: &str)
        ensures
            final(self).key_statuses@ == old(self).key_statuses@.insert(key@, 0),
            final(self).metadata == old(self).metadata,
    {
        self.key_statuses.insert(key.to_owned(), 0);
    }
}

/// Taking over the same list of keys again changes nothing.
pub proof fn law_same_keys_again(credits: Map<Seq<char>, u32>, keys: Set<Seq<char>>)
    ensures
        credits_for(credits_for(credits, keys), keys) == credits_for(credits, keys),
{
    assert(credits_for(credits_for(credits, keys), keys) =~= credits_for(credits, keys));
}

/// After a list of keys was taken over, exactly its keys are there; those that were there before
/// keep their credits, and the new ones have a month's.
pub proof fn law_listed_keys_only(
    credits: Map<Seq<char>, u32>,
    keys: Set<Seq<char>>,
    k: Seq<char>,
)
    ensures
        credits_for(credits, keys).dom() == keys,
        keys.contains(k) && credits.dom().contains(k) ==> credits_for(credits, keys)[k]
            == credits[k],
        keys.contains(k) && !credits.dom().contains(k) ==> credits_for(credits, keys)[k] == 500,
{
    assert(credits_for(credits, keys).dom() =~= keys);
}

/// A key that is marked invalid is active no more, and every other key is as active as before.
pub proof fn law_invalid_key_is_not_active(credits: Map<Seq<char>, u32>, key: Seq<char>)
    requires
        credits.dom().finite(),
    ensures
        active_keys(credits.insert(key, 0)) == active_keys(credits).remove(key),
        active_keys(credits.insert(key, 0)).len() == active_keys(credits).len() - (if active_keys(
            credits,
        ).contains(key) {
            1int
        } else {
            0int
        }),
{
    assert(active_keys(credits.insert(key, 0)) =~= active_keys(credits).remove(key));
    credits.dom().lemma_len_filter(|k: Seq<char>| credits[k] > 0);
}

proof fn lemma_total_of_equal(credits: Map<Seq<char>, u32>, each: u32)
    requires
        credits.dom().finite(),
        forall|k: Seq<char>| #[trigger] credits.dom().contains(k) ==> credits[k] == each,
    ensures
        total_credits(credits) == credits.dom().len() * each,
    decreases credits.dom().len(),
{
    if credits.dom().len() > 0 {
        let k = credits.dom().choose();
        assert(credits.dom().contains(k));
        let rest = credits.remove(k);
        assert forall|j: Seq<char>| #[trigger] rest.dom().contains(j) implies rest[j] == each by {
            assert(credits.dom().contains(j));
        }
        lemma_total_of_equal(rest, each);
        assert(rest.dom().len() == credits.dom().len() - 1);
        assert(each + rest.dom().len() * each == credits.dom().len() * each) by (nonlinear_arith)
            requires
                rest.dom().len() == credits.dom().len() - 1,
        ;
    }
}

/// In a new month every key is active and has a full month's credits.
pub proof fn law_new_month_restores_credits(state: ApiState, now: LocalTime, loaded: ApiState)
    requires
        rolled_at(state, now, loaded),
        state.key_statuses@.dom().finite(),
        state.metadata.current_month@ != now.label(),
    ensures
        loaded.key_statuses@.dom() == state.key_statuses@.dom(),
        active_keys(loaded.key_statuses@) == state.key_statuses@.dom(),
        total_credits(loaded.key_statuses@) == state.key_statuses@.dom().len() * MONTHLY_CREDITS,
{
    assert(loaded.key_statuses@.dom() =~= state.key_statuses@.dom());
    assert(active_keys(loaded.key_statuses@) =~= state.key_statuses@.dom());
    lemma_total_of_equal(loaded.key_statuses@, MONTHLY_CREDITS);
}

/// Within a month no load changes the credits: what was loaded and is loaded again in the same
/// month is as it was.
pub proof fn law_same_month_keeps_credits(
    state: ApiState,
    now: LocalTime,
    loaded: ApiState,
    later: LocalTime,
    again: ApiState,
)
    requires
        rolled_at(state, now, loaded),
        rolled_at(loaded, later, again),
        later.year == now.year,
        later.month == now.month,
    ensures
        again.key_statuses@ == loaded.key_statuses@,
        again.metadata.current_month@ == loaded.metadata.current_month@,
{
}

/// Every change of month is noticed: what was loaded in one month and is loaded again in another
/// has a full month's credits for every key.
pub proof fn law_other_month_is_noticed(
    state: ApiState,
    now: LocalTime,
    loaded: ApiState,
    later: LocalTime,
    again: ApiState,
    key: Seq<char>,
)
    requires
        now.has_month(),
        later.has_month(),
        rolled_at(state, now, loaded),
        rolled_at(loaded, later, again),
        later.year != now.year || later.month != now.month,
        state.key_statuses@.dom().contains(key),
    ensures
        again.key_statuses@.dom().contains(key),
        again.key_statuses@[key] == MONTHLY_CREDITS,
        again.metadata.current_month@ != loaded.metadata.current_month@,
{
    if now.label() == later.label() {
        crate::clock::law_months_have_own_labels(now, later);
    }
}

/// A key whose credits become known changes the total by what changes for that key.
pub proof fn law_total_follows_credit(
    credits: Map<Seq<char>, u32>,
    key: Seq<char>,
    credit: u32,
)
    requires
        credits.dom().finite(),
        credits.dom().contains(key),
    ensures
        total_credits(credits_with(credits, key, credit)) == total_credits(credits) - credits[key]
            + credit,
{
    let rest = credits.remove(key);
    lemma_total_insert(rest, key, credits[key]);
    lemma_total_insert(rest, key, credit);
    assert(rest.insert(key, credits[key]) =~= credits);
    assert(rest.insert(key, credit) =~= credits.insert(key, credit));
}

/// A state made afresh has no keys, the text of its time, and the label of its month.
pub proof fn law_fresh_state(state: ApiState, now: LocalTime, key: Seq<char>)
    requires
        fresh_at(state, now),
    ensures
        !state.key_statuses@.dom().contains(key),
        state.metadata.last_updated@ == now.rfc3339@,
        state.metadata.current_month@ == now.label(),
{
}

/// A stored state is loaded with its own keys and the time of its last update. In its own month it
/// keeps all credits; in any other month each of its keys has 500 again.
pub proof fn law_loaded_state(stored: ApiState, now: LocalTime, loaded: ApiState, key: Seq<char>)
    requires
        loaded_at(Some(stored), now, loaded),
    ensures
        loaded.key_statuses@.dom() == stored.key_statuses@.dom(),
        stored.metadata.current_month@ == now.label() ==> loaded.key_statuses@
            == stored.key_statuses@,
        stored.metadata.current_month@ != now.label() && stored.key_statuses@.dom().contains(key)
            ==> loaded.key_statuses@[key] == 500,
        loaded.metadata.current_month@ == now.label(),
        loaded.metadata.last_updated@ == stored.metadata.last_updated@,
{
    assert(loaded.key_statuses@.dom() =~= stored.key_statuses@.dom());
}

/// Where nothing is stored, what is loaded has no keys and is of its time.
pub proof fn law_loaded_afresh(now: LocalTime, loaded: ApiState, key: Seq<char>)
    requires
        loaded_at(None, now, loaded),
    ensures
        !loaded.key_statuses@.dom().contains(key),
        loaded.metadata.last_updated@ == now.rfc3339@,
        loaded.metadata.current_month@ == now.label(),
{
}

/// A stamp sets the time of the last update, and changes neither keys, credits nor month.
pub proof fn law_stamp_sets_time_only(state: ApiState, now: LocalTime, stamped: ApiState)
    requires
        stamped_at(state, now, stamped),
    ensures
        stamped.metadata.last_updated@ == now.rfc3339@,
        stamped.metadata.current_month@ == state.metadata.current_month@,
        stamped.key_statuses@ == state.key_statuses@,
{
}

/// A key is in the set of a list exactly if it stands in the list.
pub proof fn law_key_set_is_the_list(keys: Seq<String>, key: Seq<char>)
    ensures
        key_set(keys).contains(key) <==> exists|i: int|
            0 <= i < keys.len() && (#[trigger] keys[i])@ == key,
{
    let all = keys.map_values(|k: String| k@);
    if key_set(keys).contains(key) {
        let i = choose|i: int| 0 <= i < all.len() && all[i] == key;
        assert(keys[i]@ == key);
    }
    if exists|i: int| 0 <= i < keys.len() && (#[trigger] keys[i])@ == key {
        let i = choose|i: int| 0 <= i < keys.len() && (#[trigger] keys[i])@ == key;
        assert(all[i] == key);
    }
}

/// A key is active exactly if it is listed with more than no credits.
pub proof fn law_active_means_credits(credits: Map<Seq<char>, u32>, key: Seq<char>)
    ensures
        active_keys(credits).contains(key) <==> credits.dom().contains(key) && credits[key] > 0,
{
}

/// The total is what the credits of all keys add up to, each key counted once, in whatever order
/// they are taken.
pub proof fn law_total_is_the_sum(credits: Map<Seq<char>, u32>, keys: Seq<Seq<char>>)
    requires
        keys.no_duplicates(),
        keys.to_set() == credits.dom(),
    ensures
        total_credits(credits) == keys.fold_left(0int, |sum: int, k: Seq<char>| sum + credits[k]),
    decreases keys.len(),
{
    if keys.len() == 0 {
        assert(credits.dom() =~= Set::<Seq<char>>::empty());
    } else {
        let rest = keys.drop_last();
        let key = keys.last();
        let fewer = credits.remove(key);
        let with_all = |sum: int, k: Seq<char>| sum + credits[k];
        let with_fewer = |sum: int, k: Seq<char>| sum + fewer[k];
        assert(keys =~= rest.push(key));
        rest.lemma_push_to_set_commute(key);
        assert(!rest.contains(key));
        assert(rest.to_set() =~= fewer.dom());
        law_total_is_the_sum(fewer, rest);
        lemma_same_sum(rest, with_fewer, with_all);
        vstd::seq_lib::seq_to_set_is_finite(rest);
        lemma_total_insert(fewer, key, credits[key]);
        assert(fewer.insert(key, credits[key]) =~= credits);
    }
}

proof fn lemma_same_sum(
    keys: Seq<Seq<char>>,
    f: spec_fn(int, Seq<char>) -> int,
    g: spec_fn(int, Seq<char>) -> int,
)
    requires
        forall|sum: int, i: int| 0 <= i < keys.len() ==> #[trigger] f(sum, keys[i]) == g(sum, keys[i]),
    ensures
        keys.fold_left(0int, f) == keys.fold_left(0int, g),
    decreases keys.len(),
{
    if keys.len() > 0 {
        let rest = keys.drop_last();
        assert forall|sum: int, i: int| 0 <= i < rest.len() implies #[trigger] f(sum, rest[i]) == g(
            sum,
            rest[i],
        ) by {
            assert(rest[i] == keys[i]);
            assert(f(sum, keys[i]) == g(sum, keys[i]));
        }
        lemma_same_sum(rest, f, g);
        let sum = rest.fold_left(0int, f);
        assert(f(sum, keys[keys.len() - 1]) == g(sum, keys[keys.len() - 1]));
    }
}

/// What becomes known of a key is noted for that key if it is listed, and for no other key.
pub proof fn law_noted_credit(
    credits: Map<Seq<char>, u32>,
    key: Seq<char>,
    credit: u32,
    other: Seq<char>,
)
    ensures
        credits_with(credits, key, credit).dom() == credits.dom(),
        credits.dom().contains(key) ==> credits_with(credits, key, credit)[key] == credit,
        other != key && credits.dom().contains(other) ==> credits_with(credits, key, credit)[other]
            == credits[other],
{
    assert(credits_with(credits, key, credit).dom() =~= credits.dom());
}

/// The file of the state goes by this name, and a month has so many credits.
pub proof fn law_name_of_the_state_file()
    ensures
        STATE_FILE@ == ".tinypngx_state.toml"@,
        MONTHLY_CREDITS == 500,
{
}

/// What is loaded at some time: in the month of the stored state its credits, in another month 500
/// for each of its keys.
pub proof fn law_what_is_loaded(
    stored: ApiState,
    now: LocalTime,
    loaded: ApiState,
    key: Seq<char>,
)
    requires
        call_ensures(ApiState::load_at, (Some(stored), now), loaded),
        stored.key_statuses@.dom().contains(key),
    ensures
        loaded.key_statuses@.dom() == stored.key_statuses@.dom(),
        stored.metadata.current_month@ == now.label() ==> loaded.key_statuses@[key]
            == stored.key_statuses@[key],
        stored.metadata.current_month@ != now.label() ==> loaded.key_statuses@[key] == 500,
        loaded.metadata.current_month@ == now.label(),
        loaded.metadata.last_updated@ == stored.metadata.last_updated@,
{
    law_loaded_state(stored, now, loaded, key);
}

/// A state that is made at some time is of that time and has no keys.
pub proof fn law_what_is_made_afresh(now: LocalTime, state: ApiState, key: Seq<char>)
    requires
        call_ensures(ApiState::new_at, (now,), state),
    ensures
        !state.key_statuses@.dom().contains(key),
        state.metadata.last_updated@ == now.rfc3339@,
        state.metadata.current_month@ == now.label(),
{
}

} // verus!
