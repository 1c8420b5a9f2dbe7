//! The client's view of its API keys: what each has left, how it was used, and which to take.

use crate::state::ApiState;
use crate::table::KeyTable;
use vstd::prelude::*;

verus! {

/// How a key was used. Times are nanoseconds on one monotonic clock.
#[derive(Clone, Copy)]
pub struct KeyStat {
    /// How many compressions succeeded with it.
    pub successes: u32,
    pub last_used: u64,
}

/// What the score of a key is made of.
#[derive(Clone, Copy)]
pub struct Standing {
    /// The credits that it has left.
    pub credits: u32,
    /// How many compressions succeeded with it.
    pub successes: u32,
    /// For how many whole seconds it was not used.
    pub idle_secs: u64,
}

/// The keys in use, with what is known of each.
pub struct TinifyClient {
    pub keys: Vec<String>,
    pub state: ApiState,
    pub key_stats: KeyTable<KeyStat>,
}

/// After how many seconds an exchange with the service is given up.
pub const REQUEST_TIMEOUT_SECS: u64 = 120;

/// For how many seconds an idle connection is kept.
pub const POOL_IDLE_TIMEOUT_SECS: u64 = 300;

/// After how many idle seconds a connection is probed.
pub const KEEPALIVE_SECS: u64 = 60;

/// How many seconds pass between probes.
pub const KEEPALIVE_INTERVAL_SECS: u64 = 30;

/// Nanoseconds in a second.
pub const NANOS_PER_SEC: u64 = 1_000_000_000;

/// The credits of a key, none where it is not listed.
pub open spec fn credits_of(credits: Map<Seq<char>, u32>, key: Seq<char>) -> u32 {
    if credits.dom().contains(key) {
        credits[key]
    } else {
        0
    }
}

/// The keys of a list that have credits left, in their order.
pub open spec fn available(keys: Seq<Seq<char>>, credits: Map<Seq<char>, u32>) -> Seq<Seq<char>> {
    keys.filter(|k: Seq<char>| credits_of(credits, k) > 0)
}

/// The time between two moments, none where the first is the later one.
pub open spec fn since(then: u64, now: u64) -> nat {
    if then <= now {
        (now - then) as nat
    } else {
        0
    }
}

/// How a key stands at a given time; one that was never used stands as if it were used now.
pub open spec fn standing_of(
    credits: Map<Seq<char>, u32>,
    stats: Map<Seq<char>, KeyStat>,
    key: Seq<char>,
    now: u64,
) -> Standing {
    Standing {
        credits: credits_of(credits, key),
        successes: if stats.dom().contains(key) {
            stats[key].successes
        } else {
            0
        },
        idle_secs: if stats.dom().contains(key) {
            (since(stats[key].last_used, now) / NANOS_PER_SEC as nat) as u64
        } else {
            0
        },
    }
}

/// The statistics after a key was used once more.
pub open spec fn stats_after(
    stats: Map<Seq<char>, KeyStat>,
    key: Seq<char>,
    success: bool,
    now: u64,
) -> Map<Seq<char>, KeyStat> {
    let before = if stats.dom().contains(key) {
        stats[key].successes
    } else {
        0
    };
    stats.insert(
        key,
        KeyStat {
            successes: if success {
                (before + 1) as u32
            } else {
                before
            },
            last_used: now,
        },
    )
}

/// One more success of a key can still be counted.
pub open spec fn can_count(stats: Map<Seq<char>, KeyStat>, key: Seq<char>) -> bool {
    stats.dom().contains(key) ==> stats[key].successes < u32::MAX
}

/// The place of the highest rank, the first of them where several are equal.
pub open spec fn is_first_highest(ranks: Seq<i64>, best: int) -> bool {
    &&& 0 <= best < ranks.len()
    &&& forall|i: int| 0 <= i < ranks.len() ==> #[trigger] ranks[i] <= ranks[best]
    &&& forall|i: int| 0 <= i < best ==> #[trigger] ranks[i] < ranks[best]
}

/// The key to take: of those available the one that ranks highest, or, with none available, the
/// first key of all, or no key at all.
pub open spec fn is_best_key(
    keys: Seq<Seq<char>>,
    available: Seq<Seq<char>>,
    ranks: Seq<i64>,
    key: Seq<char>,
) -> bool {
    if available.len() > 0 {
        exists|best: int| #[trigger] is_first_highest(ranks, best) && key == available[best]
    } else if keys.len() > 0 {
        key == keys[0]
    } else {
        key == Seq::<char>::empty()
    }
}

/// The rank of a score, of which the bits of its IEEE 754 representation are given: below the
/// sign bit the bits themselves, from there on downwards.
pub open spec fn rank_of(score_bits: u64) -> int {
    if score_bits < 0x8000_0000_0000_0000 {
        score_bits as int
    } else {
        0x7fff_ffff_ffff_ffff - score_bits
    }
}

/// The rank of a score, of which the bits of its IEEE 754 representation are given.
pub fn score_rank(score_bits: u64) -> (rank: i64)
    ensures
        rank == rank_of(score_bits),
{
    if score_bits < 0x8000_0000_0000_0000 {
        score_bits as i64
    } else {
        -((score_bits - 0x8000_0000_0000_0000) as i64) - 1
    }
}

/// Ranks are in the order of the numbers: by magnitude where the sign bit is clear, against it
/// where it is set, and all of the latter below all of the former.
pub proof fn law_ranks_follow_scores(a: u64, b: u64)
    ensures
        a < 0x8000_0000_0000_0000 && b < 0x8000_0000_0000_0000 ==> (rank_of(a) < rank_of(b) <==> a
            < b),
        a >= 0x8000_0000_0000_0000 && b >= 0x8000_0000_0000_0000 ==> (rank_of(a) < rank_of(b) <==> a
            > b),
        a >= 0x8000_0000_0000_0000 && b < 0x8000_0000_0000_0000 ==> rank_of(a) < rank_of(b),
{
}

/// The views of a list of keys.
pub open spec fn views(keys: Seq<String>) -> Seq<Seq<char>> {
    keys.map_values(|k: String| k@)
}

impl TinifyClient {
    /// A client that has used none of its keys yet.
    pub fn new(keys: Vec<String>, initial_state: ApiState, now: u64) -> (client: TinifyClient)
        ensures
            client.keys == keys,
            client.state == initial_state,
            client.key_stats@ == Map::new(
                |k: Seq<char>| crate::state::key_set(keys@).contains(k),
                |k: Seq<char>| KeyStat { successes: 0, last_used: now },
            ),
    {
        let mut key_stats: KeyTable<KeyStat> = KeyTable::new();
        let stat = KeyStat { successes: 0, last_used: now };
        let ghost all = keys@.map_values(|k: String| k@);
        assert(all.take(0).to_set() =~= Set::<Seq<char>>::empty());
        let mut i: usize = 0;
        while i < keys.len()
            invariant
                i <= keys.len(),
                all == keys@.map_values(|k: String| k@),
                stat == (KeyStat { successes: 0, last_used: now }),
                key_stats@ =~= Map::new(
                    |k: Seq<char>| all.take(i as int).to_set().contains(k),
                    |k: Seq<char>| KeyStat { successes: 0, last_used: now },
                ),
            decreases keys.len() - i,
        {
            proof {
                assert(all.take(i + 1) =~= all.take(i as int).push(all[i as int]));
                all.take(i as int).lemma_push_to_set_commute(all[i as int]);
            }
            key_stats.insert(keys[i].clone(), stat);
            i = i + 1;
        }
        assert(all.take(i as int) =~= all);
        TinifyClient { keys, state: initial_state, key_stats }
    }

    /// How many keys have credits left.
    pub fn get_active_key_count(&self) -> (n: usize)
        ensures
            n == crate::state::active_keys(self.state.key_statuses@).len(),
    {
        self.state.active_keys_count()
    }

    fn credits(&self, key: &String) -> (n: u32)
        ensures
            n == credits_of(self.state.key_statuses@, key@),
    {
        match self.state.key_statuses.get(key.as_str()) {
            Some(n) => *n,
            None => 0,
        }
    }

    /// The keys that have credits left, in their order.
    pub fn available_keys(&self) -> (found: Vec<String>)
        ensures
            views(found@) == available(views(self.keys@), self.state.key_statuses@),
    {
        let ghost all = views(self.keys@);
        let ghost has_credits = |k: Seq<char>| credits_of(self.state.key_statuses@, k) > 0;
        let mut found: Vec<String> = Vec::new();
        let mut i: usize = 0;
        proof {
            reveal(Seq::filter);
        }
        assert(views(found@) =~= all.take(0).filter(has_credits));
        while i < self.keys.len()
            invariant
                i <= self.keys.len(),
                all == views(self.keys@),
                has_credits == (|k: Seq<char>| credits_of(self.state.key_statuses@, k) > 0),
                views(found@) == all.take(i as int).filter(has_credits),
            decreases self.keys.len() - i,
        {
            let ghost before = found@;
            assert(all[i as int] == self.keys@[i as int]@);
            assert(all.take(i + 1) =~= all.take(i as int).push(all[i as int]));
            proof {
                all.take(i as int).lemma_filter_push(all[i as int], has_credits);
            }
            if self.credits(&self.keys[i]) > 0 {
                found.push(self.keys[i].clone());
                assert(views(found@) =~= views(before).push(all[i as int]));
            }
            i = i + 1;
        }
        assert(all.take(i as int) =~= all);
        found
    }

    /// How some keys stand at a given time.
    pub fn standings(&self, keys: &Vec<String>, now: u64) -> (found: Vec<Standing>)
        ensures
            found@ == views(keys@).map_values(
                |k: Seq<char>|
                    standing_of(self.state.key_statuses@, self.key_stats@, k, now),
            ),
    {
        let ghost all = views(keys@);
        let ghost of = |k: Seq<char>|
            standing_of(self.state.key_statuses@, self.key_stats@, k, now);
        let mut found: Vec<Standing> = Vec::new();
        let mut i: usize = 0;
        while i < keys.len()
            invariant
                i <= keys.len(),
                all == views(keys@),
                of == (|k: Seq<char>|
                    standing_of(self.state.key_statuses@, self.key_stats@, k, now)),
                found@ =~= all.take(i as int).map_values(of),
            decreases keys.len() - i,
        {
            assert(all[i as int] == keys@[i as int]@);
            let credits = self.credits(&keys[i]);
            let standing = match self.key_stats.get(keys[i].as_str()) {
                Some(stat) => Standing {
                    credits,
                    successes: stat.successes,
                    idle_secs: now.saturating_sub(stat.last_used) / NANOS_PER_SEC,
                },
                None => Standing { credits, successes: 0, idle_secs: 0 },
            };
            assert(standing == of(all[i as int]));
            found.push(standing);
            i = i + 1;
        }
        assert(all.take(i as int) =~= all);
        found
    }

    /// The key to take, by the ranks of the available keys. Ranks are ordered as the keys' scores.
    pub fn select_best_key(&self, available: &Vec<String>, ranks: &Vec<i64>) -> (key: String)
        requires
            ranks.len() == available.len(),
        ensures
            is_best_key(views(self.keys@), views(available@), ranks@, key@),
    {
        if available.len() == 0 {
            if self.keys.len() == 0 {
                return String::new();
            }
            assert(views(self.keys@)[0] == self.keys@[0]@);
            return self.keys[0].clone();
        }
        let mut best: usize = 0;
        let mut i: usize = 1;
        while i < ranks.len()
            invariant
                best < i <= ranks.len(),
                forall|j: int| 0 <= j < i ==> #[trigger] ranks@[j] <= ranks@[best as int],
                forall|j: int| 0 <= j < best ==> #[trigger] ranks@[j] < ranks@[best as int],
            decreases ranks.len() - i,
        {
            if ranks[i] > ranks[best] {
                best = i;
            }
            i = i + 1;
        }
        assert(is_first_highest(ranks@, best as int));
        assert(views(available@)[best as int] == available@[best as int]@);
        available[best].clone()
    }

    /// Counts one more use of a key.
    pub fn update_key_stats(&mut self, key: &str, success: bool, now: u64)
        requires
            success ==> can_count(old(self).key_stats@, key@),
        ensures
            final(self).key_stats@ == stats_after(old(self).key_stats@, key@, success, now),
            final(self).keys == old(self).keys,
            final(self).state == old(self).state,
    {
        let before: u32 = match self.key_stats.get(key) {
            Some(stat) => stat.successes,
            None => 0,
        };
        let successes = if success {
            before + 1
        } else {
            before
        };
        self.key_stats.insert(key.to_owned(), KeyStat { successes, last_used: now });
    }

    /// Tells whether one more success of a key can be counted.
    pub fn can_count_success(&self, key: &str) -> (r: bool)
        ensures
            r == can_count(self.key_stats@, key@),
    {
        match self.key_stats.get(key) {
            Some(stat) => stat.successes < 0xffff_ffff,
            None => true,
        }
    }

    /// Notes that a key has no credits left.
    pub fn mark_key_invalid(&mut self, key: &str)
        ensures
            final(self).state.key_statuses@ == old(self).state.key_statuses@.insert(key@, 0),
            final(self).state.metadata == old(self).state.metadata,
            final(self).keys == old(self).keys,
            final(self).key_stats == old(self).key_stats,
    {
        self.state.mark_key_invalid(key);
    }

    /// Notes the credits that a listed key has left.
    pub fn update_key_credit(&mut self, key: &str, credit: u32)
        ensures
            final(self).state.key_statuses@ == crate::state::credits_with(
                old(self).state.key_statuses@,
                key@,
                credit,
            ),
            final(self).state.metadata == old(self).state.metadata,
            final(self).keys == old(self).keys,
            final(self).key_stats == old(self).key_stats,
    {
        self.state.update_key_credit(key, credit);
    }
}

/// The chosen key is one of the client's keys, and it has credits left whenever one of them has.
pub proof fn law_best_key_has_credits(
    keys: Seq<Seq<char>>,
    credits: Map<Seq<char>, u32>,
    ranks: Seq<i64>,
    key: Seq<char>,
)
    requires
        ranks.len() == available(keys, credits).len(),
        is_best_key(keys, available(keys, credits), ranks, key),
    ensures
        keys.len() > 0 ==> keys.contains(key),
        (exists|k: Seq<char>| #[trigger] keys.contains(k) && credits_of(credits, k) > 0)
            ==> credits_of(credits, key) > 0,
{
    let has_credits = |k: Seq<char>| credits_of(credits, k) > 0;
    let found = available(keys, credits);
    broadcast use vstd::seq_lib::group_filter_ensures;

    if found.len() > 0 {
        let best = choose|best: int| #[trigger]
            is_first_highest(ranks, best) && key == found[best];
        assert(has_credits(found[best]));
        assert(found.contains(key));
        keys.lemma_filter_contains_rev(has_credits, key);
    } else {
        assert forall|k: Seq<char>| #[trigger] keys.contains(k) implies credits_of(credits, k)
            == 0 by {
            let i = choose|i: int| 0 <= i < keys.len() && keys[i] == k;
            if has_credits(keys[i]) {
                assert(found.contains(keys[i]));
            }
        }
        if keys.len() > 0 {
            assert(keys[0] == key);
        }
    }
}

/// The ranks leave no choice: two keys chosen by the same ranks are the same.
pub proof fn law_best_key_is_unique(
    keys: Seq<Seq<char>>,
    available: Seq<Seq<char>>,
    ranks: Seq<i64>,
    a: Seq<char>,
    b: Seq<char>,
)
    requires
        is_best_key(keys, available, ranks, a),
        is_best_key(keys, available, ranks, b),
    ensures
        a == b,
{
    if available.len() > 0 {
        let i = choose|best: int| #[trigger] is_first_highest(ranks, best) && a == available[best];
        let j = choose|best: int| #[trigger] is_first_highest(ranks, best) && b == available[best];
        if i < j {
            assert(ranks[i] < ranks[j]);
            assert(ranks[j] <= ranks[i]);
        }
        if j < i {
            assert(ranks[j] < ranks[i]);
            assert(ranks[i] <= ranks[j]);
        }
    }
}

/// The view of a list has the view of each key at its place.
pub proof fn law_views_are_of_the_keys(keys: Seq<String>, i: int)
    ensures
        views(keys).len() == keys.len(),
        0 <= i < keys.len() ==> views(keys)[i] == keys[i]@,
{
}

/// A key has the credits that are listed for it, and none where it is not listed.
pub proof fn law_credits_are_as_listed(credits: Map<Seq<char>, u32>, key: Seq<char>)
    ensures
        credits.dom().contains(key) ==> credits_of(credits, key) == credits[key],
        !credits.dom().contains(key) ==> credits_of(credits, key) == 0,
{
}

/// Of a list of keys those are available, in their order, that are listed with credits left: with
/// one more key at its end, that key is available after all others, or nothing changes.
pub proof fn law_available_keys_in_order(
    keys: Seq<Seq<char>>,
    key: Seq<char>,
    credits: Map<Seq<char>, u32>,
)
    ensures
        available(seq![], credits) == Seq::<Seq<char>>::empty(),
        available(keys.push(key), credits) == if credits.dom().contains(key) && credits[key] > 0 {
            available(keys, credits).push(key)
        } else {
            available(keys, credits)
        },
{
    reveal(Seq::filter);
    keys.lemma_filter_push(key, |k: Seq<char>| credits_of(credits, k) > 0);
    assert(available(seq![], credits) =~= Seq::<Seq<char>>::empty());
}

/// How a key stands: with exactly the credits that are listed for it, with all its successes, and
/// idle for the whole seconds that have passed since it was used last.
pub proof fn law_standing_is_as_known(
    credits: Map<Seq<char>, u32>,
    stats: Map<Seq<char>, KeyStat>,
    key: Seq<char>,
    now: u64,
)
    ensures
        credits.dom().contains(key) ==> standing_of(credits, stats, key, now).credits
            == credits[key],
        !credits.dom().contains(key) ==> standing_of(credits, stats, key, now).credits == 0,
        stats.dom().contains(key) ==> {
            let standing = standing_of(credits, stats, key, now);
            &&& standing.successes == stats[key].successes
            &&& stats[key].last_used <= now ==> standing.idle_secs * 1_000_000_000 <= now
                - stats[key].last_used < (standing.idle_secs + 1) * 1_000_000_000
            &&& stats[key].last_used > now ==> standing.idle_secs == 0
        },
        !stats.dom().contains(key) ==> standing_of(credits, stats, key, now).successes == 0
            && standing_of(credits, stats, key, now).idle_secs == 0,
{
}

/// Of two listed keys the one with more credits stands with more credits, and the one with more
/// successes with more successes.
pub proof fn law_standings_compare_as_the_keys(
    credits: Map<Seq<char>, u32>,
    stats: Map<Seq<char>, KeyStat>,
    a: Seq<char>,
    b: Seq<char>,
    now: u64,
)
    requires
        credits.dom().contains(a),
        credits.dom().contains(b),
        stats.dom().contains(a),
        stats.dom().contains(b),
    ensures
        standing_of(credits, stats, a, now).credits < standing_of(credits, stats, b, now).credits
            <==> credits[a] < credits[b],
        standing_of(credits, stats, a, now).successes < standing_of(
            credits,
            stats,
            b,
            now,
        ).successes <==> stats[a].successes < stats[b].successes,
        stats[a].last_used <= stats[b].last_used ==> standing_of(credits, stats, b, now).idle_secs
            <= standing_of(credits, stats, a, now).idle_secs,
{
    let then = stats[a].last_used;
    if then <= stats[b].last_used <= now {
        vstd::arithmetic::div_mod::lemma_div_is_ordered(
            now - stats[b].last_used,
            now - then,
            1_000_000_000,
        );
    }
}

/// A use of a key counts one more success if it was one, dates the key, and touches no other key.
pub proof fn law_use_is_counted(
    stats: Map<Seq<char>, KeyStat>,
    key: Seq<char>,
    success: bool,
    now: u64,
    other: Seq<char>,
)
    requires
        success && stats.dom().contains(key) ==> stats[key].successes < 0xffff_ffff,
    ensures
        stats_after(stats, key, success, now).dom() == stats.dom().insert(key),
        stats_after(stats, key, success, now)[key].last_used == now,
        stats_after(stats, key, success, now)[key].successes == (if stats.dom().contains(key) {
            stats[key].successes as int
        } else {
            0
        }) + (if success {
            1int
        } else {
            0
        }),
        other != key && stats.dom().contains(other) ==> stats_after(stats, key, success, now)[other]
            == stats[other],
{
    assert(stats_after(stats, key, success, now).dom() =~= stats.dom().insert(key));
}

/// One more success can be counted of every key but one that has as many as can be counted.
pub proof fn law_success_can_be_counted(stats: Map<Seq<char>, KeyStat>, key: Seq<char>)
    ensures
        !can_count(stats, key) <==> stats.dom().contains(key) && stats[key].successes
            == 0xffff_ffff,
{
}

/// The available key with the highest rank is taken, and of several such the first.
pub proof fn law_highest_rank_is_taken(
    keys: Seq<Seq<char>>,
    available: Seq<Seq<char>>,
    ranks: Seq<i64>,
    key: Seq<char>,
    i: int,
)
    requires
        is_best_key(keys, available, ranks, key),
        ranks.len() == available.len(),
        0 <= i < ranks.len(),
        forall|j: int| 0 <= j < ranks.len() ==> #[trigger] ranks[j] <= ranks[i],
        forall|j: int| 0 <= j < i ==> #[trigger] ranks[j] < ranks[i],
    ensures
        key == available[i],
{
    let best = choose|best: int| #[trigger]
        is_first_highest(ranks, best) && key == available[best];
    assert(ranks[i] <= ranks[best]);
    assert(ranks[best] <= ranks[i]);
    if best < i {
        assert(ranks[best] < ranks[i]);
    }
    if i < best {
        assert(ranks[i] < ranks[best]);
    }
}

/// With no key available the first key of all is taken, and with no key at all the empty one.
pub proof fn law_first_key_is_the_last_resort(
    keys: Seq<Seq<char>>,
    ranks: Seq<i64>,
    key: Seq<char>,
)
    requires
        is_best_key(keys, seq![], ranks, key),
    ensures
        keys.len() > 0 ==> key == keys[0],
        keys.len() == 0 ==> key.len() == 0,
{
}

/// The limits that the service's exchanges are held to, in seconds.
pub proof fn law_limits_of_an_exchange()
    ensures
        REQUEST_TIMEOUT_SECS == 120,
        POOL_IDLE_TIMEOUT_SECS == 300,
        KEEPALIVE_SECS == 60,
        KEEPALIVE_INTERVAL_SECS == 30,
{
}

/// A new client has its keys, its state as it was given, and each key as unused: without a success,
/// and dated when the client was made.
pub proof fn law_new_client(
    keys: Vec<String>,
    state: ApiState,
    now: u64,
    client: TinifyClient,
    i: int,
)
    requires
        call_ensures(TinifyClient::new, (keys, state, now), client),
        0 <= i < keys@.len(),
    ensures
        client.keys@ == keys@,
        client.state == state,
        client.key_stats@.dom().contains(keys@[i]@),
        client.key_stats@[keys@[i]@].successes == 0,
        client.key_stats@[keys@[i]@].last_used == now,
{
    crate::state::law_key_set_is_the_list(keys@, keys@[i]@);
}

/// Each key that is handed in gets a standing of its own, at its place, with the credits that the
/// client's state lists for it and the successes that were counted for it.
pub proof fn law_standings_are_of_the_keys(
    client: TinifyClient,
    keys: Vec<String>,
    now: u64,
    found: Vec<Standing>,
    i: int,
)
    requires
        call_ensures(TinifyClient::standings, (&client, &keys, now), found),
    ensures
        found@.len() == keys@.len(),
        0 <= i < keys@.len() && client.state.key_statuses@.dom().contains(keys@[i]@)
            ==> found@[i].credits == client.state.key_statuses@[keys@[i]@],
        0 <= i < keys@.len() && !client.state.key_statuses@.dom().contains(keys@[i]@)
            ==> found@[i].credits == 0,
        0 <= i < keys@.len() && client.key_stats@.dom().contains(keys@[i]@) ==> found@[i].successes
            == client.key_stats@[keys@[i]@].successes,
{
}

/// The key that is taken is the first of those that rank highest; without an available key it is
/// the first of all.
pub proof fn law_key_that_is_taken(
    client: TinifyClient,
    available: Vec<String>,
    ranks: Vec<i64>,
    key: String,
    i: int,
)
    requires
        call_ensures(TinifyClient::select_best_key, (&client, &available, &ranks), key),
        ranks@.len() == available@.len(),
        0 <= i < ranks@.len() ==> forall|j: int|
            0 <= j < ranks@.len() ==> #[trigger] ranks@[j] <= ranks@[i],
        0 <= i < ranks@.len() ==> forall|j: int|
            0 <= j < i ==> #[trigger] ranks@[j] < ranks@[i],
    ensures
        0 <= i < ranks@.len() ==> key@ == available@[i]@,
        ranks@.len() == 0 && client.keys@.len() > 0 ==> key@ == client.keys@[0]@,
        ranks@.len() == 0 && client.keys@.len() == 0 ==> key@.len() == 0,
{
    if 0 <= i < ranks@.len() {
        law_highest_rank_is_taken(views(client.keys@), views(available@), ranks@, key@, i);
    }
}

/// Of two scores, given by their bits, the larger number has the higher rank.
pub proof fn law_rank_of_the_larger_score(a: u64, b: u64, rank_a: i64, rank_b: i64)
    requires
        call_ensures(score_rank, (a,), rank_a),
        call_ensures(score_rank, (b,), rank_b),
    ensures
        a < 0x8000_0000_0000_0000 && b < 0x8000_0000_0000_0000 ==> (rank_a < rank_b <==> a < b),
        a >= 0x8000_0000_0000_0000 && b >= 0x8000_0000_0000_0000 ==> (rank_a < rank_b <==> a > b),
        a >= 0x8000_0000_0000_0000 && b < 0x8000_0000_0000_0000 ==> rank_a < rank_b,
{
    law_ranks_follow_scores(a, b);
}

} // verus!
