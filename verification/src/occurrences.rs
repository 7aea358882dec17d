//! The counted multiset of tokens: its mathematical model, the four primitive
//! operations on a hash map from token to occurrence count, and the laws that
//! relate them.

use vstd::hash_map::StringHashMap;
use vstd::prelude::*;

verus! {

/// The ceiling of an occurrence count.
pub const MAX_OCCURRENCES: u32 = 0xFFFF_FFFFu32;

/// How many occurrences of `token` the multiset `m` holds. A missing key counts
/// as zero.
pub open spec fn count_of(m: Map<Seq<char>, u32>, token: Seq<char>) -> nat {
    if m.contains_key(token) {
        m[token] as nat
    } else {
        0
    }
}

/// `n + 1`, held at the ceiling.
pub open spec fn saturating_succ(n: u32) -> u32 {
    if n < MAX_OCCURRENCES {
        (n + 1) as u32
    } else {
        n
    }
}

/// The multiset after one `tell` of `token`: a new key starts at one, a known
/// key goes up by one unless it stands at the ceiling.
pub open spec fn after_tell(m: Map<Seq<char>, u32>, token: Seq<char>) -> Map<Seq<char>, u32> {
    if m.contains_key(token) {
        m.insert(token, saturating_succ(m[token]))
    } else {
        m.insert(token, 1u32)
    }
}

/// What `ask` answers: the key is there and its count is positive.
pub open spec fn ask_answer(m: Map<Seq<char>, u32>, token: Seq<char>) -> bool {
    m.contains_key(token) && m[token] > 0
}

/// What `nask` answers: the key is missing or its count is zero.
pub open spec fn nask_answer(m: Map<Seq<char>, u32>, token: Seq<char>) -> bool {
    !m.contains_key(token) || m[token] == 0
}

/// The multiset after one `get` of `token`: one occurrence less where there was
/// one, and otherwise the same map, with no key added.
pub open spec fn after_get(m: Map<Seq<char>, u32>, token: Seq<char>) -> Map<Seq<char>, u32> {
    if ask_answer(m, token) {
        m.insert(token, (m[token] - 1) as u32)
    } else {
        m
    }
}

/// The token and count of each pair, the token taken by its characters.
pub open spec fn views_of(data: Seq<(String, u32)>) -> Seq<(Seq<char>, u32)> {
    data.map_values(|entry: (String, u32)| (entry.0@, entry.1))
}

/// The multiset that a list of pairs describes. Of two pairs with one token the
/// later stands.
pub open spec fn from_entries(entries: Seq<(Seq<char>, u32)>) -> Map<Seq<char>, u32>
    decreases entries.len(),
{
    if entries.len() == 0 {
        Map::empty()
    } else {
        from_entries(entries.drop_last()).insert(entries.last().0, entries.last().1)
    }
}

/// Adds one to `nbr` unless it is the largest count.
pub fn safe_inc(nbr: u32) -> (res: u32)
    ensures
        res == saturating_succ(nbr),
{
    if nbr < MAX_OCCURRENCES {
        nbr + 1
    } else {
        nbr
    }
}

/// The count stored under `token`, if the key is there.
pub fn stored(map: &StringHashMap<u32>, token: &str) -> (res: Option<u32>)
    ensures
        res == (if map@.contains_key(token@) {
            Some(map@[token@])
        } else {
            None
        }),
{
    match map.get(token) {
        Some(n) => Some(*n),
        None => None,
    }
}

/// Records one more occurrence of `token`.
pub fn tell_in(map: &mut StringHashMap<u32>, token: String) -> (res: bool)
    ensures
        res,
        final(map)@ == after_tell(old(map)@, token@),
{
    let next: u32 = match stored(map, token.as_str()) {
        Some(n) => safe_inc(n),
        None => 1,
    };
    map.insert(token, next);
    true
}

/// Says whether at least one occurrence of `token` is there.
pub fn ask_in(map: &StringHashMap<u32>, token: &str) -> (res: bool)
    ensures
        res == ask_answer(map@, token@),
{
    match stored(map, token) {
        Some(n) => n > 0,
        None => false,
    }
}

/// Takes one occurrence of `token` out, if there is one.
pub fn get_in(map: &mut StringHashMap<u32>, token: String) -> (res: bool)
    ensures
        res == ask_answer(old(map)@, token@),
        final(map)@ == after_get(old(map)@, token@),
{
    match stored(map, token.as_str()) {
        Some(n) => {
            if n > 0 {
                map.insert(token, n - 1);
                true
            } else {
                false
            }
        },
        None => false,
    }
}

/// Says whether no occurrence of `token` is there.
pub fn nask_in(map: &StringHashMap<u32>, token: &str) -> (res: bool)
    ensures
        res == nask_answer(map@, token@),
{
    match stored(map, token) {
        Some(n) => n == 0,
        None => true,
    }
}

/// The multiset after `tell` of `token`, `k` times over.
pub open spec fn tell_times(m: Map<Seq<char>, u32>, token: Seq<char>, k: nat) -> Map<Seq<char>, u32>
    decreases k,
{
    if k == 0 {
        m
    } else {
        after_tell(tell_times(m, token, (k - 1) as nat), token)
    }
}

/// The multiset after `get` of `token`, `j` times over.
pub open spec fn get_times(m: Map<Seq<char>, u32>, token: Seq<char>, j: nat) -> Map<Seq<char>, u32>
    decreases j,
{
    if j == 0 {
        m
    } else {
        after_get(get_times(m, token, (j - 1) as nat), token)
    }
}

/// `ask` is the test `count >= 1`, and `nask` the test `count == 0`: the two
/// never agree.
pub proof fn lemma_answers_follow_count(m: Map<Seq<char>, u32>, token: Seq<char>)
    ensures
        ask_answer(m, token) <==> count_of(m, token) >= 1,
        nask_answer(m, token) <==> count_of(m, token) == 0,
        ask_answer(m, token) != nask_answer(m, token),
{
}

/// A `tell` adds one to the count of its token, up to the ceiling, and leaves
/// every other token's count alone.
pub proof fn lemma_tell_counts(m: Map<Seq<char>, u32>, token: Seq<char>, other: Seq<char>)
    ensures
        count_of(after_tell(m, token), token) == if count_of(m, token) < MAX_OCCURRENCES {
            count_of(m, token) + 1
        } else {
            MAX_OCCURRENCES as nat
        },
        other != token ==> count_of(after_tell(m, token), other) == count_of(m, other),
{
}

/// A `get` takes one from the count of its token where that is positive, and
/// leaves every other token's count alone. It never adds a key.
pub proof fn lemma_get_counts(m: Map<Seq<char>, u32>, token: Seq<char>, other: Seq<char>)
    ensures
        count_of(after_get(m, token), token) == if count_of(m, token) >= 1 {
            (count_of(m, token) - 1) as nat
        } else {
            0
        },
        other != token ==> count_of(after_get(m, token), other) == count_of(m, other),
        after_get(m, token).dom() == m.dom(),
{
    if ask_answer(m, token) {
        assert(after_get(m, token).dom() =~= m.dom());
    }
}

/// After a `tell` of a token, `ask` of that token answers `true` and `nask`
/// answers `false`, whatever the store held before.
pub proof fn lemma_tell_then_ask(m: Map<Seq<char>, u32>, token: Seq<char>)
    ensures
        ask_answer(after_tell(m, token), token),
        !nask_answer(after_tell(m, token), token),
{
}

/// On the empty store `get` answers `false` and the store stays empty: no key
/// is made.
pub proof fn lemma_get_on_empty(token: Seq<char>)
    ensures
        !ask_answer(Map::<Seq<char>, u32>::empty(), token),
        after_get(Map::<Seq<char>, u32>::empty(), token) == Map::<Seq<char>, u32>::empty(),
{
}

/// After `k` times `tell` the count of the token is its old count plus `k`, held
/// at the ceiling.
pub proof fn lemma_tell_times_count(m: Map<Seq<char>, u32>, token: Seq<char>, k: nat)
    ensures
        count_of(tell_times(m, token, k), token) == if count_of(m, token) + k
            <= MAX_OCCURRENCES {
            count_of(m, token) + k
        } else {
            MAX_OCCURRENCES as nat
        },
    decreases k,
{
    if k > 0 {
        lemma_tell_times_count(m, token, (k - 1) as nat);
        lemma_tell_counts(tell_times(m, token, (k - 1) as nat), token, token);
    }
}

/// After `j` times `get` the count of the token is its old count less `j`, and
/// zero where it had fewer than `j`.
pub proof fn lemma_get_times_count(m: Map<Seq<char>, u32>, token: Seq<char>, j: nat)
    ensures
        count_of(get_times(m, token, j), token) == if j <= count_of(m, token) {
            (count_of(m, token) - j) as nat
        } else {
            0
        },
    decreases j,
{
    if j > 0 {
        lemma_get_times_count(m, token, (j - 1) as nat);
        lemma_get_counts(get_times(m, token, (j - 1) as nat), token, token);
    }
}

/// `k` times `tell` and then `j` times `get` of one token, with `j <= k`, leave
/// its count `k - j` above what it was, as long as the tells stay under the
/// ceiling; `ask` and `nask` then answer by that count.
pub proof fn lemma_tells_then_gets(m: Map<Seq<char>, u32>, token: Seq<char>, k: nat, j: nat)
    requires
        j <= k,
        count_of(m, token) + k <= MAX_OCCURRENCES,
    ensures
        count_of(get_times(tell_times(m, token, k), token, j), token) == count_of(m, token) + k
            - j,
        ask_answer(get_times(tell_times(m, token, k), token, j), token) <==> count_of(m, token)
            + k - j >= 1,
        nask_answer(get_times(tell_times(m, token, k), token, j), token) <==> count_of(m, token)
            + k - j == 0,
{
    lemma_tell_times_count(m, token, k);
    lemma_get_times_count(tell_times(m, token, k), token, j);
    lemma_answers_follow_count(get_times(tell_times(m, token, k), token, j), token);
}

/// One `tell` more than the ceiling leaves the count at the ceiling exactly,
/// whatever the store held before.
pub proof fn lemma_tell_saturates(m: Map<Seq<char>, u32>, token: Seq<char>)
    ensures
        count_of(tell_times(m, token, MAX_OCCURRENCES as nat + 1), token) == MAX_OCCURRENCES,
{
    lemma_tell_times_count(m, token, MAX_OCCURRENCES as nat + 1);
}

/// In a cleared store `ask` answers `false` and `nask` answers `true` for every
/// token.
pub proof fn lemma_cleared_answers(token: Seq<char>)
    ensures
        !ask_answer(Map::<Seq<char>, u32>::empty(), token),
        nask_answer(Map::<Seq<char>, u32>::empty(), token),
{
}

} // verus!
