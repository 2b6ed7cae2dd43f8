//! Leaderboard ranking over time windows.
//!
//! Each participating address owns one leaderboard row: an accumulated
//! experience score and the timestamp of its last update. For a given time
//! window the ranking keeps the rows whose timestamp lies at or after the
//! window's cutoff (the comparison is inclusive), orders them by descending
//! score with ties broken by ascending timestamp and then by ascending
//! address bytes, and reports the top three rows with their achievement
//! counts, the number of participants in the window, and the 1-based rank
//! of a target address. The rank reflects the same ordering as the
//! displayed top rows.
//!
//! Addresses are held as their canonical byte strings, as the storage
//! layer hands them out.

use vstd::prelude::*;
use vstd::seq_lib::lemma_multiset_commutative;
use vstd::multiset::Multiset;
use crate::errors::{get_error, ErrorResponse, ERROR_STATUS};

verus! {

/// The query parameters of the leaderboard endpoint: the target address.
pub struct GetLeaderboardInfoQuery {
    pub addr: String,
}

/// One leaderboard row: an address, its accumulated score, and the
/// timestamp (milliseconds) of its last update.
pub struct LeaderboardEntry {
    pub address: Vec<u8>,
    pub xp: u64,
    pub timestamp: i64,
}

/// One of the top rows of a ranking, with its achievement count.
pub struct BestUser {
    pub address: Vec<u8>,
    pub xp: u64,
    pub achievements: usize,
}

/// The ranking of one time window.
pub struct RankResult {
    pub best_users: Vec<BestUser>,
    pub total_users: usize,
    pub position: Option<usize>,
}

/// The combined ranking over the three windows.
pub struct LeaderboardResponse {
    pub weekly: RankResult,
    pub monthly: RankResult,
    pub all_time: RankResult,
}

/// Strict lexicographic order on byte strings.
pub open spec fn lex_lt(a: Seq<u8>, b: Seq<u8>) -> bool
    decreases a.len(),
{
    if b.len() == 0 {
        false
    } else if a.len() == 0 {
        true
    } else if a[0] < b[0] {
        true
    } else if a[0] > b[0] {
        false
    } else {
        lex_lt(a.drop_first(), b.drop_first())
    }
}

proof fn lemma_lex_lt_skip(a: Seq<u8>, b: Seq<u8>, i: int)
    requires
        0 <= i <= a.len(),
        i <= b.len(),
        forall|j: int| 0 <= j < i ==> a[j] == b[j],
    ensures
        lex_lt(a, b) == lex_lt(a.skip(i), b.skip(i)),
    decreases i,
{
    if i == 0 {
        assert(a.skip(0) =~= a);
        assert(b.skip(0) =~= b);
    } else {
        assert(a[0] == b[0]);
        let a1 = a.drop_first();
        let b1 = b.drop_first();
        assert(forall|j: int| 0 <= j < i - 1 ==> a1[j] == b1[j]);
        lemma_lex_lt_skip(a1, b1, i - 1);
        assert(a1.skip(i - 1) =~= a.skip(i));
        assert(b1.skip(i - 1) =~= b.skip(i));
    }
}

proof fn lemma_lex_lt_trans(a: Seq<u8>, b: Seq<u8>, c: Seq<u8>)
    requires
        lex_lt(a, b),
        lex_lt(b, c),
    ensures
        lex_lt(a, c),
    decreases a.len(),
{
    if a.len() > 0 && b.len() > 0 && c.len() > 0 {
        if a[0] == b[0] && b[0] == c[0] {
            lemma_lex_lt_trans(a.drop_first(), b.drop_first(), c.drop_first());
        }
    }
}

proof fn lemma_lex_total(a: Seq<u8>, b: Seq<u8>)
    ensures
        lex_lt(a, b) || lex_lt(b, a) || a == b,
    decreases a.len(),
{
    if a.len() == 0 && b.len() == 0 {
        assert(a =~= b);
    } else if a.len() > 0 && b.len() > 0 {
        if a[0] == b[0] {
            lemma_lex_total(a.drop_first(), b.drop_first());
            assert(lex_lt(a, b) == lex_lt(a.drop_first(), b.drop_first()));
            assert(lex_lt(b, a) == lex_lt(b.drop_first(), a.drop_first()));
            if !lex_lt(a, b) && !lex_lt(b, a) {
                assert(a.drop_first() == b.drop_first());
                assert(forall|k: int| 1 <= k < a.len() ==> a[k] == a.drop_first()[k - 1]);
                assert(forall|k: int| 1 <= k < b.len() ==> b[k] == b.drop_first()[k - 1]);
                assert(a =~= b);
            }
        }
    }
}

/// Whether `a` comes at or before `b` in byte order.
fn bytes_le(a: &Vec<u8>, b: &Vec<u8>) -> (r: bool)
    ensures
        r == (lex_lt(a@, b@) || a@ == b@),
{
    let mut i: usize = 0;
    while i < a.len() && i < b.len()
        invariant
            0 <= i <= a@.len(),
            i <= b@.len(),
            forall|j: int| 0 <= j < i ==> a@[j] == b@[j],
        decreases a@.len() - i,
    {
        let x = a[i];
        let y = b[i];
        if x < y {
            proof {
                lemma_lex_lt_skip(a@, b@, i as int);
                assert(a@.skip(i as int)[0] == x);
                assert(b@.skip(i as int)[0] == y);
                assert(lex_lt(a@.skip(i as int), b@.skip(i as int)));
            }
            return true;
        }
        if x > y {
            proof {
                lemma_lex_lt_skip(a@, b@, i as int);
                assert(a@.skip(i as int)[0] == x);
                assert(b@.skip(i as int)[0] == y);
                assert(!lex_lt(a@.skip(i as int), b@.skip(i as int)));
                assert(a@[i as int] != b@[i as int]);
            }
            return false;
        }
        i = i + 1;
    }
    proof {
        lemma_lex_lt_skip(a@, b@, i as int);
    }
    if a.len() == b.len() {
        proof {
            assert(a@ =~= b@);
        }
        true
    } else if a.len() < b.len() {
        proof {
            assert(a@.skip(i as int).len() == 0);
            assert(b@.skip(i as int).len() > 0);
        }
        true
    } else {
        proof {
            assert(b@.skip(i as int).len() == 0);
            assert(a@.len() != b@.len());
        }
        false
    }
}

/// Whether two byte strings are equal.
fn bytes_eq(a: &Vec<u8>, b: &Vec<u8>) -> (r: bool)
    ensures
        r == (a@ == b@),
{
    if a.len() != b.len() {
        return false;
    }
    let mut i: usize = 0;
    while i < a.len()
        invariant
            a@.len() == b@.len(),
            0 <= i <= a@.len(),
            forall|j: int| 0 <= j < i ==> a@[j] == b@[j],
        decreases a@.len() - i,
    {
        if a[i] != b[i] {
            return false;
        }
        i = i + 1;
    }
    proof {
        assert(a@ =~= b@);
    }
    true
}

/// Strict ranking order: higher score first, then older update, then
/// smaller address bytes.
pub open spec fn entry_lt(a: LeaderboardEntry, b: LeaderboardEntry) -> bool {
    a.xp > b.xp || (a.xp == b.xp && (a.timestamp < b.timestamp || (a.timestamp == b.timestamp
        && lex_lt(a.address@, b.address@))))
}

/// The ranking order, reflexive on rows that compare equal everywhere.
pub open spec fn entry_le(a: LeaderboardEntry, b: LeaderboardEntry) -> bool {
    entry_lt(a, b) || (a.xp == b.xp && a.timestamp == b.timestamp && a.address@ == b.address@)
}

proof fn lemma_entry_le_total(a: LeaderboardEntry, b: LeaderboardEntry)
    ensures
        entry_le(a, b) || entry_le(b, a),
{
    if a.xp == b.xp && a.timestamp == b.timestamp {
        lemma_lex_total(a.address@, b.address@);
    }
}

proof fn lemma_entry_le_trans(a: LeaderboardEntry, b: LeaderboardEntry, c: LeaderboardEntry)
    requires
        entry_le(a, b),
        entry_le(b, c),
    ensures
        entry_le(a, c),
{
    if a.xp == b.xp && b.xp == c.xp && a.timestamp == b.timestamp && b.timestamp == c.timestamp {
        if lex_lt(a.address@, b.address@) && lex_lt(b.address@, c.address@) {
            lemma_lex_lt_trans(a.address@, b.address@, c.address@);
        }
    }
}

/// Whether `a` comes at or before `b` in the ranking order.
fn entry_before(a: &LeaderboardEntry, b: &LeaderboardEntry) -> (r: bool)
    ensures
        r == entry_le(*a, *b),
{
    if a.xp > b.xp {
        true
    } else if a.xp < b.xp {
        false
    } else if a.timestamp < b.timestamp {
        true
    } else if a.timestamp > b.timestamp {
        false
    } else {
        bytes_le(&a.address, &b.address)
    }
}

/// Insertion of a row into an already ranked sequence, at the first place
/// where it comes at or before the row standing there.
pub open spec fn insert_ranked(e: LeaderboardEntry, s: Seq<LeaderboardEntry>) -> Seq<
    LeaderboardEntry,
>
    decreases s.len(),
{
    if s.len() == 0 {
        seq![e]
    } else if entry_le(e, s[0]) {
        seq![e] + s
    } else {
        seq![s[0]] + insert_ranked(e, s.drop_first())
    }
}

/// The ranking of a sequence of rows: insertion sort under the ranking
/// order. This is the ordering the leaderboard displays and ranks by.
pub open spec fn rank_seq(s: Seq<LeaderboardEntry>) -> Seq<LeaderboardEntry>
    decreases s.len(),
{
    if s.len() == 0 {
        Seq::empty()
    } else {
        insert_ranked(s[0], rank_seq(s.drop_first()))
    }
}

proof fn lemma_insert_ranked_len(e: LeaderboardEntry, s: Seq<LeaderboardEntry>)
    ensures
        insert_ranked(e, s).len() == s.len() + 1,
    decreases s.len(),
{
    if s.len() > 0 && !entry_le(e, s[0]) {
        lemma_insert_ranked_len(e, s.drop_first());
    }
}

/// The length of a ranking equals the number of rows ranked.
pub proof fn lemma_rank_seq_len(s: Seq<LeaderboardEntry>)
    ensures
        rank_seq(s).len() == s.len(),
    decreases s.len(),
{
    if s.len() > 0 {
        lemma_rank_seq_len(s.drop_first());
        lemma_insert_ranked_len(s[0], rank_seq(s.drop_first()));
    }
}

proof fn lemma_insert_ranked_at(e: LeaderboardEntry, s: Seq<LeaderboardEntry>, i: int)
    requires
        0 <= i <= s.len(),
        forall|j: int| 0 <= j < i ==> !entry_le(e, s[j]),
        i < s.len() ==> entry_le(e, s[i]),
    ensures
        insert_ranked(e, s) == s.insert(i, e),
    decreases i,
{
    if i == 0 {
        if s.len() == 0 {
            assert(insert_ranked(e, s) =~= s.insert(0, e));
        } else {
            assert(entry_le(e, s[0]));
            assert(seq![e] + s =~= s.insert(0, e));
        }
    } else {
        assert(!entry_le(e, s[0]));
        let t = s.drop_first();
        assert(forall|j: int| 0 <= j < i - 1 ==> t[j] == s[j + 1]);
        lemma_insert_ranked_at(e, t, i - 1);
        assert(seq![s[0]] + t.insert(i - 1, e) =~= s.insert(i, e));
    }
}

/// Every row of an insertion is the inserted row or one of the rows it was
/// inserted among.
proof fn lemma_insert_ranked_elems(e: LeaderboardEntry, s: Seq<LeaderboardEntry>)
    ensures
        forall|k: int|
            0 <= k < insert_ranked(e, s).len() ==> (#[trigger] insert_ranked(e, s)[k]) == e
                || s.contains(insert_ranked(e, s)[k]),
    decreases s.len(),
{
    if s.len() == 0 {
    } else if entry_le(e, s[0]) {
        assert(forall|k: int|
            1 <= k < (seq![e] + s).len() ==> (seq![e] + s)[k] == s[k - 1] && s.contains(s[k - 1]));
    } else {
        let t = s.drop_first();
        lemma_insert_ranked_elems(e, t);
        assert forall|k: int|
            0 <= k < insert_ranked(e, s).len() implies (#[trigger] insert_ranked(e, s)[k]) == e
            || s.contains(insert_ranked(e, s)[k]) by {
            let r = seq![s[0]] + insert_ranked(e, t);
            assert(insert_ranked(e, s) == r);
            if k == 0 {
                assert(r[0] == s[0]);
                assert(s.contains(s[0]));
            } else {
                assert(r[k] == insert_ranked(e, t)[k - 1]);
                if insert_ranked(e, t)[k - 1] != e {
                    assert(t.contains(insert_ranked(e, t)[k - 1]));
                    let m = choose|m: int| 0 <= m < t.len() && t[m] == insert_ranked(e, t)[k - 1];
                    assert(s[m + 1] == t[m]);
                }
            }
        }
    }
}

/// A sequence sorted under the ranking order.
pub open spec fn sorted_ranked(s: Seq<LeaderboardEntry>) -> bool {
    forall|i: int, j: int| 0 <= i < j < s.len() ==> entry_le(s[i], s[j])
}

proof fn lemma_insert_ranked_sorted(e: LeaderboardEntry, s: Seq<LeaderboardEntry>)
    requires
        sorted_ranked(s),
    ensures
        sorted_ranked(insert_ranked(e, s)),
    decreases s.len(),
{
    if s.len() == 0 {
    } else if entry_le(e, s[0]) {
        let r = seq![e] + s;
        assert forall|i: int, j: int| 0 <= i < j < r.len() implies entry_le(r[i], r[j]) by {
            if i == 0 {
                assert(r[0] == e);
                assert(r[j] == s[j - 1]);
                if j - 1 > 0 {
                    lemma_entry_le_trans(e, s[0], s[j - 1]);
                }
            } else {
                assert(r[i] == s[i - 1] && r[j] == s[j - 1]);
            }
        }
    } else {
        let t = s.drop_first();
        assert(forall|j: int| 0 <= j < t.len() ==> t[j] == s[j + 1]);
        lemma_insert_ranked_sorted(e, t);
        lemma_insert_ranked_elems(e, t);
        lemma_entry_le_total(e, s[0]);
        assert(entry_le(s[0], e));
        let r = seq![s[0]] + insert_ranked(e, t);
        assert forall|i: int, j: int| 0 <= i < j < r.len() implies entry_le(r[i], r[j]) by {
            if i == 0 {
                assert(r[j] == insert_ranked(e, t)[j - 1]);
                if insert_ranked(e, t)[j - 1] == e {
                } else {
                    assert(t.contains(insert_ranked(e, t)[j - 1]));
                    let m = choose|m: int|
                        0 <= m < t.len() && t[m] == insert_ranked(e, t)[j - 1];
                    assert(entry_le(s[0], s[m + 1]));
                }
            } else {
                assert(r[i] == insert_ranked(e, t)[i - 1]);
                assert(r[j] == insert_ranked(e, t)[j - 1]);
            }
        }
    }
}

/// Law: a ranking is sorted — descending score, ties broken by ascending
/// timestamp, then by ascending address bytes.
pub proof fn lemma_rank_seq_sorted(s: Seq<LeaderboardEntry>)
    ensures
        sorted_ranked(rank_seq(s)),
    decreases s.len(),
{
    if s.len() > 0 {
        lemma_rank_seq_sorted(s.drop_first());
        lemma_insert_ranked_sorted(s[0], rank_seq(s.drop_first()));
    }
}

proof fn lemma_insert_ranked_multiset(e: LeaderboardEntry, s: Seq<LeaderboardEntry>)
    ensures
        insert_ranked(e, s).to_multiset() =~= s.to_multiset().insert(e),
    decreases s.len(),
{
    broadcast use vstd::seq_lib::group_to_multiset_ensures;
    broadcast use vstd::multiset::group_multiset_axioms;

    if s.len() == 0 {
        assert(seq![e] =~= Seq::<LeaderboardEntry>::empty().push(e));
    } else if entry_le(e, s[0]) {
        lemma_multiset_commutative(seq![e], s);
        assert(seq![e] =~= Seq::<LeaderboardEntry>::empty().push(e));
        assert(seq![e].to_multiset() =~= Multiset::<LeaderboardEntry>::empty().insert(e));
    } else {
        let t = s.drop_first();
        lemma_insert_ranked_multiset(e, t);
        lemma_multiset_commutative(seq![s[0]], insert_ranked(e, t));
        lemma_multiset_commutative(seq![s[0]], t);
        assert(seq![s[0]] + t =~= s);
        assert(seq![s[0]] =~= Seq::<LeaderboardEntry>::empty().push(s[0]));
    }
}

/// Law: a ranking is a permutation of the rows ranked — nothing is lost,
/// nothing is invented.
pub proof fn lemma_rank_seq_permutes(s: Seq<LeaderboardEntry>)
    ensures
        rank_seq(s).to_multiset() =~= s.to_multiset(),
    decreases s.len(),
{
    broadcast use vstd::seq_lib::group_to_multiset_ensures;
    broadcast use vstd::multiset::group_multiset_axioms;

    if s.len() > 0 {
        let t = s.drop_first();
        lemma_rank_seq_permutes(t);
        lemma_insert_ranked_multiset(s[0], rank_seq(t));
        lemma_multiset_commutative(seq![s[0]], t);
        assert(seq![s[0]] + t =~= s);
        assert(seq![s[0]] =~= Seq::<LeaderboardEntry>::empty().push(s[0]));
    }
}

fn find_insert_pos(v: &Vec<LeaderboardEntry>, e: &LeaderboardEntry) -> (i: usize)
    ensures
        0 <= i <= v@.len(),
        forall|j: int| 0 <= j < i ==> !entry_le(*e, v@[j]),
        i < v@.len() ==> entry_le(*e, v@[i as int]),
{
    let mut i: usize = 0;
    loop
        invariant
            0 <= i <= v@.len(),
            forall|j: int| 0 <= j < i ==> !entry_le(*e, v@[j]),
        decreases v@.len() - i,
    {
        if i == v.len() {
            return i;
        }
        if entry_before(e, &v[i]) {
            return i;
        }
        i = i + 1;
    }
}

fn insert_entry(v: &mut Vec<LeaderboardEntry>, e: LeaderboardEntry)
    ensures
        final(v)@ == insert_ranked(e, old(v)@),
{
    let i = find_insert_pos(v, &e);
    let ghost s = v@;
    v.insert(i, e);
    proof {
        lemma_insert_ranked_at(e, s, i as int);
    }
}

/// Rank a set of rows: the returned vector holds the same rows, sorted
/// under the ranking order.
pub fn rank_entries(entries: Vec<LeaderboardEntry>) -> (r: Vec<LeaderboardEntry>)
    ensures
        r@ == rank_seq(entries@),
{
    let ghost s = entries@;
    let mut rest = entries;
    let mut acc: Vec<LeaderboardEntry> = Vec::new();
    proof {
        assert(s.skip(s.len() as int) =~= Seq::<LeaderboardEntry>::empty());
        assert(rest@ =~= s.take(s.len() as int));
    }
    while rest.len() > 0
        invariant
            rest@.len() <= s.len(),
            rest@ == s.take(rest@.len() as int),
            acc@ == rank_seq(s.skip(rest@.len() as int)),
        decreases rest@.len(),
    {
        let ghost k = rest@.len() as int;
        let e = rest.pop().unwrap();
        proof {
            assert(e == s[k - 1]);
            assert(rest@ =~= s.take(k - 1));
        }
        insert_entry(&mut acc, e);
        proof {
            let t = s.skip(k - 1);
            assert(t.len() > 0);
            assert(t[0] == s[k - 1]);
            assert(t.drop_first() =~= s.skip(k));
            assert(rank_seq(t) == insert_ranked(t[0], rank_seq(t.drop_first())));
        }
    }
    proof {
        assert(s.skip(0) =~= s);
    }
    acc
}

/// Whether a row lies inside a window: its timestamp is at or after the
/// cutoff (the boundary is included).
pub open spec fn in_window(e: LeaderboardEntry, cutoff: int) -> bool {
    e.timestamp >= cutoff
}

/// The rows of a sequence that lie inside the window, in their order.
pub open spec fn window_of(s: Seq<LeaderboardEntry>, cutoff: int) -> Seq<LeaderboardEntry>
    decreases s.len(),
{
    if s.len() == 0 {
        Seq::empty()
    } else if in_window(s.last(), cutoff) {
        window_of(s.drop_last(), cutoff).push(s.last())
    } else {
        window_of(s.drop_last(), cutoff)
    }
}

/// Law: a cutoff at or below every row's timestamp keeps every row. In
/// particular, since the zero cutoff lies at or below every non-negative
/// timestamp, a window with cutoff zero is the unbounded window.
pub proof fn lemma_window_keeps_all(s: Seq<LeaderboardEntry>, cutoff: int)
    requires
        forall|i: int| 0 <= i < s.len() ==> s[i].timestamp >= cutoff,
    ensures
        window_of(s, cutoff) == s,
    decreases s.len(),
{
    if s.len() > 0 {
        assert(forall|i: int|
            0 <= i < s.drop_last().len() ==> (#[trigger] s.drop_last()[i]).timestamp >= cutoff);
        lemma_window_keeps_all(s.drop_last(), cutoff);
        assert(s.drop_last().push(s.last()) =~= s);
    }
}

/// Law: two cutoffs that both lie at or below every row's timestamp make
/// the same window, and so the same ranking. In particular, for rows with
/// non-negative timestamps the zero cutoff — what a window of zero or
/// negative days computes — is the unbounded window.
pub proof fn lemma_cutoffs_agree_below_data(s: Seq<LeaderboardEntry>, c1: int, c2: int)
    requires
        forall|i: int| 0 <= i < s.len() ==> s[i].timestamp >= c1,
        forall|i: int| 0 <= i < s.len() ==> s[i].timestamp >= c2,
    ensures
        window_of(s, c1) == window_of(s, c2),
        ranked_of(s, c1) == ranked_of(s, c2),
{
    lemma_window_keeps_all(s, c1);
    lemma_window_keeps_all(s, c2);
}

/// Keep the rows that lie inside the window, in their order.
pub fn filter_window(entries: Vec<LeaderboardEntry>, cutoff: i64) -> (r: Vec<LeaderboardEntry>)
    ensures
        r@ == window_of(entries@, cutoff as int),
{
    let ghost s = entries@;
    let mut rest = entries;
    let mut out: Vec<LeaderboardEntry> = Vec::new();
    proof {
        assert(rest@ =~= s.skip(0));
        assert(s.take(0) =~= Seq::<LeaderboardEntry>::empty());
    }
    while rest.len() > 0
        invariant
            rest@.len() <= s.len(),
            rest@ == s.skip(s.len() - rest@.len()),
            out@ == window_of(s.take(s.len() - rest@.len()), cutoff as int),
        decreases rest@.len(),
    {
        let ghost i = s.len() - rest@.len();
        let e = rest.remove(0);
        proof {
            assert(e == s.skip(i)[0]);
            assert(e == s[i]);
            assert(rest@ =~= s.skip(i + 1));
            assert(s.take(i + 1).drop_last() =~= s.take(i));
            assert(s.take(i + 1).last() == s[i]);
        }
        if e.timestamp >= cutoff {
            out.push(e);
        }
    }
    proof {
        assert(s.take(s.len() as int) =~= s);
    }
    out
}

/// How many achievement records name an address.
pub open spec fn count_addr(achievements: Seq<Vec<u8>>, addr: Seq<u8>) -> int
    decreases achievements.len(),
{
    if achievements.len() == 0 {
        0
    } else {
        count_addr(achievements.drop_last(), addr) + if achievements.last()@ == addr {
            1int
        } else {
            0int
        }
    }
}

/// Count the achievement records naming `addr`.
fn count_achievements(achievements: &Vec<Vec<u8>>, addr: &Vec<u8>) -> (n: usize)
    ensures
        n == count_addr(achievements@, addr@),
{
    let mut n: usize = 0;
    let mut i: usize = 0;
    while i < achievements.len()
        invariant
            0 <= i <= achievements@.len(),
            n <= i,
            n == count_addr(achievements@.take(i as int), addr@),
        decreases achievements@.len() - i,
    {
        proof {
            assert(achievements@.take(i as int + 1).drop_last() =~= achievements@.take(i as int));
            assert(achievements@.take(i as int + 1).last() == achievements@[i as int]);
        }
        if bytes_eq(&achievements[i], addr) {
            n = n + 1;
        }
        i = i + 1;
    }
    proof {
        assert(achievements@.take(achievements@.len() as int) =~= achievements@);
    }
    n
}

fn find_position(ranked: &Vec<LeaderboardEntry>, addr: &Vec<u8>) -> (p: Option<usize>)
    ensures
        match p {
            Some(q) => 1 <= q <= ranked@.len() && ranked@[q - 1].address@ == addr@ && (forall|
                j: int,
            | 0 <= j < q - 1 ==> ranked@[j].address@ != addr@),
            None => forall|j: int| 0 <= j < ranked@.len() ==> ranked@[j].address@ != addr@,
        },
{
    let mut i: usize = 0;
    while i < ranked.len()
        invariant
            0 <= i <= ranked@.len(),
            forall|j: int| 0 <= j < i ==> ranked@[j].address@ != addr@,
        decreases ranked@.len() - i,
    {
        if bytes_eq(&ranked[i].address, addr) {
            return Some(i + 1);
        }
        i = i + 1;
    }
    None
}

/// How many rows of a ranking are displayed: at most three.
pub open spec fn top_len(n: int) -> int {
    if n < 3 {
        n
    } else {
        3
    }
}

fn best_of(ranked: Vec<LeaderboardEntry>, achievements: &Vec<Vec<u8>>) -> (b: Vec<BestUser>)
    ensures
        b@.len() == top_len(ranked@.len() as int),
        forall|i: int|
            0 <= i < b@.len() ==> (#[trigger] b@[i]).address@ == ranked@[i].address@ && b@[i].xp
                == ranked@[i].xp && b@[i].achievements == count_addr(
                achievements@,
                ranked@[i].address@,
            ),
{
    let ghost s = ranked@;
    let mut rest = ranked;
    let mut b: Vec<BestUser> = Vec::new();
    proof {
        assert(rest@ =~= s.skip(0));
    }
    while b.len() < 3 && rest.len() > 0
        invariant
            b@.len() <= s.len(),
            b@.len() <= 3,
            rest@ == s.skip(b@.len() as int),
            forall|i: int|
                0 <= i < b@.len() ==> (#[trigger] b@[i]).address@ == s[i].address@ && b@[i].xp
                    == s[i].xp && b@[i].achievements == count_addr(achievements@, s[i].address@),
        decreases s.len() - b@.len(),
    {
        let ghost i = b@.len() as int;
        let e = rest.remove(0);
        proof {
            assert(e == s.skip(i)[0]);
            assert(e == s[i]);
            assert(rest@ =~= s.skip(i + 1));
        }
        let n = count_achievements(achievements, &e.address);
        b.push(BestUser { address: e.address, xp: e.xp, achievements: n });
    }
    b
}

/// The ranking of a window: the rows inside it, sorted by the ranking
/// order.
pub open spec fn ranked_of(s: Seq<LeaderboardEntry>, cutoff: int) -> Seq<LeaderboardEntry> {
    rank_seq(window_of(s, cutoff))
}

/// The whole contract of one window's ranking: the displayed rows are the
/// first of the window's ranking with their achievement counts, the total
/// is the window's size, and the position is the 1-based rank of the first
/// row carrying the target address, absent when no row does.
pub open spec fn is_rank_result(
    entries: Seq<LeaderboardEntry>,
    achievements: Seq<Vec<u8>>,
    cutoff: int,
    addr: Seq<u8>,
    r: RankResult,
) -> bool {
    let ranked = ranked_of(entries, cutoff);
    &&& r.total_users == window_of(entries, cutoff).len()
    &&& r.best_users@.len() == top_len(ranked.len() as int)
    &&& (forall|i: int|
        0 <= i < r.best_users@.len() ==> (#[trigger] r.best_users@[i]).address@
            == ranked[i].address@ && r.best_users@[i].xp == ranked[i].xp
            && r.best_users@[i].achievements == count_addr(achievements, ranked[i].address@))
    &&& match r.position {
        Some(p) => 1 <= p <= ranked.len() && ranked[p - 1].address@ == addr && (forall|j: int|
            0 <= j < p - 1 ==> ranked[j].address@ != addr),
        None => forall|j: int| 0 <= j < ranked.len() ==> ranked[j].address@ != addr,
    }
}

/// Law: in the unbounded window — cutoff zero over rows with non-negative
/// timestamps — a rank result counts every row, displays min(3, n) rows in
/// descending score, each drawn from the dataset, and no row of the
/// remaining ranking scores higher than a displayed one.
pub proof fn lemma_all_time_top_block(
    entries: Seq<LeaderboardEntry>,
    achievements: Seq<Vec<u8>>,
    addr: Seq<u8>,
    r: RankResult,
)
    requires
        forall|i: int| 0 <= i < entries.len() ==> entries[i].timestamp >= 0,
        is_rank_result(entries, achievements, 0, addr, r),
    ensures
        r.total_users == entries.len(),
        r.best_users@.len() == top_len(entries.len() as int),
        forall|i: int, j: int|
            0 <= i < j < r.best_users@.len() ==> r.best_users@[i].xp >= r.best_users@[j].xp,
        forall|i: int, k: int|
            0 <= i < r.best_users@.len() && r.best_users@.len() <= k < entries.len()
                ==> ranked_of(entries, 0)[k].xp <= r.best_users@[i].xp,
        forall|i: int|
            #![trigger r.best_users@[i]]
            0 <= i < r.best_users@.len() ==> exists|k: int|
                0 <= k < entries.len() && entries[k].xp == r.best_users@[i].xp && entries[k].address@
                    == r.best_users@[i].address@,
{
    broadcast use vstd::seq_lib::group_to_multiset_ensures;

    lemma_window_keeps_all(entries, 0);
    let ranked = ranked_of(entries, 0);
    assert(ranked == rank_seq(entries));
    lemma_rank_seq_len(entries);
    lemma_rank_seq_sorted(entries);
    lemma_rank_seq_permutes(entries);
    assert forall|i: int, j: int|
        0 <= i < j < r.best_users@.len() implies r.best_users@[i].xp >= r.best_users@[j].xp by {
        assert(entry_le(ranked[i], ranked[j]));
        assert(r.best_users@[i].xp == ranked[i].xp);
        assert(r.best_users@[j].xp == ranked[j].xp);
    }
    assert forall|i: int, k: int|
        0 <= i < r.best_users@.len() && r.best_users@.len() <= k
            < entries.len() implies ranked[k].xp <= r.best_users@[i].xp by {
        assert(entry_le(ranked[i], ranked[k]));
        assert(r.best_users@[i].xp == ranked[i].xp);
    }
    assert forall|i: int| #![trigger r.best_users@[i]] 0 <= i < r.best_users@.len() implies exists|
        k: int,
    |
        0 <= k < entries.len() && entries[k].xp == r.best_users@[i].xp && entries[k].address@
            == r.best_users@[i].address@ by {
        assert(ranked.contains(ranked[i]));
        assert(ranked.to_multiset().count(ranked[i]) > 0);
        assert(entries.to_multiset().count(ranked[i]) > 0);
        assert(entries.contains(ranked[i]));
        let k = choose|k: int| 0 <= k < entries.len() && entries[k] == ranked[i];
        assert(entries[k].xp == r.best_users@[i].xp && entries[k].address@
            == r.best_users@[i].address@);
    }
}

/// Rank one time window: keep the rows at or after the cutoff, order them,
/// and report the top three rows with their achievement counts, the number
/// of participants, and the target address's rank.
pub fn rank_window(
    entries: Vec<LeaderboardEntry>,
    achievements: &Vec<Vec<u8>>,
    cutoff: i64,
    addr: &Vec<u8>,
) -> (r: RankResult)
    ensures
        is_rank_result(entries@, achievements@, cutoff as int, addr@, r),
{
    let ghost s = entries@;
    let filtered = filter_window(entries, cutoff);
    let total = filtered.len();
    let ranked = rank_entries(filtered);
    proof {
        lemma_rank_seq_len(window_of(s, cutoff as int));
    }
    let position = find_position(&ranked, addr);
    let best = best_of(ranked, achievements);
    RankResult { best_users: best, total_users: total, position }
}

/// The combined response owed for the three windows: all three present
/// yields the combined mapping, any missing one yields the single generic
/// error (no partial results).
pub open spec fn is_combined(
    weekly: Option<RankResult>,
    monthly: Option<RankResult>,
    all_time: Option<RankResult>,
    r: Result<LeaderboardResponse, ErrorResponse>,
) -> bool {
    match (weekly, monthly, all_time) {
        (Option::Some(w), Option::Some(m), Option::Some(a)) => r matches Ok(resp) && resp.weekly
            == w && resp.monthly == m && resp.all_time == a,
        _ => r matches Err(e) && e.status == ERROR_STATUS && e.message@
            == "Error querying leaderboard"@,
    }
}

/// Combine the three window rankings. A missing ranking (a window whose
/// query returned no data) fails the whole request with one generic error:
/// partial results are never returned.
pub fn combine_leaderboard(
    weekly: Option<RankResult>,
    monthly: Option<RankResult>,
    all_time: Option<RankResult>,
) -> (r: Result<LeaderboardResponse, ErrorResponse>)
    ensures
        is_combined(weekly, monthly, all_time, r),
{
    match (weekly, monthly, all_time) {
        (Option::Some(w), Option::Some(m), Option::Some(a)) => Ok(
            LeaderboardResponse { weekly: w, monthly: m, all_time: a },
        ),
        _ => Err(get_error("Error querying leaderboard".to_owned())),
    }
}

/// The window cutoff: `days` days before `now_ms` for a positive window
/// length, and 0 (no lower bound) otherwise.
pub open spec fn cutoff_of(now_ms: int, days: int) -> int {
    if days > 0 {
        now_ms - days * 86_400_000
    } else {
        0
    }
}

/// Compute the window cutoff from a clock reading.
pub fn window_cutoff(now_ms: i64, days: i64) -> (c: i64)
    requires
        days > 0 ==> days * 86_400_000 <= i64::MAX,
        days > 0 ==> i64::MIN <= now_ms - days * 86_400_000,
    ensures
        c == cutoff_of(now_ms as int, days as int),
{
    if days > 0 {
        proof {
            assert(days * 86_400_000 > 0) by (nonlinear_arith)
                requires
                    days > 0,
            ;
        }
        let span: i64 = days * 86_400_000;
        now_ms - span
    } else {
        0
    }
}

/// Relies on chrono::Utc::now and DateTime::timestamp_millis: the current
/// wall-clock time as milliseconds since the Unix epoch. Utc::now returns
/// only when the system clock stands at or after the epoch, so the reading
/// is non-negative; nothing more is assumed of it.
#[verifier::external_body]
fn now_millis() -> (r: i64)
    ensures
        0 <= r,
{
    chrono::Utc::now().timestamp_millis()
}

/// Compute a window cutoff against the clock's current reading. A
/// non-positive window length means no lower bound; a window too long to
/// measure in representable milliseconds gets the earliest representable
/// cutoff, which likewise bounds nothing real. For a measurable positive
/// window the result is the exact cutoff for some non-negative clock
/// reading; exact cutoff arithmetic is stated by `window_cutoff`, which
/// takes the reading as an argument.
pub fn live_window_cutoff(days: i64) -> (c: i64)
    ensures
        days <= 0 ==> c == 0,
        days > 0 && days <= i64::MAX / 86_400_000 ==> exists|now: int|
            0 <= now && c == cutoff_of(now, days as int),
        days > i64::MAX / 86_400_000 ==> c == i64::MIN,
{
    if days > 0 {
        if days <= i64::MAX / 86_400_000 {
            proof {
                assert(days * 86_400_000 <= i64::MAX && days * 86_400_000 > 0)
                    by (nonlinear_arith)
                    requires
                        0 < days <= i64::MAX / 86_400_000,
                ;
            }
            let now = now_millis();
            let c = window_cutoff(now, days);
            proof {
                assert(0 <= now as int && c == cutoff_of(now as int, days as int));
            }
            c
        } else {
            i64::MIN
        }
    } else {
        0
    }
}

} // verus!
