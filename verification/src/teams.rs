//! Ghost theory of team rosters.
//!
//! A lobby's players are a sequence of teams, each an ordered sequence of
//! player ids. This module defines the spec-level vocabulary the engine's
//! contracts are written in — the flattened roster, occurrence counts, the
//! smallest-team choice, removal of a player, and the greedy placement used
//! by the settings reshuffle — together with the lemmas that relate them.

use vstd::prelude::*;

use crate::types::PlayerId;

verus! {

/// How many times `p` occurs in `s`.
pub open spec fn occ_in(s: Seq<PlayerId>, p: PlayerId) -> nat
    decreases s.len(),
{
    if s.len() == 0 {
        0
    } else {
        occ_in(s.drop_last(), p) + if s.last() == p {
            1nat
        } else {
            0nat
        }
    }
}

/// The roster of a lobby: all teams concatenated, team-ascending, keeping
/// the order inside each team.
pub open spec fn flat(teams: Seq<Seq<PlayerId>>) -> Seq<PlayerId>
    decreases teams.len(),
{
    if teams.len() == 0 {
        Seq::empty()
    } else {
        flat(teams.drop_last()) + teams.last()
    }
}

/// How many times `p` occurs in the whole lobby.
pub open spec fn occ(teams: Seq<Seq<PlayerId>>, p: PlayerId) -> nat {
    occ_in(flat(teams), p)
}

pub open spec fn is_member(teams: Seq<Seq<PlayerId>>, p: PlayerId) -> bool {
    occ(teams, p) >= 1
}

pub proof fn lemma_occ_in_concat(a: Seq<PlayerId>, b: Seq<PlayerId>, p: PlayerId)
    ensures
        occ_in(a + b, p) == occ_in(a, p) + occ_in(b, p),
    decreases b.len(),
{
    if b.len() == 0 {
        assert(a + b =~= a);
    } else {
        assert((a + b).drop_last() =~= a + b.drop_last());
        assert((a + b).last() == b.last());
        lemma_occ_in_concat(a, b.drop_last(), p);
    }
}

pub proof fn lemma_occ_in_contains(s: Seq<PlayerId>, p: PlayerId)
    ensures
        occ_in(s, p) >= 1 <==> s.contains(p),
    decreases s.len(),
{
    if s.len() > 0 {
        lemma_occ_in_contains(s.drop_last(), p);
        if s.drop_last().contains(p) {
            let i = choose|i: int| 0 <= i < s.len() - 1 && s.drop_last()[i] == p;
            assert(s[i] == p);
        }
        if s.contains(p) && s.last() != p {
            let i = choose|i: int| 0 <= i < s.len() && s[i] == p;
            assert(s.drop_last()[i] == p);
        }
    }
}

pub proof fn lemma_occ_in_remove(s: Seq<PlayerId>, i: int, p: PlayerId)
    requires
        0 <= i < s.len(),
    ensures
        occ_in(s.remove(i), p) + if s[i] == p {
            1nat
        } else {
            0nat
        } == occ_in(s, p),
    decreases s.len(),
{
    if i == s.len() - 1 {
        assert(s.remove(i) =~= s.drop_last());
    } else {
        assert(s.remove(i).drop_last() =~= s.drop_last().remove(i));
        assert(s.remove(i).last() == s.last());
        lemma_occ_in_remove(s.drop_last(), i, p);
    }
}

pub proof fn lemma_occ_in_update(s: Seq<PlayerId>, i: int, x: PlayerId, p: PlayerId)
    requires
        0 <= i < s.len(),
    ensures
        occ_in(s.update(i, x), p) + if s[i] == p {
            1nat
        } else {
            0nat
        } == occ_in(s, p) + if x == p {
            1nat
        } else {
            0nat
        },
    decreases s.len(),
{
    if i == s.len() - 1 {
        assert(s.update(i, x).drop_last() =~= s.drop_last());
        assert(s.update(i, x).last() == x);
    } else {
        assert(s.update(i, x).drop_last() =~= s.drop_last().update(i, x));
        assert(s.update(i, x).last() == s.last());
        lemma_occ_in_update(s.drop_last(), i, x, p);
    }
}

pub proof fn lemma_flat_concat(a: Seq<Seq<PlayerId>>, b: Seq<Seq<PlayerId>>)
    ensures
        flat(a + b) == flat(a) + flat(b),
    decreases b.len(),
{
    if b.len() == 0 {
        assert(a + b =~= a);
        assert(flat(a) + flat(b) =~= flat(a));
    } else {
        assert((a + b).drop_last() =~= a + b.drop_last());
        assert((a + b).last() == b.last());
        lemma_flat_concat(a, b.drop_last());
        assert(flat(a) + flat(b.drop_last()) + b.last() =~= flat(a) + (flat(b.drop_last())
            + b.last()));
    }
}

/// Extending the flattened prefix by one team.
pub proof fn lemma_flat_take_snoc(s: Seq<Seq<PlayerId>>, i: int)
    requires
        0 <= i < s.len(),
    ensures
        flat(s.take(i + 1)) == flat(s.take(i)) + s[i],
{
    assert(s.take(i + 1).drop_last() =~= s.take(i));
    assert(s.take(i + 1).last() == s[i]);
}

/// The roster decomposes around any team index.
pub proof fn lemma_flat_decompose(s: Seq<Seq<PlayerId>>, t: int)
    requires
        0 <= t < s.len(),
    ensures
        flat(s) == flat(s.take(t)) + s[t] + flat(s.skip(t + 1)),
{
    let mid = seq![s[t]];
    assert(s =~= s.take(t) + mid + s.skip(t + 1));
    lemma_flat_concat(s.take(t) + mid, s.skip(t + 1));
    lemma_flat_concat(s.take(t), mid);
    assert(flat(mid) =~= s[t]) by {
        assert(mid.drop_last() =~= Seq::<Seq<PlayerId>>::empty());
        assert(flat(mid) =~= flat(mid.drop_last()) + mid.last());
    }
    assert(flat(s.take(t)) + flat(mid) =~= flat(s.take(t)) + s[t]);
    assert(flat(s) =~= flat(s.take(t)) + s[t] + flat(s.skip(t + 1)));
}

/// Replacing one team: effect on the roster and on occurrence counts.
pub proof fn lemma_occ_update(s: Seq<Seq<PlayerId>>, t: int, nt: Seq<PlayerId>, p: PlayerId)
    requires
        0 <= t < s.len(),
    ensures
        occ(s.update(t, nt), p) + occ_in(s[t], p) == occ(s, p) + occ_in(nt, p),
        flat(s.update(t, nt)).len() + s[t].len() == flat(s).len() + nt.len(),
{
    let s2 = s.update(t, nt);
    lemma_flat_decompose(s, t);
    lemma_flat_decompose(s2, t);
    assert(s2.take(t) =~= s.take(t));
    assert(s2.skip(t + 1) =~= s.skip(t + 1));
    lemma_occ_in_concat(flat(s.take(t)) + s[t], flat(s.skip(t + 1)), p);
    lemma_occ_in_concat(flat(s.take(t)), s[t], p);
    lemma_occ_in_concat(flat(s.take(t)) + nt, flat(s.skip(t + 1)), p);
    lemma_occ_in_concat(flat(s.take(t)), nt, p);
}

/// Index of the team with the fewest players; ties go to the lowest index.
pub open spec fn smallest_team(teams: Seq<Seq<PlayerId>>) -> int
    decreases teams.len(),
{
    if teams.len() <= 1 {
        0
    } else {
        let r = smallest_team(teams.drop_last());
        if teams.last().len() < teams[r].len() {
            teams.len() - 1
        } else {
            r
        }
    }
}

pub proof fn lemma_smallest_team(teams: Seq<Seq<PlayerId>>)
    requires
        teams.len() > 0,
    ensures
        0 <= smallest_team(teams) < teams.len(),
        forall|t: int|
            0 <= t < teams.len() ==> teams[smallest_team(teams)].len() <= #[trigger] teams[t].len(),
    decreases teams.len(),
{
    if teams.len() > 1 {
        lemma_smallest_team(teams.drop_last());
        let r = smallest_team(teams.drop_last());
        assert(forall|t: int|
            0 <= t < teams.len() - 1 ==> teams.drop_last()[r].len() <= #[trigger] teams.drop_last()[t].len());
        assert(forall|t: int| 0 <= t < teams.len() - 1 ==> teams[t] == teams.drop_last()[t]);
    }
}

/// Pigeonhole bound: the roster is at least as large as team-count times the
/// size of the smallest team.
pub proof fn lemma_flat_len_lower(teams: Seq<Seq<PlayerId>>, m: nat)
    requires
        forall|t: int| 0 <= t < teams.len() ==> #[trigger] teams[t].len() >= m,
    ensures
        flat(teams).len() >= teams.len() * m,
    decreases teams.len(),
{
    if teams.len() == 0 {
    } else {
        assert(forall|t: int|
            0 <= t < teams.drop_last().len() ==> #[trigger] teams.drop_last()[t].len() >= m);
        lemma_flat_len_lower(teams.drop_last(), m);
        assert(flat(teams).len() == flat(teams.drop_last()).len() + teams.last().len());
        assert((teams.len() - 1) * m + m == teams.len() * m) by (nonlinear_arith);
    }
}

/// First index of `p` in `s` (meaningful when `p` occurs).
pub open spec fn idx_in(s: Seq<PlayerId>, p: PlayerId) -> int
    decreases s.len(),
{
    if s.len() == 0 {
        0
    } else if s[0] == p {
        0
    } else {
        1 + idx_in(s.drop_first(), p)
    }
}

pub proof fn lemma_idx_in_at(s: Seq<PlayerId>, p: PlayerId, i: int)
    requires
        0 <= i < s.len(),
        s[i] == p,
        forall|j: int| 0 <= j < i ==> s[j] != p,
    ensures
        idx_in(s, p) == i,
    decreases s.len(),
{
    if s[0] != p {
        lemma_idx_in_at(s.drop_first(), p, i - 1);
    }
}

/// First team in which `p` occurs (meaningful when `p` is a member).
pub open spec fn team_of(teams: Seq<Seq<PlayerId>>, p: PlayerId) -> int
    decreases teams.len(),
{
    if teams.len() == 0 {
        0
    } else if teams[0].contains(p) {
        0
    } else {
        1 + team_of(teams.drop_first(), p)
    }
}

pub proof fn lemma_team_of_at(teams: Seq<Seq<PlayerId>>, p: PlayerId, t: int)
    requires
        0 <= t < teams.len(),
        teams[t].contains(p),
        forall|j: int| 0 <= j < t ==> !(#[trigger] teams[j]).contains(p),
    ensures
        team_of(teams, p) == t,
    decreases teams.len(),
{
    if !teams[0].contains(p) {
        assert(forall|j: int|
            0 <= j < t - 1 ==> !(#[trigger] teams.drop_first()[j]).contains(p)) by {
            assert(forall|j: int|
                0 <= j < t - 1 ==> teams.drop_first()[j] == #[trigger] teams[j + 1]);
        }
        lemma_team_of_at(teams.drop_first(), p, t - 1);
    }
}

pub proof fn lemma_team_of_member(teams: Seq<Seq<PlayerId>>, p: PlayerId)
    requires
        exists|t: int| 0 <= t < teams.len() && (#[trigger] teams[t]).contains(p),
    ensures
        0 <= team_of(teams, p) < teams.len(),
        teams[team_of(teams, p)].contains(p),
    decreases teams.len(),
{
    if teams[0].contains(p) {
    } else {
        let t = choose|t: int| 0 <= t < teams.len() && (#[trigger] teams[t]).contains(p);
        assert(teams.drop_first()[t - 1] == teams[t]);
        lemma_team_of_member(teams.drop_first(), p);
        assert(teams[1 + team_of(teams.drop_first(), p)] == teams.drop_first()[team_of(
            teams.drop_first(),
            p,
        )]);
    }
}

pub proof fn lemma_idx_in_member(s: Seq<PlayerId>, p: PlayerId)
    requires
        s.contains(p),
    ensures
        0 <= idx_in(s, p) < s.len(),
        s[idx_in(s, p)] == p,
    decreases s.len(),
{
    if s[0] == p {
    } else {
        let i = choose|i: int| 0 <= i < s.len() && s[i] == p;
        assert(s.drop_first()[i - 1] == s[i]);
        lemma_idx_in_member(s.drop_first(), p);
        assert(s[1 + idx_in(s.drop_first(), p)] == s.drop_first()[idx_in(s.drop_first(), p)]);
    }
}

/// What removing a player's first occurrence does to the teams.
pub proof fn lemma_remove_player(teams: Seq<Seq<PlayerId>>, p: PlayerId)
    requires
        is_member(teams, p),
    ensures
        ({
            let t = team_of(teams, p);
            let i = idx_in(teams[t], p);
            &&& 0 <= t < teams.len()
            &&& teams[t].contains(p)
            &&& 0 <= i < teams[t].len()
            &&& teams[t][i] == p
            &&& remove_player(teams, p).len() == teams.len()
            &&& forall|tt: int|
                0 <= tt < teams.len() && tt != t ==> #[trigger] remove_player(teams, p)[tt]
                    == teams[tt]
            &&& remove_player(teams, p)[t] == teams[t].remove(i)
            &&& flat(remove_player(teams, p)).len() + 1 == flat(teams).len()
            &&& forall|q: PlayerId|
                #[trigger] occ(remove_player(teams, p), q) + (if q == p {
                    1nat
                } else {
                    0nat
                }) == occ(teams, q)
        }),
{
    lemma_member_team(teams, p);
    lemma_team_of_member(teams, p);
    let t = team_of(teams, p);
    lemma_idx_in_member(teams[t], p);
    let i = idx_in(teams[t], p);
    assert forall|q: PlayerId|
        #[trigger] occ(remove_player(teams, p), q) + (if q == p {
            1nat
        } else {
            0nat
        }) == occ(teams, q) by {
        lemma_occ_update(teams, t, teams[t].remove(i), q);
        lemma_occ_in_remove(teams[t], i, q);
    }
    lemma_occ_update(teams, t, teams[t].remove(i), p);
}

pub proof fn lemma_occ_in_two(s: Seq<PlayerId>, i: int, j: int, p: PlayerId)
    requires
        0 <= i < j < s.len(),
        s[i] == p,
        s[j] == p,
    ensures
        occ_in(s, p) >= 2,
{
    lemma_occ_in_remove(s, j, p);
    assert(s.remove(j)[i] == p);
    assert(s.remove(j).contains(p));
    lemma_occ_in_contains(s.remove(j), p);
}

/// The roster count dominates the count of any one team.
pub proof fn lemma_occ_single(teams: Seq<Seq<PlayerId>>, t: int, p: PlayerId)
    requires
        0 <= t < teams.len(),
    ensures
        occ(teams, p) >= occ_in(teams[t], p),
{
    lemma_flat_decompose(teams, t);
    lemma_occ_in_concat(flat(teams.take(t)) + teams[t], flat(teams.skip(t + 1)), p);
    lemma_occ_in_concat(flat(teams.take(t)), teams[t], p);
}

/// The roster count dominates the sum of any two distinct teams' counts.
pub proof fn lemma_occ_pair(teams: Seq<Seq<PlayerId>>, t1: int, t2: int, p: PlayerId)
    requires
        0 <= t1 < t2 < teams.len(),
    ensures
        occ(teams, p) >= occ_in(teams[t1], p) + occ_in(teams[t2], p),
{
    lemma_flat_decompose(teams, t1);
    lemma_occ_in_concat(flat(teams.take(t1)) + teams[t1], flat(teams.skip(t1 + 1)), p);
    lemma_occ_in_concat(flat(teams.take(t1)), teams[t1], p);
    let rest = teams.skip(t1 + 1);
    assert(rest[t2 - t1 - 1] == teams[t2]);
    lemma_flat_decompose(rest, t2 - t1 - 1);
    lemma_occ_in_concat(
        flat(rest.take(t2 - t1 - 1)) + rest[t2 - t1 - 1],
        flat(rest.skip(t2 - t1)),
        p,
    );
    lemma_occ_in_concat(flat(rest.take(t2 - t1 - 1)), rest[t2 - t1 - 1], p);
}

/// A player that occurs exactly once occurs nowhere but at its slot, and
/// the first-occurrence search finds that slot.
pub proof fn lemma_occ_unique(teams: Seq<Seq<PlayerId>>, p: PlayerId, t: int, i: int)
    requires
        occ(teams, p) == 1,
        0 <= t < teams.len(),
        0 <= i < teams[t].len(),
        teams[t][i] == p,
    ensures
        forall|t2: int| 0 <= t2 < teams.len() && t2 != t ==> !(#[trigger] teams[t2]).contains(p),
        forall|i2: int| 0 <= i2 < teams[t].len() && i2 != i ==> teams[t][i2] != p,
        team_of(teams, p) == t,
        idx_in(teams[t], p) == i,
{
    assert(teams[t].contains(p));
    lemma_occ_in_contains(teams[t], p);
    assert forall|t2: int|
        0 <= t2 < teams.len() && t2 != t implies !(#[trigger] teams[t2]).contains(p) by {
        if teams[t2].contains(p) {
            lemma_occ_in_contains(teams[t2], p);
            if t2 < t {
                lemma_occ_pair(teams, t2, t, p);
            } else {
                lemma_occ_pair(teams, t, t2, p);
            }
        }
    }
    assert forall|i2: int|
        0 <= i2 < teams[t].len() && i2 != i implies teams[t][i2] != p by {
        if teams[t][i2] == p {
            if i2 < i {
                lemma_occ_in_two(teams[t], i2, i, p);
            } else {
                lemma_occ_in_two(teams[t], i, i2, p);
            }
            lemma_occ_single(teams, t, p);
        }
    }
    lemma_team_of_at(teams, p, t);
    lemma_idx_in_at(teams[t], p, i);
}

/// The roster count dominated by the per-team bound.
pub proof fn lemma_flat_len_upper(teams: Seq<Seq<PlayerId>>, m: nat)
    requires
        forall|t: int| 0 <= t < teams.len() ==> (#[trigger] teams[t]).len() <= m,
    ensures
        flat(teams).len() <= teams.len() * m,
    decreases teams.len(),
{
    if teams.len() == 0 {
    } else {
        assert(forall|t: int|
            0 <= t < teams.drop_last().len() ==> (#[trigger] teams.drop_last()[t]).len() <= m);
        lemma_flat_len_upper(teams.drop_last(), m);
        assert(flat(teams).len() == flat(teams.drop_last()).len() + teams.last().len());
        assert((teams.len() - 1) * m + m == teams.len() * m) by (nonlinear_arith);
    }
}

/// The teams after removing the first occurrence of `p`.
pub open spec fn remove_player(teams: Seq<Seq<PlayerId>>, p: PlayerId) -> Seq<Seq<PlayerId>> {
    let t = team_of(teams, p);
    teams.update(t, teams[t].remove(idx_in(teams[t], p)))
}

/// Greedy placement of one displaced player into the smallest team.
pub open spec fn place_one(teams: Seq<Seq<PlayerId>>, p: PlayerId) -> Seq<Seq<PlayerId>> {
    let t = smallest_team(teams);
    teams.update(t, teams[t].push(p))
}

/// Greedy placement of a queue of displaced players, first-in first-out.
pub open spec fn place_all(teams: Seq<Seq<PlayerId>>, ps: Seq<PlayerId>) -> Seq<Seq<PlayerId>>
    decreases ps.len(),
{
    if ps.len() == 0 {
        teams
    } else {
        place_one(place_all(teams, ps.drop_last()), ps.last())
    }
}

pub proof fn lemma_place_one(teams: Seq<Seq<PlayerId>>, p: PlayerId, q: PlayerId)
    requires
        teams.len() > 0,
    ensures
        place_one(teams, p).len() == teams.len(),
        flat(place_one(teams, p)).len() == flat(teams).len() + 1,
        occ(place_one(teams, p), q) == occ(teams, q) + if q == p {
            1nat
        } else {
            0nat
        },
{
    let t = smallest_team(teams);
    lemma_smallest_team(teams);
    assert(teams[t].push(p).drop_last() =~= teams[t]);
    lemma_occ_update(teams, t, teams[t].push(p), q);
}

pub proof fn lemma_place_all(teams: Seq<Seq<PlayerId>>, ps: Seq<PlayerId>, q: PlayerId)
    requires
        teams.len() > 0,
    ensures
        place_all(teams, ps).len() == teams.len(),
        flat(place_all(teams, ps)).len() == flat(teams).len() + ps.len(),
        occ(place_all(teams, ps), q) == occ(teams, q) + occ_in(ps, q),
    decreases ps.len(),
{
    if ps.len() > 0 {
        lemma_place_all(teams, ps.drop_last(), q);
        lemma_place_one(place_all(teams, ps.drop_last()), ps.last(), q);
    }
}

/// Greedy placement never overfills a team, as long as everything fits.
pub proof fn lemma_place_all_limit(teams: Seq<Seq<PlayerId>>, ps: Seq<PlayerId>, limit: nat)
    requires
        teams.len() > 0,
        forall|t: int| 0 <= t < teams.len() ==> (#[trigger] teams[t]).len() <= limit,
        flat(teams).len() + ps.len() <= teams.len() * limit,
    ensures
        forall|t: int|
            0 <= t < teams.len() ==> (#[trigger] place_all(teams, ps)[t]).len() <= limit,
    decreases ps.len(),
{
    if ps.len() > 0 {
        lemma_place_all_limit(teams, ps.drop_last(), limit);
        let mid = place_all(teams, ps.drop_last());
        lemma_place_all(teams, ps.drop_last(), ps.last());
        let t = smallest_team(mid);
        lemma_smallest_team(mid);
        assert(flat(mid).len() < mid.len() * limit);
        lemma_flat_len_lower(mid, mid[t].len());
        assert(mid.len() * mid[t].len() < mid.len() * limit);
        assert(mid[t].len() < limit) by (nonlinear_arith)
            requires
                mid.len() * mid[t].len() < mid.len() * limit,
        ;
    }
}

/// A team clipped to the player limit, and the clipped-off tail.
pub open spec fn trim_team(t: Seq<PlayerId>, limit: nat) -> Seq<PlayerId> {
    if t.len() <= limit {
        t
    } else {
        t.take(limit as int)
    }
}

pub open spec fn tail_team(t: Seq<PlayerId>, limit: nat) -> Seq<PlayerId> {
    if t.len() <= limit {
        Seq::empty()
    } else {
        t.skip(limit as int)
    }
}

pub open spec fn trim_all(teams: Seq<Seq<PlayerId>>, limit: nat) -> Seq<Seq<PlayerId>> {
    teams.map_values(|t: Seq<PlayerId>| trim_team(t, limit))
}

/// All clipped-off tails, team-ascending: the players displaced by a lower
/// player limit.
pub open spec fn tails_of(teams: Seq<Seq<PlayerId>>, limit: nat) -> Seq<PlayerId> {
    flat(teams.map_values(|t: Seq<PlayerId>| tail_team(t, limit)))
}

pub proof fn lemma_trim_all(teams: Seq<Seq<PlayerId>>, limit: nat, q: PlayerId)
    ensures
        trim_all(teams, limit).len() == teams.len(),
        forall|t: int|
            0 <= t < teams.len() ==> (#[trigger] trim_all(teams, limit)[t]).len() <= limit,
        occ(trim_all(teams, limit), q) + occ_in(tails_of(teams, limit), q) == occ(teams, q),
        flat(trim_all(teams, limit)).len() + tails_of(teams, limit).len() == flat(teams).len(),
    decreases teams.len(),
{
    if teams.len() == 0 {
        assert(trim_all(teams, limit) =~= Seq::<Seq<PlayerId>>::empty());
        assert(teams.map_values(|t: Seq<PlayerId>| tail_team(t, limit))
            =~= Seq::<Seq<PlayerId>>::empty());
    } else {
        let dl = teams.drop_last();
        lemma_trim_all(dl, limit, q);
        let trm = trim_all(teams, limit);
        let tls = teams.map_values(|t: Seq<PlayerId>| tail_team(t, limit));
        assert(trm.drop_last() =~= trim_all(dl, limit));
        assert(tls.drop_last() =~= dl.map_values(|t: Seq<PlayerId>| tail_team(t, limit)));
        assert(trm.last() == trim_team(teams.last(), limit));
        assert(tls.last() == tail_team(teams.last(), limit));
        lemma_occ_in_concat(flat(trim_all(dl, limit)), trm.last(), q);
        lemma_occ_in_concat(flat(tls.drop_last()), tls.last(), q);
        lemma_occ_in_concat(flat(dl), teams.last(), q);
        assert(trim_team(teams.last(), limit) + tail_team(teams.last(), limit)
            =~= teams.last());
        lemma_occ_in_concat(trim_team(teams.last(), limit), tail_team(teams.last(), limit), q);
    }
}

/// The displaced tail grows team by team.
pub proof fn lemma_tails_snoc(teams: Seq<Seq<PlayerId>>, limit: nat, t: int)
    requires
        0 <= t < teams.len(),
    ensures
        tails_of(teams.take(t + 1), limit) == tails_of(teams.take(t), limit) + tail_team(
            teams[t],
            limit,
        ),
{
    let m1 = teams.take(t + 1).map_values(|x: Seq<PlayerId>| tail_team(x, limit));
    let m0 = teams.take(t).map_values(|x: Seq<PlayerId>| tail_team(x, limit));
    assert(m1.drop_last() =~= m0);
    assert(m1.last() == tail_team(teams[t], limit));
}

/// Teams extended with empty teams up to `n`.
pub open spec fn pad_teams(teams: Seq<Seq<PlayerId>>, n: int) -> Seq<Seq<PlayerId>> {
    teams + Seq::new((n - teams.len()) as nat, |i: int| Seq::<PlayerId>::empty())
}

pub proof fn lemma_flat_empties(n: nat)
    ensures
        flat(Seq::new(n, |i: int| Seq::<PlayerId>::empty())) == Seq::<PlayerId>::empty(),
    decreases n,
{
    let s = Seq::new(n, |i: int| Seq::<PlayerId>::empty());
    if n > 0 {
        assert(s.drop_last() =~= Seq::new((n - 1) as nat, |i: int| Seq::<PlayerId>::empty()));
        lemma_flat_empties((n - 1) as nat);
        assert(flat(s) =~= Seq::<PlayerId>::empty());
    }
}

pub proof fn lemma_pad_teams(teams: Seq<Seq<PlayerId>>, n: int)
    requires
        n >= teams.len(),
    ensures
        pad_teams(teams, n).len() == n,
        flat(pad_teams(teams, n)) == flat(teams),
        forall|t: int| 0 <= t < teams.len() ==> #[trigger] pad_teams(teams, n)[t] == teams[t],
        forall|t: int|
            teams.len() <= t < n ==> (#[trigger] pad_teams(teams, n)[t]).len() == 0,
{
    let tail = Seq::new((n - teams.len()) as nat, |i: int| Seq::<PlayerId>::empty());
    lemma_flat_concat(teams, tail);
    lemma_flat_empties((n - teams.len()) as nat);
    assert(flat(teams) + Seq::<PlayerId>::empty() =~= flat(teams));
}

/// The roster without one player (every occurrence removed): the recipient
/// list of a broadcast that excludes its originator.
pub open spec fn drop_player(s: Seq<PlayerId>, p: PlayerId) -> Seq<PlayerId>
    decreases s.len(),
{
    if s.len() == 0 {
        Seq::empty()
    } else if s.last() == p {
        drop_player(s.drop_last(), p)
    } else {
        drop_player(s.drop_last(), p).push(s.last())
    }
}

pub proof fn lemma_flat_pair(a: Seq<PlayerId>, b: Seq<PlayerId>)
    ensures
        flat(seq![a, b]) == a + b,
{
    let s = seq![a, b];
    assert(s.drop_last() =~= seq![a]);
    assert(seq![a].drop_last() =~= Seq::<Seq<PlayerId>>::empty());
    reveal_with_fuel(flat, 4);
    assert(flat(s) =~= a + b);
}

pub proof fn lemma_occ_in_single(p: PlayerId, q: PlayerId)
    ensures
        occ_in(seq![p], q) == if p == q {
            1nat
        } else {
            0nat
        },
{
    assert(seq![p].drop_last() =~= Seq::<PlayerId>::empty());
    reveal_with_fuel(occ_in, 3);
}

/// Membership is membership in some team.
pub proof fn lemma_member_team(teams: Seq<Seq<PlayerId>>, p: PlayerId)
    ensures
        is_member(teams, p) <==> exists|t: int|
            0 <= t < teams.len() && (#[trigger] teams[t]).contains(p),
    decreases teams.len(),
{
    if teams.len() > 0 {
        let dl = teams.drop_last();
        lemma_member_team(dl, p);
        lemma_occ_in_concat(flat(dl), teams.last(), p);
        lemma_occ_in_contains(teams.last(), p);
        if is_member(teams, p) {
            if occ_in(flat(dl), p) >= 1 {
                let t = choose|t: int| 0 <= t < dl.len() && (#[trigger] dl[t]).contains(p);
                assert(teams[t].contains(p));
            } else {
                assert(teams[teams.len() - 1].contains(p));
            }
        }
        if exists|t: int| 0 <= t < teams.len() && (#[trigger] teams[t]).contains(p) {
            let t = choose|t: int| 0 <= t < teams.len() && (#[trigger] teams[t]).contains(p);
            if t < teams.len() - 1 {
                assert(dl[t].contains(p));
            }
        }
    }
}

/// The team of fewest players, scanning ascending.
pub fn smallest_team_index(teams: &Vec<Vec<PlayerId>>) -> (t: usize)
    requires
        teams@.len() > 0,
    ensures
        t < teams@.len(),
        t as int == smallest_team(teams.deep_view()),
{
    let ghost d = teams.deep_view();
    let mut best: usize = 0;
    let mut i: usize = 1;
    proof {
        assert(d.take(1).len() == 1);
        assert(smallest_team(d.take(1)) == 0);
    }
    while i < teams.len()
        invariant
            1 <= i <= teams@.len(),
            d == teams.deep_view(),
            d.len() == teams@.len(),
            best < i,
            best as int == smallest_team(d.take(i as int)),
            forall|j: int| 0 <= j < d.len() ==> (#[trigger] d[j]).len() == teams@[j]@.len(),
        decreases teams@.len() - i,
    {
        proof {
            let pre = d.take(i as int);
            let cur = d.take(i + 1);
            assert(cur.drop_last() =~= pre);
            assert(cur.last() == d[i as int]);
            assert(forall|j: int| 0 <= j < i + 1 ==> #[trigger] cur[j] == d[j]);
            lemma_smallest_team(pre);
        }
        if teams[i].len() < teams[best].len() {
            best = i;
        }
        i += 1;
    }
    proof {
        assert(d.take(teams@.len() as int) =~= d);
    }
    best
}

/// The flattened roster, team-ascending.
pub fn roster_vec(teams: &Vec<Vec<PlayerId>>) -> (r: Vec<PlayerId>)
    ensures
        r@ == flat(teams.deep_view()),
{
    let ghost d = teams.deep_view();
    let mut r: Vec<PlayerId> = Vec::new();
    let mut t: usize = 0;
    while t < teams.len()
        invariant
            t <= teams@.len(),
            d == teams.deep_view(),
            d.len() == teams@.len(),
            r@ == flat(d.take(t as int)),
        decreases teams@.len() - t,
    {
        let mut i: usize = 0;
        proof {
            lemma_flat_take_snoc(d, t as int);
            assert(d[t as int] =~= teams@[t as int]@);
        }
        while i < teams[t].len()
            invariant
                t < teams@.len(),
                i <= teams@[t as int]@.len(),
                d == teams.deep_view(),
                d.len() == teams@.len(),
                d[t as int] == teams@[t as int]@,
                r@ == flat(d.take(t as int)) + d[t as int].take(i as int),
            decreases teams@[t as int]@.len() - i,
        {
            r.push(teams[t][i]);
            proof {
                assert(d[t as int].take(i + 1) =~= d[t as int].take(i as int).push(
                    d[t as int][i as int],
                ));
                assert(r@ =~= flat(d.take(t as int)) + d[t as int].take(i + 1));
            }
            i += 1;
        }
        proof {
            assert(d[t as int].take(d[t as int].len() as int) =~= d[t as int]);
        }
        t += 1;
    }
    proof {
        assert(d.take(teams@.len() as int) =~= d);
    }
    r
}

/// The recipients of a lobby broadcast: the roster, without the excluded
/// player if one is given.
pub fn recipients_vec(teams: &Vec<Vec<PlayerId>>, exclude: Option<PlayerId>) -> (r: Vec<
    PlayerId,
>)
    ensures
        r@ == match exclude {
            None => flat(teams.deep_view()),
            Some(p) => drop_player(flat(teams.deep_view()), p),
        },
{
    let ms = roster_vec(teams);
    match exclude {
        None => ms,
        Some(p) => {
            let mut r: Vec<PlayerId> = Vec::new();
            let mut j: usize = 0;
            while j < ms.len()
                invariant
                    j <= ms@.len(),
                    r@ == drop_player(ms@.take(j as int), p),
                decreases ms@.len() - j,
            {
                proof {
                    assert(ms@.take(j + 1).drop_last() =~= ms@.take(j as int));
                    assert(ms@.take(j + 1).last() == ms@[j as int]);
                }
                if !(ms[j] == p) {
                    r.push(ms[j]);
                }
                j += 1;
            }
            proof {
                assert(ms@.take(ms@.len() as int) =~= ms@);
            }
            r
        },
    }
}

fn team_contains(v: &Vec<PlayerId>, p: PlayerId) -> (r: bool)
    ensures
        r == v@.contains(p),
{
    let mut i: usize = 0;
    while i < v.len()
        invariant
            i <= v@.len(),
            forall|j: int| 0 <= j < i ==> v@[j] != p,
        decreases v@.len() - i,
    {
        if v[i] == p {
            return true;
        }
        i += 1;
    }
    false
}

/// Position of a player: the first team that holds it and the first slot
/// inside that team.
pub fn locate_player(teams: &Vec<Vec<PlayerId>>, p: PlayerId) -> (r: Option<(usize, usize)>)
    ensures
        match r {
            Some(pos) => {
                let d = teams.deep_view();
                &&& (pos.0 as int) < d.len()
                &&& pos.0 as int == team_of(d, p)
                &&& (pos.1 as int) < d[pos.0 as int].len()
                &&& pos.1 as int == idx_in(d[pos.0 as int], p)
                &&& d[pos.0 as int][pos.1 as int] == p
                &&& is_member(d, p)
            },
            None => !is_member(teams.deep_view(), p),
        },
{
    let ghost d = teams.deep_view();
    let mut t: usize = 0;
    while t < teams.len()
        invariant
            t <= teams@.len(),
            d == teams.deep_view(),
            d.len() == teams@.len(),
            forall|j: int| 0 <= j < t ==> !(#[trigger] d[j]).contains(p),
        decreases teams@.len() - t,
    {
        proof {
            assert(d[t as int] == teams@[t as int]@);
        }
        if team_contains(&teams[t], p) {
            let team = &teams[t];
            let mut i: usize = 0;
            let ghost w = choose|w: int| 0 <= w < team@.len() && team@[w] == p;
            while i < team.len()
                invariant
                    t < teams@.len(),
                    d == teams.deep_view(),
                    d.len() == teams@.len(),
                    forall|j: int| 0 <= j < t ==> !(#[trigger] d[j]).contains(p),
                    i <= team@.len(),
                    team@ == d[t as int],
                    team@.contains(p),
                    forall|j: int| 0 <= j < i ==> team@[j] != p,
                decreases team@.len() - i,
            {
                if team[i] == p {
                    proof {
                        lemma_team_of_at(d, p, t as int);
                        lemma_idx_in_at(d[t as int], p, i as int);
                        lemma_member_team(d, p);
                    }
                    return Some((t, i));
                }
                i += 1;
            }
            proof {
                assert(team@[w] == p);
                assert(false);
            }
        }
        t += 1;
    }
    proof {
        lemma_member_team(d, p);
    }
    None
}

/// The per-member selection table created on entering champion selection:
/// one empty entry per member, in roster order.
pub open spec fn init_selected<W>(ms: Seq<PlayerId>, none_val: W) -> Map<u128, W>
    decreases ms.len(),
{
    if ms.len() == 0 {
        Map::empty()
    } else {
        init_selected(ms.drop_last(), none_val).insert(ms.last().0, none_val)
    }
}

pub proof fn lemma_init_selected_dom<W>(ms: Seq<PlayerId>, none_val: W, k: u128)
    ensures
        init_selected(ms, none_val).contains_key(k) <==> ms.contains(PlayerId(k)),
        init_selected(ms, none_val).contains_key(k) ==> init_selected(ms, none_val)[k]
            == none_val,
    decreases ms.len(),
{
    if ms.len() > 0 {
        lemma_init_selected_dom(ms.drop_last(), none_val, k);
        if ms.contains(PlayerId(k)) && ms.last() != PlayerId(k) {
            let i = choose|i: int| 0 <= i < ms.len() && ms[i] == PlayerId(k);
            assert(ms.drop_last()[i] == PlayerId(k));
        }
        if ms.drop_last().contains(PlayerId(k)) {
            let i = choose|i: int| 0 <= i < ms.len() - 1 && ms.drop_last()[i] == PlayerId(k);
            assert(ms[i] == PlayerId(k));
        }
        assert(ms.last() == PlayerId(ms.last().0));
    }
}

} // verus!
