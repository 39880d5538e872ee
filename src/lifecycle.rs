use crate::enemy::{enemies_in_world, is_past_end, EndPolicy, Enemy};
use vstd::prelude::*;

verus! {

/// Money granted for each enemy killed.
pub const KILL_REWARD: i64 = 5;

/// The player's lives and money.  Lives have no floor here: zero or fewer is
/// the signal that the game is lost.
#[derive(Clone, Copy, Debug, PartialEq, Eq, Structural)]
pub struct PlayerStats {
    pub lives: i64,
    pub money: i64,
}

impl PlayerStats {
    pub fn new(lives: i64, money: i64) -> (r: PlayerStats)
        ensures
            r.lives == lives,
            r.money == money,
    {
        PlayerStats { lives, money }
    }
}

pub open spec fn is_dead(e: Enemy) -> bool {
    e.health.current <= 0
}

/// The enemy leaves the game by escaping: it is alive, past the last
/// waypoint of a non-empty path, and escaping is the policy.
pub open spec fn escapes(e: Enemy, path_len: int, policy: EndPolicy) -> bool {
    !is_dead(e) && policy == EndPolicy::Escape && path_len > 0 && is_past_end(e, path_len)
}

pub open spec fn stays(e: Enemy, path_len: int, policy: EndPolicy) -> bool {
    !is_dead(e) && !escapes(e, path_len, policy)
}

/// The enemies that remain after the cleanup, in their order.
pub open spec fn survivors(es: Seq<Enemy>, path_len: int, policy: EndPolicy) -> Seq<Enemy>
    decreases es.len(),
{
    if es.len() == 0 {
        seq![]
    } else {
        let before = survivors(es.drop_last(), path_len, policy);
        if stays(es.last(), path_len, policy) {
            before.push(es.last())
        } else {
            before
        }
    }
}

pub open spec fn kill_count(es: Seq<Enemy>) -> nat
    decreases es.len(),
{
    if es.len() == 0 {
        0
    } else {
        kill_count(es.drop_last()) + if is_dead(es.last()) {
            1nat
        } else {
            0nat
        }
    }
}

pub open spec fn escape_count(es: Seq<Enemy>, path_len: int, policy: EndPolicy) -> nat
    decreases es.len(),
{
    if es.len() == 0 {
        0
    } else {
        escape_count(es.drop_last(), path_len, policy) + if escapes(es.last(), path_len, policy) {
            1nat
        } else {
            0nat
        }
    }
}

/// Every enemy of `es` is killed, escapes or stays, and only one of these.
pub proof fn lemma_cleanup_conserves(es: Seq<Enemy>, path_len: int, policy: EndPolicy)
    ensures
        kill_count(es) + escape_count(es, path_len, policy) + survivors(es, path_len, policy).len()
            == es.len(),
        kill_count(es) <= es.len(),
        escape_count(es, path_len, policy) <= es.len(),
    decreases es.len(),
{
    if es.len() > 0 {
        lemma_cleanup_conserves(es.drop_last(), path_len, policy);
    }
}

pub open spec fn ids_increasing(es: Seq<Enemy>) -> bool {
    forall|i: int, j: int| 0 <= i < j < es.len() ==> es[i].id < es[j].id
}

pub open spec fn ids_below(es: Seq<Enemy>, bound: int) -> bool {
    forall|i: int| 0 <= i < es.len() ==> (#[trigger] es[i]).id < bound
}

/// The cleanup keeps the enemies' order and invents none: identifiers that
/// increased along the store still do, and stay below any bound they had.
pub proof fn lemma_survivors_keep_ids(
    es: Seq<Enemy>,
    path_len: int,
    policy: EndPolicy,
    bound: int,
)
    requires
        ids_increasing(es),
        ids_below(es, bound),
    ensures
        ids_increasing(survivors(es, path_len, policy)),
        ids_below(survivors(es, path_len, policy), bound),
    decreases es.len(),
{
    if es.len() > 0 {
        let rest = es.drop_last();
        let before = survivors(rest, path_len, policy);
        assert(ids_increasing(rest));
        lemma_survivors_keep_ids(rest, path_len, policy, bound);
        assert(ids_below(rest, es.last().id as int)) by {
            assert forall|i: int| 0 <= i < rest.len() implies (#[trigger] rest[i]).id < es.last().id by {
                assert(rest[i] == es[i]);
            }
        }
        lemma_survivors_keep_ids(rest, path_len, policy, es.last().id as int);
    }
}

/// Removes dead enemies, each granting `KILL_REWARD`, and, under the escape
/// policy, enemies past the end of the path, each costing a life.  An enemy
/// that is both dead and past the end counts as killed.  Returns how many
/// were killed and how many escaped.
pub fn cleanup(
    enemies: &mut Vec<Enemy>,
    path_len: usize,
    policy: EndPolicy,
    stats: &mut PlayerStats,
) -> (r: (u64, u64))
    requires
        old(stats).money + KILL_REWARD * old(enemies)@.len() <= i64::MAX,
        old(stats).lives - old(enemies)@.len() >= i64::MIN,
        enemies_in_world(old(enemies)@),
    ensures
        final(enemies)@ == survivors(old(enemies)@, path_len as int, policy),
        r.0 == kill_count(old(enemies)@),
        r.1 == escape_count(old(enemies)@, path_len as int, policy),
        final(stats).money == old(stats).money + KILL_REWARD * r.0,
        final(stats).lives == old(stats).lives - r.1,
        r.0 + r.1 + final(enemies)@.len() == old(enemies)@.len(),
        enemies_in_world(final(enemies)@),
{
    let ghost es0 = enemies@;
    let ghost stats0 = *stats;
    let mut kept: Vec<Enemy> = Vec::new();
    let mut killed: u64 = 0;
    let mut escaped: u64 = 0;
    let mut i: usize = 0;
    while i < enemies.len()
        invariant
            enemies@ == es0,
            0 <= i <= es0.len(),
            enemies_in_world(es0),
            kept@ == survivors(es0.take(i as int), path_len as int, policy),
            killed == kill_count(es0.take(i as int)),
            escaped == escape_count(es0.take(i as int), path_len as int, policy),
            killed + escaped + kept@.len() == i,
            stats.money == stats0.money + KILL_REWARD * killed,
            stats.lives == stats0.lives - escaped,
            stats0.money + KILL_REWARD * es0.len() <= i64::MAX,
            stats0.lives - es0.len() >= i64::MIN,
            enemies_in_world(kept@),
        decreases es0.len() - i,
    {
        let e = enemies[i];
        proof {
            assert(es0.take(i as int + 1).drop_last() =~= es0.take(i as int));
            assert(es0.take(i as int + 1).last() == e);
            lemma_cleanup_conserves(es0.take(i as int), path_len as int, policy);
        }
        if e.health.current <= 0 {
            killed = killed + 1;
            stats.money = stats.money + KILL_REWARD;
        } else if matches!(policy, EndPolicy::Escape) && path_len > 0 && e.follower.path_index
            >= path_len {
            escaped = escaped + 1;
            stats.lives = stats.lives - 1;
        } else {
            kept.push(e);
        }
        i = i + 1;
    }
    assert(es0.take(es0.len() as int) =~= es0);
    *enemies = kept;
    (killed, escaped)
}

} // verus!
