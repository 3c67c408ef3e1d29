//! Collision resolution between bubbles and enemies.
//!
//! One pass visits the bubbles in order. Each bubble hits the first enemy,
//! in order, that is still standing and lies within the hit radius; that
//! enemy loses `HIT_DAMAGE` and falls when its health reaches zero. The
//! removals are applied together at the end of the pass.
use vstd::prelude::*;
use crate::entity::{Bubble, Enemy};
use crate::fixed::{len_sq, Point};

verus! {

/// A bubble hits an enemy whose centre is closer than this.
pub const HIT_RADIUS: i64 = 30_000;

/// Health an enemy loses to one hit.
pub const HIT_DAMAGE: i64 = 25;

pub open spec fn in_hit_range(b: Point, e: Point) -> bool {
    len_sq(b.x - e.x, b.y - e.y) < HIT_RADIUS * HIT_RADIUS
}

/// The first enemy at index `k` or later that is standing and in range of `b`,
/// or -1 where there is none.
pub open spec fn first_target_from(b: Point, es: Seq<Enemy>, dead: Seq<bool>, k: nat) -> int
    decreases es.len() - k,
{
    if k >= es.len() {
        -1
    } else if !dead[k as int] && in_hit_range(b, es[k as int].pos) {
        k as int
    } else {
        first_target_from(b, es, dead, k + 1)
    }
}

pub open spec fn first_target(b: Point, es: Seq<Enemy>, dead: Seq<bool>) -> int {
    first_target_from(b, es, dead, 0)
}

pub open spec fn damaged(e: Enemy) -> Enemy {
    Enemy { health: (e.health - HIT_DAMAGE) as i64, ..e }
}

/// The state of a pass after its first `i` bubbles: the enemies, which of them
/// have fallen, and for each bubble visited the enemy it hit (-1 for none).
pub open spec fn pass_after(bs: Seq<Bubble>, es0: Seq<Enemy>, i: nat) -> (
    Seq<Enemy>,
    Seq<bool>,
    Seq<int>,
)
    decreases i,
{
    if i == 0 {
        (es0, Seq::new(es0.len(), |k: int| false), Seq::empty())
    } else {
        let (es, dead, ts) = pass_after(bs, es0, (i - 1) as nat);
        let t = first_target(bs[i - 1].pos, es, dead);
        if t < 0 {
            (es, dead, ts.push(-1))
        } else {
            let e = damaged(es[t]);
            (es.update(t, e), dead.update(t, e.health <= 0), ts.push(t))
        }
    }
}

/// Keeps the items whose flag is false, in order.
pub open spec fn keep<T>(s: Seq<T>, flags: Seq<bool>) -> Seq<T>
    decreases s.len(),
{
    if s.len() == 0 {
        Seq::empty()
    } else {
        let rest = keep(s.drop_last(), flags.take(s.len() - 1));
        if flags[s.len() - 1] {
            rest
        } else {
            rest.push(s.last())
        }
    }
}

pub open spec fn all_standing(es: Seq<Enemy>) -> bool {
    forall|k: int| 0 <= k < es.len() ==> #[trigger] es[k].valid()
}

/// How many entries of `ts` are `k`.
pub open spec fn hits(ts: Seq<int>, k: int) -> nat
    decreases ts.len(),
{
    if ts.len() == 0 {
        0
    } else {
        hits(ts.drop_last(), k) + if ts.last() == k { 1nat } else { 0nat }
    }
}

/// The hits taken by the enemies below index `n`, added up.
pub open spec fn total_hits(ts: Seq<int>, n: nat) -> nat
    decreases n,
{
    if n == 0 {
        0
    } else {
        total_hits(ts, (n - 1) as nat) + hits(ts, n - 1)
    }
}

/// How many entries of `ts` name an enemy.
pub open spec fn scoring(ts: Seq<int>) -> nat
    decreases ts.len(),
{
    if ts.len() == 0 {
        0
    } else {
        scoring(ts.drop_last()) + if ts.last() >= 0 { 1nat } else { 0nat }
    }
}

proof fn lemma_first_target_bounds(b: Point, es: Seq<Enemy>, dead: Seq<bool>, k: nat)
    requires
        dead.len() == es.len(),
    ensures
        ({
            let t = first_target_from(b, es, dead, k);
            t == -1 || (k <= t < es.len() && !dead[t] && in_hit_range(b, es[t].pos))
        }),
    decreases es.len() - k,
{
    if k < es.len() {
        lemma_first_target_bounds(b, es, dead, k + 1);
    }
}


proof fn lemma_hits_push(ts: Seq<int>, t: int, k: int)
    ensures
        hits(ts.push(t), k) == hits(ts, k) + if t == k { 1nat } else { 0nat },
        scoring(ts.push(t)) == scoring(ts) + if t >= 0 { 1nat } else { 0nat },
{
    assert(ts.push(t).drop_last() =~= ts);
}

proof fn lemma_total_hits_push(ts: Seq<int>, t: int, n: nat)
    ensures
        total_hits(ts.push(t), n) == total_hits(ts, n) + if 0 <= t < n { 1nat } else { 0nat },
    decreases n,
{
    if n > 0 {
        lemma_total_hits_push(ts, t, (n - 1) as nat);
        lemma_hits_push(ts, t, n - 1);
    }
}

/// Damage law of one pass, for enemies that all start standing: after the
/// first `i` bubbles, each enemy has lost `HIT_DAMAGE` for every bubble that
/// hit it and nothing else, it has fallen exactly when its health is at or
/// below zero, and only health has changed.
pub proof fn lemma_pass_damage(bs: Seq<Bubble>, es0: Seq<Enemy>, i: nat)
    requires
        all_standing(es0),
        i <= bs.len(),
    ensures
        ({
            let (es, dead, ts) = pass_after(bs, es0, i);
            &&& es.len() == es0.len()
            &&& dead.len() == es0.len()
            &&& ts.len() == i
            &&& forall|k: int|
                #![trigger es[k]]
                0 <= k < es0.len() ==> {
                    &&& es[k].health == es0[k].health - HIT_DAMAGE * hits(ts, k)
                    &&& dead[k] <==> es[k].health <= 0
                    &&& es[k].pos == es0[k].pos
                    &&& es[k].vel == es0[k].vel
                    &&& es[k].variant == es0[k].variant
                    &&& es[k].health > -HIT_DAMAGE
                }
        }),
    decreases i,
{
    if i > 0 {
        lemma_pass_damage(bs, es0, (i - 1) as nat);
        let (es, dead, ts) = pass_after(bs, es0, (i - 1) as nat);
        let b = bs[i - 1].pos;
        lemma_first_target_bounds(b, es, dead, 0);
        let t = first_target(b, es, dead);
        let (es2, dead2, ts2) = pass_after(bs, es0, i);
        assert forall|k: int| #![trigger es2[k]] 0 <= k < es0.len() implies {
            &&& es2[k].health == es0[k].health - HIT_DAMAGE * hits(ts2, k)
            &&& dead2[k] <==> es2[k].health <= 0
            &&& es2[k].pos == es0[k].pos
            &&& es2[k].vel == es0[k].vel
            &&& es2[k].variant == es0[k].variant
            &&& es2[k].health > -HIT_DAMAGE
        } by {
            lemma_hits_push(ts, t, k);
            assert(es[k].health == es0[k].health - HIT_DAMAGE * hits(ts, k));
            if k == t {
                assert(hits(ts2, k) == hits(ts, k) + 1);
            } else {
                assert(es2[k] == es[k]);
            }
        }
        assert(es2.len() == es0.len());
        assert(dead2.len() == es0.len());
        assert(ts2.len() == i);
    } else {
        let (es, dead, ts) = pass_after(bs, es0, 0);
        assert forall|k: int| #![trigger es[k]] 0 <= k < es0.len() implies {
            &&& es[k].health == es0[k].health - HIT_DAMAGE * hits(ts, k)
            &&& dead[k] <==> es[k].health <= 0
            &&& es[k].health > -HIT_DAMAGE
        } by {
            assert(es0[k].valid());
            assert(hits(ts, k) == 0);
        }
    }
}

/// One-hit law of one pass: each bubble hits at most one enemy, the one it
/// hits lies within the hit radius, and the hits taken by all enemies add up
/// to the number of bubbles that hit something.
pub proof fn lemma_pass_single_hit(bs: Seq<Bubble>, es0: Seq<Enemy>, i: nat)
    requires
        all_standing(es0),
        i <= bs.len(),
    ensures
        ({
            let (es, dead, ts) = pass_after(bs, es0, i);
            &&& ts.len() == i
            &&& total_hits(ts, es0.len()) == scoring(ts)
            &&& forall|b: int|
                0 <= b < i ==> #[trigger] ts[b] == -1 || (0 <= ts[b] < es0.len()
                    && in_hit_range(bs[b].pos, es0[ts[b]].pos))
        }),
    decreases i,
{
    lemma_pass_damage(bs, es0, i);
    if i > 0 {
        lemma_pass_single_hit(bs, es0, (i - 1) as nat);
        lemma_pass_damage(bs, es0, (i - 1) as nat);
        let (es, dead, ts) = pass_after(bs, es0, (i - 1) as nat);
        let b = bs[i - 1].pos;
        lemma_first_target_bounds(b, es, dead, 0);
        let t = first_target(b, es, dead);
        lemma_total_hits_push(ts, t, es0.len());
        lemma_hits_push(ts, t, 0);
        let ts2 = pass_after(bs, es0, i).2;
        assert forall|c: int| 0 <= c < i implies #[trigger] ts2[c] == -1 || (0 <= ts2[c]
            < es0.len() && in_hit_range(bs[c].pos, es0[ts2[c]].pos)) by {
            if c < i - 1 {
                assert(ts2[c] == ts[c]);
            }
        }
    } else {
        assert(total_hits(Seq::empty(), es0.len()) == 0) by {
            lemma_total_hits_empty(es0.len());
        }
    }
}

proof fn lemma_total_hits_empty(n: nat)
    ensures
        total_hits(Seq::empty(), n) == 0,
    decreases n,
{
    if n > 0 {
        lemma_total_hits_empty((n - 1) as nat);
    }
}

/// The index of the first enemy that is standing and within range of `b`.
pub fn find_target(b: Point, enemies: &Vec<Enemy>, dead: &Vec<bool>) -> (r: Option<usize>)
    requires
        b.in_world(),
        dead@.len() == enemies@.len(),
        forall|k: int| 0 <= k < enemies@.len() ==> (#[trigger] enemies@[k]).pos.in_world(),
    ensures
        match r {
            Some(k) => k as int == first_target(b, enemies@, dead@),
            None => first_target(b, enemies@, dead@) == -1,
        },
{
    let mut k: usize = 0;
    while k < enemies.len()
        invariant
            k <= enemies@.len(),
            b.in_world(),
            dead@.len() == enemies@.len(),
            forall|j: int| 0 <= j < enemies@.len() ==> (#[trigger] enemies@[j]).pos.in_world(),
            first_target(b, enemies@, dead@) == first_target_from(
                b,
                enemies@,
                dead@,
                k as nat,
            ),
        decreases enemies@.len() - k,
    {
        let e = enemies[k].pos;
        let dx = b.x as i128 - e.x as i128;
        let dy = b.y as i128 - e.y as i128;
        assert(0 <= dx * dx <= 4_000_000_000_000_000_000) by (nonlinear_arith)
            requires
                -2_000_000_000 <= dx <= 2_000_000_000,
        ;
        assert(0 <= dy * dy <= 4_000_000_000_000_000_000) by (nonlinear_arith)
            requires
                -2_000_000_000 <= dy <= 2_000_000_000,
        ;
        if !dead[k] && dx * dx + dy * dy < 900_000_000 {
            return Some(k);
        }
        k += 1;
    }
    None
}

/// Runs one pass without removing anything: the enemies' health is updated,
/// and the result flags the bubbles that hit and the enemies that fell.
pub fn collision_pass(bubbles: &Vec<Bubble>, enemies: &mut Vec<Enemy>) -> (r: (Vec<bool>, Vec<bool>))
    requires
        forall|b: int| 0 <= b < bubbles@.len() ==> (#[trigger] bubbles@[b]).pos.in_world(),
        all_standing(old(enemies)@),
    ensures
        ({
            let (es, dead, ts) = pass_after(bubbles@, old(enemies)@, bubbles@.len());
            &&& final(enemies)@ == es
            &&& r.1@ == dead
            &&& r.0@ == Seq::new(bubbles@.len(), |b: int| ts[b] >= 0)
        }),
{
    let ghost es0 = enemies@;
    let mut hit: Vec<bool> = Vec::new();
    let mut dead: Vec<bool> = Vec::new();
    let mut k: usize = 0;
    while k < enemies.len()
        invariant
            k <= enemies@.len(),
            enemies@ == es0,
            dead@ == Seq::new(k as nat, |j: int| false),
        decreases enemies@.len() - k,
    {
        dead.push(false);
        k += 1;
    }
    let mut i: usize = 0;
    while i < bubbles.len()
        invariant
            i <= bubbles@.len(),
            forall|b: int| 0 <= b < bubbles@.len() ==> (#[trigger] bubbles@[b]).pos.in_world(),
            all_standing(es0),
            enemies@ == pass_after(bubbles@, es0, i as nat).0,
            dead@ == pass_after(bubbles@, es0, i as nat).1,
            hit@ == Seq::new(i as nat, |b: int| pass_after(bubbles@, es0, i as nat).2[b] >= 0),
        decreases bubbles@.len() - i,
    {
        proof {
            lemma_pass_damage(bubbles@, es0, i as nat);
            lemma_pass_damage(bubbles@, es0, (i + 1) as nat);
        }
        let ghost ts = pass_after(bubbles@, es0, i as nat).2;
        let ghost es_i = enemies@;
        let ghost dead_i = dead@;
        proof {
            assert forall|j: int| 0 <= j < enemies@.len() implies (#[trigger] enemies@[j]).pos.in_world() by {
                assert(es0[j].valid());
            }
        }
        let found = find_target(bubbles[i].pos, enemies, &dead);
        let ghost t: int = first_target(bubbles@[i as int].pos, es_i, dead_i);
        proof {
            lemma_first_target_bounds(bubbles@[i as int].pos, enemies@, dead@, 0);
        }
        match found {
            Some(tu) => {
                let before = enemies[tu];
                let e = Enemy { health: before.health - HIT_DAMAGE, ..before };
                let fell = e.health <= 0;
                enemies.set(tu, e);
                assert(enemies@ =~= es_i.update(t, damaged(es_i[t])));
                dead.set(tu, fell);
                hit.push(true);
            },
            None => {
                hit.push(false);
            },
        }
        proof {
            let ts2 = pass_after(bubbles@, es0, (i + 1) as nat).2;
            let (es_a, dead_a, ts_a) = pass_after(bubbles@, es0, i as nat);
            assert(es_a == es_i && dead_a == dead_i && ts_a == ts);
            assert(ts2 == ts.push(t));
            assert(hit@ =~= Seq::new((i + 1) as nat, |b: int| ts2[b] >= 0));
        }
        i += 1;
    }
    (hit, dead)
}

/// The items of `v` whose flag is false, in order.
pub fn remove_flagged<T: Copy>(v: &Vec<T>, flags: &Vec<bool>) -> (r: Vec<T>)
    requires
        flags@.len() == v@.len(),
    ensures
        r@ == keep(v@, flags@),
        r@.len() <= v@.len(),
{
    let mut r: Vec<T> = Vec::new();
    let mut i: usize = 0;
    while i < v.len()
        invariant
            i <= v@.len(),
            flags@.len() == v@.len(),
            r@ == keep(v@.take(i as int), flags@.take(i as int)),
            r@.len() <= i,
        decreases v@.len() - i,
    {
        proof {
            assert(v@.take(i + 1).drop_last() =~= v@.take(i as int));
            assert(flags@.take(i + 1).take(i as int) =~= flags@.take(i as int));
        }
        if !flags[i] {
            r.push(v[i]);
        }
        i += 1;
    }
    proof {
        assert(v@.take(v@.len() as int) =~= v@);
        assert(flags@.take(v@.len() as int) =~= flags@);
    }
    r
}

/// Every item that `keep` leaves is an unflagged item of the original.
pub proof fn lemma_keep_from<T>(s: Seq<T>, flags: Seq<bool>)
    requires
        flags.len() == s.len(),
    ensures
        forall|j: int|
            0 <= j < keep(s, flags).len() ==> exists|i: int|
                0 <= i < s.len() && !flags[i] && #[trigger] keep(s, flags)[j] == s[i],
    decreases s.len(),
{
    if s.len() > 0 {
        let n = s.len() - 1;
        lemma_keep_from(s.drop_last(), flags.take(n));
        let rest = keep(s.drop_last(), flags.take(n));
        assert forall|j: int| 0 <= j < keep(s, flags).len() implies exists|i: int|
            0 <= i < s.len() && !flags[i] && #[trigger] keep(s, flags)[j] == s[i] by {
            if j < rest.len() {
                let i = choose|i: int|
                    0 <= i < s.drop_last().len() && !flags.take(n)[i] && rest[j]
                        == s.drop_last()[i];
                assert(keep(s, flags)[j] == s[i]);
            } else {
                assert(keep(s, flags)[j] == s[n]);
            }
        }
    }
}

/// The bubbles and enemies left after a whole pass and its removals.
pub open spec fn collided(bs: Seq<Bubble>, es0: Seq<Enemy>) -> (Seq<Bubble>, Seq<Enemy>) {
    let (es, dead, ts) = pass_after(bs, es0, bs.len());
    (keep(bs, Seq::new(bs.len(), |b: int| ts[b] >= 0)), keep(es, dead))
}

/// The health that enemy `k` has at the end of a pass.
pub open spec fn health_after(bs: Seq<Bubble>, es: Seq<Enemy>, k: int) -> int {
    pass_after(bs, es, bs.len()).0[k].health as int
}

/// The hits that enemy `k` takes in a pass.
pub open spec fn hits_in(bs: Seq<Bubble>, es: Seq<Enemy>, k: int) -> nat {
    hits(pass_after(bs, es, bs.len()).2, k)
}

/// The hits that the tracked enemy takes over the first `n` passes of a run;
/// each pass is its bubbles, its enemies, and the tracked enemy's index.
pub open spec fn hits_over(run: Seq<(Seq<Bubble>, Seq<Enemy>, int)>, n: nat) -> nat
    decreases n,
{
    if n == 0 {
        0
    } else {
        hits_over(run, (n - 1) as nat) + hits_in(run[n - 1].0, run[n - 1].1, run[n - 1].2)
    }
}

/// A run of passes that follows one enemy: it takes part in each, standing,
/// and enters each pass after the first with the health it left the previous
/// one with.
pub open spec fn follows_one_enemy(run: Seq<(Seq<Bubble>, Seq<Enemy>, int)>) -> bool {
    &&& forall|j: int|
        0 <= j < run.len() ==> all_standing(#[trigger] run[j].1) && 0 <= run[j].2 < run[j].1.len()
    &&& forall|j: int|
        #![trigger run[j]]
        1 <= j < run.len() ==> run[j].1[run[j].2].health as int == health_after(
            run[j - 1].0,
            run[j - 1].1,
            run[j - 1].2,
        )
}

/// Damage law over several passes: an enemy followed through a run of
/// passes ends with its starting health less `HIT_DAMAGE` for every hit it
/// took in all of them, and it falls in the last pass exactly when that
/// health is at or below zero.
pub proof fn lemma_passes_damage(run: Seq<(Seq<Bubble>, Seq<Enemy>, int)>, n: nat)
    requires
        1 <= n <= run.len(),
        follows_one_enemy(run),
    ensures
        health_after(run[n - 1].0, run[n - 1].1, run[n - 1].2) == run[0].1[run[0].2].health
            - HIT_DAMAGE * hits_over(run, n),
        pass_after(run[n - 1].0, run[n - 1].1, run[n - 1].0.len()).1[run[n - 1].2] <==> health_after(
            run[n - 1].0,
            run[n - 1].1,
            run[n - 1].2,
        ) <= 0,
    decreases n,
{
    let last = run[n - 1];
    assert(all_standing(last.1) && 0 <= last.2 < last.1.len());
    lemma_pass_damage(last.0, last.1, last.0.len());
    let es = pass_after(last.0, last.1, last.0.len()).0;
    assert(es[last.2].health == last.1[last.2].health - HIT_DAMAGE * hits_in(last.0, last.1, last.2));
    if n > 1 {
        lemma_passes_damage(run, (n - 1) as nat);
        assert(run[n - 1].1[run[n - 1].2].health as int == health_after(
            run[n - 2].0,
            run[n - 2].1,
            run[n - 2].2,
        ));
        assert(HIT_DAMAGE * hits_over(run, n) == HIT_DAMAGE * hits_over(run, (n - 1) as nat)
            + HIT_DAMAGE * hits_in(last.0, last.1, last.2)) by (nonlinear_arith)
            requires
                hits_over(run, n) == hits_over(run, (n - 1) as nat) + hits_in(
                    last.0,
                    last.1,
                    last.2,
                ),
        ;
    }
}

/// Resolves the collisions of one tick: runs the pass, then removes the
/// bubbles that hit and the enemies that fell.
pub fn resolve_collisions(bubbles: &mut Vec<Bubble>, enemies: &mut Vec<Enemy>)
    requires
        forall|b: int| 0 <= b < old(bubbles)@.len() ==> (#[trigger] old(bubbles)@[b]).valid(),
        all_standing(old(enemies)@),
    ensures
        (final(bubbles)@, final(enemies)@) == collided(old(bubbles)@, old(enemies)@),
        forall|b: int| 0 <= b < final(bubbles)@.len() ==> (#[trigger] final(bubbles)@[b]).valid(),
        all_standing(final(enemies)@),
        final(bubbles)@.len() <= old(bubbles)@.len(),
        final(enemies)@.len() <= old(enemies)@.len(),
{
    let ghost bs0 = bubbles@;
    let ghost es0 = enemies@;
    let (hit, dead) = collision_pass(bubbles, enemies);
    proof {
        lemma_pass_damage(bs0, es0, bs0.len());
    }
    let kept_bubbles = remove_flagged(bubbles, &hit);
    let kept_enemies = remove_flagged(enemies, &dead);
    proof {
        lemma_keep_from(bs0, hit@);
        lemma_keep_from(enemies@, dead@);
        let es = enemies@;
        assert forall|j: int| 0 <= j < kept_enemies@.len() implies #[trigger] kept_enemies@[j].valid() by {
            let i = choose|i: int| 0 <= i < es.len() && !dead@[i] && kept_enemies@[j] == es[i];
            assert(es0[i].valid());
            assert(es[i].health == es0[i].health - HIT_DAMAGE * hits(pass_after(bs0, es0, bs0.len()).2, i));
        }
        assert forall|j: int| 0 <= j < kept_bubbles@.len() implies #[trigger] kept_bubbles@[j].valid() by {
            let i = choose|i: int| 0 <= i < bs0.len() && !hit@[i] && kept_bubbles@[j] == bs0[i];
            assert(bs0[i].valid());
        }
    }
    *bubbles = kept_bubbles;
    *enemies = kept_enemies;
}

} // verus!
