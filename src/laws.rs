use vstd::prelude::*;
use crate::kind::{ShaderKind, ext_of, dedup, lemma_dedup};
use crate::record::Timestamp;
use crate::discover::{is_stale, stale_of, candidates_of, found_as};
use crate::output::output_path_of;
use crate::finish::{apply_log, persisted_as};
use crate::record::record_in;

verus! {

/// The modification times read from disk for each candidate, where `now` maps
/// each path on disk to its current modification time.
pub open spec fn times_in(c: Seq<(Seq<char>, ShaderKind)>, now: Map<Seq<char>, Timestamp>) -> Seq<Option<Timestamp>> {
    c.map_values(|x: (Seq<char>, ShaderKind)| Some(now[x.0]))
}

/// The paths of a list of candidates.
pub open spec fn paths_of(c: Seq<(Seq<char>, ShaderKind)>) -> Seq<Seq<char>> {
    c.map_values(|x: (Seq<char>, ShaderKind)| x.0)
}

/// The record `rec` after each path of `ps` was logged, in turn, with its
/// current modification time.
pub open spec fn logged(rec: Map<Seq<char>, Timestamp>, ps: Seq<Seq<char>>, now: Map<Seq<char>, Timestamp>) -> Map<Seq<char>, Timestamp>
    decreases ps.len(),
{
    if ps.len() == 0 {
        rec
    } else {
        logged(rec, ps.drop_last(), now).insert(ps.last(), now[ps.last()])
    }
}

/// A candidate is among those to compile exactly when some candidate equal to
/// it is stale.
pub proof fn lemma_stale_member(c: Seq<(Seq<char>, ShaderKind)>, rec: Map<Seq<char>, Timestamp>, t: Seq<Option<Timestamp>>)
    requires
        c.len() == t.len(),
    ensures
        forall|x: (Seq<char>, ShaderKind)| #[trigger] stale_of(c, rec, t).contains(x) <==>
            exists|i: int| 0 <= i < c.len() && c[i] == x && is_stale(rec, c[i].0, t[i]),
    decreases c.len(),
{
    if c.len() > 0 {
        let (c0, t0) = (c.drop_last(), t.drop_last());
        lemma_stale_member(c0, rec, t0);
        let s0 = stale_of(c0, rec, t0);
        assert forall|x: (Seq<char>, ShaderKind)| #[trigger] stale_of(c, rec, t).contains(x) <==>
            exists|i: int| 0 <= i < c.len() && c[i] == x && is_stale(rec, c[i].0, t[i]) by {
            let last = c.len() - 1;
            if stale_of(c, rec, t).contains(x) {
                if s0.contains(x) {
                    let i = choose|i: int| 0 <= i < c0.len() && c0[i] == x && is_stale(rec, c0[i].0, t0[i]);
                    assert(c[i] == x && t[i] == t0[i]);
                } else {
                    let k = choose|k: int| 0 <= k < stale_of(c, rec, t).len() && stale_of(c, rec, t)[k] == x;
                    if is_stale(rec, c.last().0, t.last()) {
                        if k < s0.len() {
                            assert(s0[k] == x);
                        }
                        assert(c[last] == x);
                    } else {
                        assert(s0[k] == x);
                    }
                }
            }
            if exists|i: int| 0 <= i < c.len() && c[i] == x && is_stale(rec, c[i].0, t[i]) {
                let i = choose|i: int| 0 <= i < c.len() && c[i] == x && is_stale(rec, c[i].0, t[i]);
                if i < last {
                    assert(c0[i] == x && t0[i] == t[i]);
                    assert(s0.contains(x));
                    let k = choose|k: int| 0 <= k < s0.len() && s0[k] == x;
                    if is_stale(rec, c.last().0, t.last()) {
                        assert(s0.push(c.last())[k] == x);
                    }
                } else {
                    assert(s0.push(c.last())[s0.len() as int] == x);
                }
            }
        }
    }
}

/// Logging paths keeps every other recorded path as it was, and leaves each
/// logged path with its current time.
pub proof fn lemma_logged(rec: Map<Seq<char>, Timestamp>, ps: Seq<Seq<char>>, now: Map<Seq<char>, Timestamp>)
    ensures
        forall|k: Seq<char>| ps.contains(k) ==> #[trigger] logged(rec, ps, now).contains_key(k) && logged(rec, ps, now)[k] == now[k],
        forall|k: Seq<char>| !ps.contains(k) ==> (#[trigger] logged(rec, ps, now).contains_key(k) <==> rec.contains_key(k)),
        forall|k: Seq<char>| !ps.contains(k) && rec.contains_key(k) ==> #[trigger] logged(rec, ps, now)[k] == rec[k],
    decreases ps.len(),
{
    if ps.len() > 0 {
        let p0 = ps.drop_last();
        let m0 = logged(rec, p0, now);
        lemma_logged(rec, p0, now);
        assert(logged(rec, ps, now) == m0.insert(ps.last(), now[ps.last()]));
        assert forall|k: Seq<char>| #[trigger] ps.contains(k) <==> (p0.contains(k) || k == ps.last()) by {
            if ps.contains(k) && k != ps.last() {
                let i = choose|i: int| 0 <= i < ps.len() && ps[i] == k;
                assert(p0[i] == k);
            }
            if p0.contains(k) {
                let i = choose|i: int| 0 <= i < p0.len() && p0[i] == k;
                assert(ps[i] == k);
            }
            if k == ps.last() {
                assert(ps[ps.len() - 1] == k);
            }
        }
        assert forall|k: Seq<char>| #[trigger] logged(rec, ps, now).contains_key(k) <==> (m0.contains_key(k) || k == ps.last()) by {}
        assert forall|k: Seq<char>| k != ps.last() implies #[trigger] logged(rec, ps, now)[k] == m0[k] by {}
    }
}

/// Once every candidate that was stale has been compiled and logged, with no
/// source changed since, a second run finds nothing to compile.
pub proof fn lemma_second_run_compiles_nothing(
    c: Seq<(Seq<char>, ShaderKind)>,
    rec: Map<Seq<char>, Timestamp>,
    now: Map<Seq<char>, Timestamp>,
)
    requires
        forall|i: int| 0 <= i < c.len() ==> now.contains_key(#[trigger] c[i].0),
    ensures
        stale_of(c, logged(rec, paths_of(stale_of(c, rec, times_in(c, now))), now), times_in(c, now)) == Seq::<(Seq<char>, ShaderKind)>::empty(),
{
    let t = times_in(c, now);
    let s = stale_of(c, rec, t);
    let ps = paths_of(s);
    let rec2 = logged(rec, ps, now);
    let s2 = stale_of(c, rec2, t);
    lemma_stale_member(c, rec, t);
    lemma_stale_member(c, rec2, t);
    lemma_logged(rec, ps, now);
    if s2.len() > 0 {
        let x = s2[0];
        assert(s2.contains(x));
        let i = choose|i: int| 0 <= i < c.len() && c[i] == x && is_stale(rec2, c[i].0, t[i]);
        let p = c[i].0;
        assert(t[i] == Some(now[p]));
        assert(rec2.contains_key(p) ==> rec2[p] != now[p]);
        if is_stale(rec, p, t[i]) {
            assert(s.contains(c[i]));
            let k = choose|k: int| 0 <= k < s.len() && s[k] == c[i];
            assert(ps[k] == p);
            assert(ps.contains(p));
        } else if ps.contains(p) {
        } else {
            assert(rec2[p] == rec[p]);
        }
    }
    assert(s2 =~= Seq::<(Seq<char>, ShaderKind)>::empty());
}

/// A recorded source is compiled again exactly when its modification time now
/// differs, in either direction, from the recorded one.
pub proof fn lemma_touched_recompiles(
    c: Seq<(Seq<char>, ShaderKind)>,
    rec: Map<Seq<char>, Timestamp>,
    now: Map<Seq<char>, Timestamp>,
    i: int,
)
    requires
        0 <= i < c.len(),
        rec.contains_key(c[i].0),
        forall|j: int| 0 <= j < c.len() ==> now.contains_key(#[trigger] c[j].0),
    ensures
        stale_of(c, rec, times_in(c, now)).contains(c[i]) <==> now[c[i].0] != rec[c[i].0],
{
    let t = times_in(c, now);
    lemma_stale_member(c, rec, t);
    if stale_of(c, rec, t).contains(c[i]) {
        let j = choose|j: int| 0 <= j < c.len() && c[j] == c[i] && is_stale(rec, c[j].0, t[j]);
        assert(t[j] == Some(now[c[j].0]));
    }
    if now[c[i].0] != rec[c[i].0] {
        assert(t[i] == Some(now[c[i].0]));
    }
}

/// Where one stale candidate fails to compile and the others are compiled and
/// logged, the next run with no source changed compiles that candidate alone.
/// No other stale candidate may share its path, as the record keeps one time
/// per path.
pub proof fn lemma_only_failure_recompiles(
    c: Seq<(Seq<char>, ShaderKind)>,
    rec: Map<Seq<char>, Timestamp>,
    now: Map<Seq<char>, Timestamp>,
    f: int,
)
    requires
        forall|i: int| 0 <= i < c.len() ==> now.contains_key(#[trigger] c[i].0),
        0 <= f < stale_of(c, rec, times_in(c, now)).len(),
        forall|j: int| 0 <= j < stale_of(c, rec, times_in(c, now)).len() && j != f ==>
            (#[trigger] stale_of(c, rec, times_in(c, now))[j]).0 != stale_of(c, rec, times_in(c, now))[f].0,
    ensures
        forall|x: (Seq<char>, ShaderKind)| #[trigger] stale_of(
            c,
            logged(rec, paths_of(stale_of(c, rec, times_in(c, now)).remove(f)), now),
            times_in(c, now),
        ).contains(x) <==> x == stale_of(c, rec, times_in(c, now))[f],
{
    let t = times_in(c, now);
    let s = stale_of(c, rec, t);
    let ps = paths_of(s.remove(f));
    let rec2 = logged(rec, ps, now);
    let s2 = stale_of(c, rec2, t);
    lemma_stale_member(c, rec, t);
    lemma_stale_member(c, rec2, t);
    lemma_logged(rec, ps, now);
    assert(!ps.contains(s[f].0)) by {
        if ps.contains(s[f].0) {
            let k = choose|k: int| 0 <= k < ps.len() && ps[k] == s[f].0;
            if k < f {
                assert(s.remove(f)[k] == s[k]);
            } else {
                assert(s.remove(f)[k] == s[k + 1]);
            }
        }
    }
    assert forall|x: (Seq<char>, ShaderKind)| #[trigger] s2.contains(x) <==> x == s[f] by {
        if s2.contains(x) {
            let i = choose|i: int| 0 <= i < c.len() && c[i] == x && is_stale(rec2, c[i].0, t[i]);
            let p = c[i].0;
            assert(t[i] == Some(now[p]));
            if ps.contains(p) {
                assert(rec2[p] == now[p]);
            } else {
                assert(is_stale(rec, p, t[i]));
                assert(s.contains(x));
                let j = choose|j: int| 0 <= j < s.len() && s[j] == x;
                if j != f {
                    if j < f {
                        assert(s.remove(f)[j] == s[j]);
                        assert(ps[j] == p);
                    } else {
                        assert(s.remove(f)[j - 1] == s[j]);
                        assert(ps[j - 1] == p);
                    }
                }
            }
        }
        if x == s[f] {
            assert(s.contains(x));
            let i = choose|i: int| 0 <= i < c.len() && c[i] == x && is_stale(rec, c[i].0, t[i]);
            assert(is_stale(rec2, c[i].0, t[i]));
        }
    }
}

/// Each path that the search for a kind matched is a candidate of that kind:
/// a file matched by two kinds is two candidates.
pub proof fn lemma_found_is_candidate(kinds: Seq<ShaderKind>, found: Seq<Seq<Seq<char>>>, i: int, p: Seq<char>)
    requires
        kinds.len() == found.len(),
        0 <= i < kinds.len(),
        found[i].contains(p),
    ensures
        candidates_of(kinds, found).contains((p, kinds[i])),
    decreases kinds.len(),
{
    let (k0, f0) = (kinds.drop_last(), found.drop_last());
    let head = candidates_of(k0, f0);
    let tail = found_as(found.last(), kinds.last());
    assert(candidates_of(kinds, found) == head + tail);
    if i < kinds.len() - 1 {
        assert(k0[i] == kinds[i] && f0[i] == found[i]);
        lemma_found_is_candidate(k0, f0, i, p);
        let k = choose|k: int| 0 <= k < head.len() && head[k] == (p, kinds[i]);
        assert((head + tail)[k] == (p, kinds[i]));
    } else {
        let k = choose|k: int| 0 <= k < found[i].len() && found[i][k] == p;
        assert(tail[k] == (p, kinds[i]));
        assert((head + tail)[head.len() + k] == (p, kinds[i]));
    }
}

/// Where the searches for two of the requested kinds both match a file, the
/// file is two candidates, one of each kind, and the two kinds differ.
pub proof fn lemma_two_kinds_two_candidates(
    requested: Seq<ShaderKind>,
    found: Seq<Seq<Seq<char>>>,
    i: int,
    j: int,
    p: Seq<char>,
)
    requires
        found.len() == dedup(requested).len(),
        0 <= i < found.len(),
        0 <= j < found.len(),
        i != j,
        found[i].contains(p),
        found[j].contains(p),
    ensures
        dedup(requested)[i] != dedup(requested)[j],
        candidates_of(dedup(requested), found).contains((p, dedup(requested)[i])),
        candidates_of(dedup(requested), found).contains((p, dedup(requested)[j])),
{
    lemma_dedup(requested);
    lemma_found_is_candidate(dedup(requested), found, i, p);
    lemma_found_is_candidate(dedup(requested), found, j, p);
}

/// Outputs of two different kinds never share a destination, whatever the
/// sources' paths.
pub proof fn lemma_outputs_never_collide(
    root: Seq<char>,
    out: Seq<char>,
    l1: Seq<char>,
    k1: ShaderKind,
    l2: Seq<char>,
    k2: ShaderKind,
)
    requires
        k1 != k2,
        output_path_of(root, out, l1, k1) is Some,
        output_path_of(root, out, l2, k2) is Some,
    ensures
        output_path_of(root, out, l1, k1)->0 != output_path_of(root, out, l2, k2)->0,
{
    let d1 = output_path_of(root, out, l1, k1)->0;
    let d2 = output_path_of(root, out, l2, k2)->0;
    let e1 = ext_of(k1)->0;
    let e2 = ext_of(k2)->0;
    assert(e1.len() == 4 && e2.len() == 4);
    assert(d1.subrange(d1.len() - 4, d1.len() as int) =~= e1);
    assert(d2.subrange(d2.len() - 4, d2.len() as int) =~= e2);
    assert(e1[0] != e2[0] || e1[1] != e2[1]);
}

/// The record that is persisted holds every output logged before it, even
/// where a later write failed: each logged path with the time last logged for
/// it, and every other recorded path as it was.
pub proof fn lemma_persisted_record_holds_log(rec: Map<Seq<char>, Timestamp>, log: Seq<(Seq<char>, Timestamp)>)
    ensures
        forall|i: int| 0 <= i < log.len() ==> #[trigger] apply_log(rec, log).contains_key(log[i].0),
        log.len() > 0 ==> apply_log(rec, log)[log.last().0] == log.last().1,
        forall|k: Seq<char>| (forall|i: int| 0 <= i < log.len() ==> #[trigger] log[i].0 != k) ==>
            (#[trigger] apply_log(rec, log).contains_key(k) <==> rec.contains_key(k))
            && (rec.contains_key(k) ==> apply_log(rec, log)[k] == rec[k]),
    decreases log.len(),
{
    if log.len() > 0 {
        let l0 = log.drop_last();
        lemma_persisted_record_holds_log(rec, l0);
        assert forall|i: int| 0 <= i < log.len() implies #[trigger] apply_log(rec, log).contains_key(log[i].0) by {
            if i < l0.len() {
                assert(l0[i] == log[i]);
            }
        }
        assert forall|k: Seq<char>| (forall|i: int| 0 <= i < log.len() ==> #[trigger] log[i].0 != k) implies
            (#[trigger] apply_log(rec, log).contains_key(k) <==> rec.contains_key(k))
            && (rec.contains_key(k) ==> apply_log(rec, log)[k] == rec[k]) by {
            assert(log[log.len() - 1].0 != k);
            assert forall|i: int| 0 <= i < l0.len() implies #[trigger] l0[i].0 != k by {
                assert(l0[i] == log[i]);
            }
            assert(apply_log(rec, log) == apply_log(rec, l0).insert(log.last().0, log.last().1));
            assert(apply_log(rec, l0).contains_key(k) <==> rec.contains_key(k));
        }
    }
}

/// The bytes handed out for persisting load back, on the next run, to exactly
/// the record they were made from: same paths, same times.
pub proof fn lemma_persisted_loads_back(bytes: Seq<u8>, rec: Map<Seq<char>, Timestamp>)
    requires
        persisted_as(bytes, rec),
    ensures
        record_in(bytes) == rec,
{
}

/// Logging outputs with the times their sources have now, as the last part of
/// a run does, gives the record that `logged` describes.
pub proof fn lemma_log_is_logged(
    rec: Map<Seq<char>, Timestamp>,
    log: Seq<(Seq<char>, Timestamp)>,
    now: Map<Seq<char>, Timestamp>,
)
    requires
        forall|i: int| 0 <= i < log.len() ==> (#[trigger] log[i]).1 == now[log[i].0],
    ensures
        apply_log(rec, log) == logged(rec, log.map_values(|e: (Seq<char>, Timestamp)| e.0), now),
    decreases log.len(),
{
    if log.len() > 0 {
        let l0 = log.drop_last();
        assert forall|i: int| 0 <= i < l0.len() implies (#[trigger] l0[i]).1 == now[l0[i].0] by {
            assert(l0[i] == log[i]);
        }
        lemma_log_is_logged(rec, l0, now);
        let ps = log.map_values(|e: (Seq<char>, Timestamp)| e.0);
        assert(ps.drop_last() =~= l0.map_values(|e: (Seq<char>, Timestamp)| e.0));
        assert(log[log.len() - 1] == log.last());
    }
}

/// A run that compiled and logged every stale candidate persists a record
/// from which the next run, with no source changed, compiles nothing.
pub proof fn lemma_rerun_after_persist_compiles_nothing(
    c: Seq<(Seq<char>, ShaderKind)>,
    rec: Map<Seq<char>, Timestamp>,
    now: Map<Seq<char>, Timestamp>,
    bytes: Seq<u8>,
)
    requires
        forall|i: int| 0 <= i < c.len() ==> now.contains_key(#[trigger] c[i].0),
        persisted_as(bytes, logged(rec, paths_of(stale_of(c, rec, times_in(c, now))), now)),
    ensures
        stale_of(c, record_in(bytes), times_in(c, now)) == Seq::<(Seq<char>, ShaderKind)>::empty(),
{
    lemma_persisted_loads_back(bytes, logged(rec, paths_of(stale_of(c, rec, times_in(c, now))), now));
    lemma_second_run_compiles_nothing(c, rec, now);
}

/// A best-effort run in which one stale candidate failed persists a record
/// from which the next run, with no source changed, compiles that candidate
/// alone.
pub proof fn lemma_rerun_after_one_failure(
    c: Seq<(Seq<char>, ShaderKind)>,
    rec: Map<Seq<char>, Timestamp>,
    now: Map<Seq<char>, Timestamp>,
    f: int,
    bytes: Seq<u8>,
)
    requires
        forall|i: int| 0 <= i < c.len() ==> now.contains_key(#[trigger] c[i].0),
        0 <= f < stale_of(c, rec, times_in(c, now)).len(),
        forall|j: int| 0 <= j < stale_of(c, rec, times_in(c, now)).len() && j != f ==>
            (#[trigger] stale_of(c, rec, times_in(c, now))[j]).0 != stale_of(c, rec, times_in(c, now))[f].0,
        persisted_as(bytes, logged(rec, paths_of(stale_of(c, rec, times_in(c, now)).remove(f)), now)),
    ensures
        forall|x: (Seq<char>, ShaderKind)| #[trigger] stale_of(c, record_in(bytes), times_in(c, now)).contains(x)
            <==> x == stale_of(c, rec, times_in(c, now))[f],
{
    lemma_persisted_loads_back(bytes, logged(rec, paths_of(stale_of(c, rec, times_in(c, now)).remove(f)), now));
    lemma_only_failure_recompiles(c, rec, now, f);
}

} // verus!
