//! Ports for connections: each connection has a port of its own out of a range.
//!
//! Whether a port is free on the machine is asked of a probe.

use vstd::prelude::*;

use crate::error::AppError;
use crate::error::ErrorView;
use crate::string_map::StringMap;
use crate::text;

verus! {

/// The range of ports, and the port of each connection by its id.
pub struct PortConfig {
    pub base: u16,
    pub max: u16,
    pub assignments: StringMap<u16>,
}

/// Whether a port is taken: assigned, or to be left out.
pub open spec fn taken(assignments: Map<Seq<char>, u16>, exclude: Option<u16>, p: u16) -> bool {
    assignments.contains_value(p) || exclude == Some(p)
}

/// Whether `p` was not to be had: taken, or not free when the probe was asked.
pub open spec fn not_to_be_had<F: Fn(u16) -> bool>(
    assignments: Map<Seq<char>, u16>,
    exclude: Option<u16>,
    probe: F,
    p: u16,
) -> bool {
    taken(assignments, exclude, p) || call_ensures(probe, (p,), false)
}

/// Whether `r` is the first port of a range that was to be had.
pub open spec fn is_first_free<F: Fn(u16) -> bool>(
    base: u16,
    max: u16,
    assignments: Map<Seq<char>, u16>,
    exclude: Option<u16>,
    probe: F,
    r: Option<u16>,
) -> bool {
    match r {
        Some(p) => {
            &&& base <= p <= max
            &&& !taken(assignments, exclude, p)
            &&& call_ensures(probe, (p,), true)
            &&& forall|q: u16| base <= q < p ==> #[trigger] not_to_be_had(assignments, exclude, probe, q)
        },
        None => forall|q: u16| base <= q <= max ==> #[trigger] not_to_be_had(assignments, exclude, probe, q),
    }
}

/// The first free port in `base..=max` that is not assigned, nor `exclude`.
pub fn next_free_port<F: Fn(u16) -> bool>(
    base: u16,
    max: u16,
    assignments: &StringMap<u16>,
    exclude: Option<u16>,
    probe: &F,
) -> (r: Option<u16>)
    requires
        forall|p: u16| call_requires(*probe, (p,)),
    ensures
        is_first_free(base, max, assignments@, exclude, *probe, r),
{
    if base > max {
        return None;
    }
    let mut p: u16 = base;
    loop
        invariant
            base <= p <= max,
            forall|q: u16| call_requires(*probe, (q,)),
            forall|q: u16| base <= q < p ==> #[trigger] not_to_be_had(assignments@, exclude, *probe, q),
        decreases max - p,
    {
        let excluded = match exclude {
            Some(e) => e == p,
            None => false,
        };
        if !assignments.has_value(p) && !excluded {
            if probe(p) {
                return Some(p);
            }
        }
        assert(not_to_be_had(assignments@, exclude, *probe, p));
        if p == max {
            return None;
        }
        p += 1;
    }
}

/// Whether a port that is asked for was to be had.
pub open spec fn granted<F: Fn(u16) -> bool>(cfg: PortConfig, probe: F, p: u16) -> bool {
    &&& !cfg.assignments@.contains_value(p)
    &&& cfg.base <= p <= cfg.max
    &&& call_ensures(probe, (p,), true)
}

/// Whether a port that is asked for was refused.
pub open spec fn refused<F: Fn(u16) -> bool>(cfg: PortConfig, probe: F, p: u16) -> bool {
    ||| cfg.assignments@.contains_value(p)
    ||| !(cfg.base <= p <= cfg.max)
    ||| call_ensures(probe, (p,), false)
}

/// Whether `r` is a port to give out: the one asked for, where it is to be had, or
/// else the first free one.
pub open spec fn is_choice<F: Fn(u16) -> bool>(
    cfg: PortConfig,
    requested: Option<u16>,
    probe: F,
    r: Option<u16>,
) -> bool {
    ||| requested is Some && r == requested && granted(cfg, probe, requested->0)
    ||| {
        &&& requested matches Some(q) ==> refused(cfg, probe, q)
        &&& is_first_free(cfg.base, cfg.max, cfg.assignments@, None, probe, r)
    }
}

fn choose_port<F: Fn(u16) -> bool>(cfg: &PortConfig, requested: Option<u16>, probe: &F) -> (r: Option<u16>)
    requires
        forall|p: u16| call_requires(*probe, (p,)),
    ensures
        is_choice(*cfg, requested, *probe, r),
{
    if let Some(p) = requested {
        if !cfg.assignments.has_value(p) && probe(p) && p >= cfg.base && p <= cfg.max {
            return Some(p);
        }
    }
    next_free_port(cfg.base, cfg.max, &cfg.assignments, None, probe)
}

/// Assigns a port to a connection: the one asked for, where it is to be had, or
/// else the first free one.
pub fn assign_port<F: Fn(u16) -> bool>(
    cfg: &mut PortConfig,
    connection_id: &str,
    requested: Option<u16>,
    probe: &F,
) -> (r: Result<u16, AppError>)
    requires
        forall|p: u16| call_requires(*probe, (p,)),
    ensures
        final(cfg).base == old(cfg).base,
        final(cfg).max == old(cfg).max,
        match r {
            Ok(p) => is_choice(*old(cfg), requested, *probe, Some(p)) && final(cfg).assignments@ == old(
                cfg,
            ).assignments@.insert(connection_id@, p),
            Err(e) => {
                &&& is_choice(*old(cfg), requested, *probe, None)
                &&& e@ == ErrorView::PortConflict("no free ports in range 50000-59999"@)
                &&& final(cfg).assignments@ == old(cfg).assignments@
            },
        },
{
    match choose_port(cfg, requested, probe) {
        Some(p) => {
            cfg.assignments.insert(connection_id, p);
            Ok(p)
        },
        None => Err(AppError::PortConflict("no free ports in range 50000-59999".to_owned())),
    }
}

/// Releases the port of a connection.
pub fn release_port(cfg: &mut PortConfig, connection_id: &str)
    ensures
        final(cfg).base == old(cfg).base,
        final(cfg).max == old(cfg).max,
        final(cfg).assignments@ == old(cfg).assignments@.remove(connection_id@),
{
    let _ = cfg.assignments.remove(connection_id);
}

/// Suggests a port: the one asked for, where it is to be had, or else the first
/// free one; the first of the range where none is.
pub fn suggest_port<F: Fn(u16) -> bool>(cfg: &PortConfig, requested: Option<u16>, probe: &F) -> (r: u16)
    requires
        forall|p: u16| call_requires(*probe, (p,)),
    ensures
        is_choice(*cfg, requested, *probe, Some(r)) || (r == cfg.base && is_choice(*cfg, requested, *probe, None)),
{
    match choose_port(cfg, requested, probe) {
        Some(p) => p,
        None => cfg.base,
    }
}

/// A connection that got another port: its id, its old port, its new port.
pub open spec fn moved_ids(r: Seq<(String, u16, u16)>) -> Seq<Seq<char>> {
    r.map_values(|m: (String, u16, u16)| m.0@)
}

/// Whether no two connections have the same port.
pub open spec fn ports_differ(assignments: Map<Seq<char>, u16>) -> bool {
    forall|a: Seq<char>, b: Seq<char>|
        assignments.contains_key(a) && assignments.contains_key(b) && a != b ==> #[trigger] assignments[a]
            != #[trigger] assignments[b]
}

/// What has become of the assignments once the ports of `done` were looked at.
spec fn reassigned_so_far<F: Fn(u16) -> bool>(
    cfg: PortConfig,
    now: Map<Seq<char>, u16>,
    probe: F,
    r: Seq<(String, u16, u16)>,
    done: Set<Seq<char>>,
) -> bool {
    let was = cfg.assignments@;
    &&& now.dom() == was.dom()
    &&& moved_ids(r).no_duplicates()
    &&& forall|i: int| 0 <= i < r.len() ==> is_move(cfg, now, probe, #[trigger] r[i]) && done.contains(r[i].0@)
    &&& forall|id: Seq<char>| #[trigger] was.contains_key(id) && !moved_ids(r).contains(id) ==> now[id] == was[id]
    &&& forall|id: Seq<char>| #[trigger]
        done.contains(id) && was.contains_key(id) && !moved_ids(r).contains(id) ==> stays(cfg, now, probe, id)
    &&& new_ports_differ(r)
    &&& forall|q: u16| #[trigger] was.contains_value(q) ==> now.contains_value(q) || call_ensures(probe, (q,), false)
    &&& ports_differ(was) ==> ports_differ(now)
}

/// Whether no two connections were moved to the same port.
pub open spec fn new_ports_differ(r: Seq<(String, u16, u16)>) -> bool {
    forall|i: int, j: int| 0 <= i < j < r.len() ==> (#[trigger] r[i]).2 != (#[trigger] r[j]).2
}

/// Whether a probe gives one answer for each port, however often it is asked.
pub open spec fn is_steady<F: Fn(u16) -> bool>(probe: F) -> bool {
    forall|p: u16| !(#[trigger] call_ensures(probe, (p,), true) && call_ensures(probe, (p,), false))
}

/// Whether a connection was moved as told: its old port was not free, its new one
/// is in the range and was. Where some connection had the new port before, the probe
/// has said of it, too, that it was not free.
pub open spec fn is_move<F: Fn(u16) -> bool>(
    cfg: PortConfig,
    now: Map<Seq<char>, u16>,
    probe: F,
    m: (String, u16, u16),
) -> bool {
    &&& cfg.assignments@.contains_key(m.0@)
    &&& cfg.assignments@[m.0@] == m.1
    &&& now.contains_key(m.0@)
    &&& now[m.0@] == m.2
    &&& m.1 != m.2
    &&& cfg.base <= m.2 <= cfg.max
    &&& call_ensures(probe, (m.1,), false)
    &&& call_ensures(probe, (m.2,), true)
    &&& cfg.assignments@.contains_value(m.2) ==> call_ensures(probe, (m.2,), false)
}

/// Whether a connection has reason to stay: its port was free, or every port of the
/// range is assigned or was not free.
pub open spec fn stays<F: Fn(u16) -> bool>(
    cfg: PortConfig,
    now: Map<Seq<char>, u16>,
    probe: F,
    id: Seq<char>,
) -> bool {
    ||| call_ensures(probe, (cfg.assignments@[id],), true)
    ||| forall|q: u16|
        cfg.base <= q <= cfg.max ==> now.contains_value(q) || #[trigger] call_ensures(probe, (q,), false)
}

/// Gives another port to each connection whose port is not free, where one is to be
/// had. Tells the id, the old and the new port of each.
pub fn validate_and_reassign<F: Fn(u16) -> bool>(cfg: &mut PortConfig, probe: &F) -> (r: Vec<(String, u16, u16)>)
    requires
        forall|p: u16| call_requires(*probe, (p,)),
    ensures
        final(cfg).base == old(cfg).base,
        final(cfg).max == old(cfg).max,
        final(cfg).assignments@.dom() == old(cfg).assignments@.dom(),
        moved_ids(r@).no_duplicates(),
        forall|i: int| 0 <= i < r@.len() ==> is_move(*old(cfg), final(cfg).assignments@, *probe, #[trigger] r@[i]),
        forall|id: Seq<char>| #[trigger]
            old(cfg).assignments@.contains_key(id) && !moved_ids(r@).contains(id) ==> {
                &&& final(cfg).assignments@[id] == old(cfg).assignments@[id]
                &&& stays(*old(cfg), final(cfg).assignments@, *probe, id)
            },
        new_ports_differ(r@),
        is_steady(*probe) ==> forall|i: int|
            0 <= i < r@.len() ==> !old(cfg).assignments@.contains_value((#[trigger] r@[i]).2),
        ports_differ(old(cfg).assignments@) ==> ports_differ(final(cfg).assignments@),
{
    let ids = cfg.assignments.keys();
    let ghost start = *cfg;
    let mut out: Vec<(String, u16, u16)> = Vec::new();
    let mut i: usize = 0;
    let ghost mut done = Set::<Seq<char>>::empty();
    assert(moved_ids(out@) =~= Seq::<Seq<char>>::empty());
    while i < ids.len()
        invariant
            i <= ids@.len(),
            start == *old(cfg),
            cfg.base == start.base,
            cfg.max == start.max,
            forall|p: u16| call_requires(*probe, (p,)),
            text::texts(ids@).no_duplicates(),
            forall|k: int| 0 <= k < ids@.len() ==> start.assignments@.contains_key((#[trigger] ids@[k])@),
            forall|k: int| 0 <= k < i ==> done.contains((#[trigger] ids@[k])@),
            forall|k: int| i <= k < ids@.len() ==> !done.contains((#[trigger] ids@[k])@),
            reassigned_so_far(start, cfg.assignments@, *probe, out@, done),
        decreases ids@.len() - i,
    {
        let id = &ids[i];
        let ghost was = start.assignments@;
        let ghost before = cfg.assignments@;
        let ghost moved = out@;
        let ghost earlier = done;
        proof {
            assert(was.contains_key(id@));
            assert(before.dom().contains(id@));
            assert(!moved_ids(moved).contains(id@)) by {
                if moved_ids(moved).contains(id@) {
                    let j = choose|j: int| 0 <= j < moved.len() && moved_ids(moved)[j] == id@;
                    assert(moved[j].0@ == id@);
                    assert(done.contains(id@));
                }
            }
            assert(before[id@] == was[id@]);
        }
        let stored: u16 = *cfg.assignments.get(id).unwrap();
        let free = probe(stored);
        let mut new_port: Option<u16> = None;
        if !free {
            new_port = next_free_port(cfg.base, cfg.max, &cfg.assignments, Some(stored), probe);
            if let Some(p) = new_port {
                cfg.assignments.insert(id, p);
                out.push((id.clone(), stored, p));
            }
        }
        proof {
            done = done.insert(id@);
            let now = cfg.assignments@;
            assert forall|k: int| i < k < ids@.len() implies !done.contains((#[trigger] ids@[k])@) by {
                assert(text::texts(ids@)[k] != text::texts(ids@)[i as int]);
            }
            if new_port is Some {
                step_moves(start, before, *probe, moved, earlier, *id, stored, new_port->0, out@[moved.len() as int].0);
                assert(out@ =~= moved.push((out@[moved.len() as int].0, stored, new_port->0)));
            } else {
                assert(now == before);
                step_stays(start, before, *probe, moved, earlier, id@, free, stored);
            }
        }
        i += 1;
    }
    assert forall|id: Seq<char>| #[trigger]
        start.assignments@.contains_key(id) implies done.contains(id) by {
        let k = choose|k: int| 0 <= k < ids@.len() && (#[trigger] ids@[k])@ == id;
        assert(done.contains(ids@[k]@));
    }
    out
}

proof fn step_stays<F: Fn(u16) -> bool>(
    cfg: PortConfig,
    now: Map<Seq<char>, u16>,
    probe: F,
    r: Seq<(String, u16, u16)>,
    done: Set<Seq<char>>,
    id: Seq<char>,
    free: bool,
    stored: u16,
)
    requires
        reassigned_so_far(cfg, now, probe, r, done),
        cfg.assignments@.contains_key(id),
        cfg.assignments@[id] == stored,
        now[id] == stored,
        free ==> call_ensures(probe, (stored,), true),
        !free ==> call_ensures(probe, (stored,), false) && is_first_free(
            cfg.base,
            cfg.max,
            now,
            Some(stored),
            probe,
            None,
        ),
    ensures
        reassigned_so_far(cfg, now, probe, r, done.insert(id)),
{
    if !free {
        assert(now.dom().contains(id));
        assert forall|q: u16| cfg.base <= q <= cfg.max implies now.contains_value(q) || #[trigger] call_ensures(
            probe,
            (q,),
            false,
        ) by {
            assert(not_to_be_had(now, Some(stored), probe, q));
        }
    }
    assert(stays(cfg, now, probe, id));
}

proof fn lost_ports_were_not_free<F: Fn(u16) -> bool>(
    before: Map<Seq<char>, u16>,
    probe: F,
    id: Seq<char>,
    stored: u16,
    p: u16,
    q: u16,
)
    requires
        before.contains_value(q),
        before[id] == stored,
        call_ensures(probe, (stored,), false),
    ensures
        before.insert(id, p).contains_value(q) || call_ensures(probe, (q,), false),
{
    let now = before.insert(id, p);
    let x = choose|x: Seq<char>| #[trigger] before.dom().contains(x) && before[x] == q;
    if x != id {
        assert(now.dom().contains(x) && now[x] == q);
    }
}

proof fn step_moves<F: Fn(u16) -> bool>(
    cfg: PortConfig,
    before: Map<Seq<char>, u16>,
    probe: F,
    r: Seq<(String, u16, u16)>,
    done: Set<Seq<char>>,
    id: String,
    stored: u16,
    p: u16,
    copy: String,
)
    requires
        reassigned_so_far(cfg, before, probe, r, done),
        cfg.assignments@.contains_key(id@),
        cfg.assignments@[id@] == stored,
        before[id@] == stored,
        !moved_ids(r).contains(id@),
        !done.contains(id@),
        copy@ == id@,
        call_ensures(probe, (stored,), false),
        is_first_free(cfg.base, cfg.max, before, Some(stored), probe, Some(p)),
    ensures
        reassigned_so_far(
            cfg,
            before.insert(id@, p),
            probe,
            r.push((copy, stored, p)),
            done.insert(id@),
        ),
{
    let was = cfg.assignments@;
    let now = before.insert(id@, p);
    let n = r.push((copy, stored, p));
    let after = done.insert(id@);
    assert(now.dom() =~= was.dom());
    assert(moved_ids(n) =~= moved_ids(r).push(id@));
    assert(before.dom().contains(id@));
    assert forall|q: u16| #[trigger] was.contains_value(q) implies now.contains_value(q) || call_ensures(
        probe,
        (q,),
        false,
    ) by {
        if before.contains_value(q) {
            lost_ports_were_not_free(before, probe, id@, stored, p, q);
        }
    }
    assert forall|i: int, j: int| 0 <= i < j < n.len() implies (#[trigger] n[i]).2 != (#[trigger] n[j]).2 by {
        assert(is_move(cfg, before, probe, r[i]));
        if j == r.len() {
            assert(before.dom().contains(r[i].0@) && before[r[i].0@] == r[i].2);
        }
    }
    assert forall|i: int| 0 <= i < n.len() implies is_move(cfg, now, probe, #[trigger] n[i]) && after.contains(
        n[i].0@,
    ) by {
        if i < r.len() {
            assert(n[i] == r[i]);
            assert(moved_ids(r)[i] == r[i].0@);
            assert(r[i].0@ != id@);
        }
    }
    assert forall|k: Seq<char>| #[trigger] was.contains_key(k) && !moved_ids(n).contains(k) implies now[k] == was[k] by {
        assert(moved_ids(n)[r.len() as int] == id@);
        if moved_ids(r).contains(k) {
            let j = choose|j: int| 0 <= j < r.len() && moved_ids(r)[j] == k;
            assert(moved_ids(n)[j] == k);
        }
    }
    assert forall|k: Seq<char>| #[trigger]
        after.contains(k) && was.contains_key(k) && !moved_ids(n).contains(k) implies stays(cfg, now, probe, k) by {
        assert(moved_ids(n)[r.len() as int] == id@);
        if moved_ids(r).contains(k) {
            let j = choose|j: int| 0 <= j < r.len() && moved_ids(r)[j] == k;
            assert(moved_ids(n)[j] == k);
        }
        assert(done.contains(k));
        assert(stays(cfg, before, probe, k));
        if !call_ensures(probe, (was[k],), true) {
            assert forall|q: u16| cfg.base <= q <= cfg.max implies now.contains_value(q) || #[trigger] call_ensures(
                probe,
                (q,),
                false,
            ) by {
                if before.contains_value(q) {
                    lost_ports_were_not_free(before, probe, id@, stored, p, q);
                }
            }
        }
    }
    if ports_differ(was) {
        assert forall|a: Seq<char>, b: Seq<char>|
            now.contains_key(a) && now.contains_key(b) && a != b implies #[trigger] now[a] != #[trigger] now[b] by {
            if a == id@ {
                assert(before.contains_key(b));
                assert(before[b] != p) by {
                    if before[b] == p {
                        assert(before.contains_value(p));
                    }
                }
            } else if b == id@ {
                assert(before.contains_key(a));
                assert(before[a] != p) by {
                    if before[a] == p {
                        assert(before.contains_value(p));
                    }
                }
            } else {
                assert(before[a] != before[b]);
            }
        }
    }
}

// ── Laws ──────────────────────────────────────────────────────────────────────

/// A port that is given out is in the range, and no other connection has it: where
/// all ports differed before, they differ after.
pub proof fn given_ports_differ<F: Fn(u16) -> bool>(
    cfg: PortConfig,
    requested: Option<u16>,
    probe: F,
    id: Seq<char>,
    p: u16,
)
    requires
        is_choice(cfg, requested, probe, Some(p)),
        ports_differ(cfg.assignments@),
    ensures
        cfg.base <= p <= cfg.max,
        ports_differ(cfg.assignments@.insert(id, p)),
{
    let was = cfg.assignments@;
    let now = was.insert(id, p);
    assert(!was.contains_value(p));
    assert forall|a: Seq<char>, b: Seq<char>|
        now.contains_key(a) && now.contains_key(b) && a != b implies #[trigger] now[a] != #[trigger] now[b] by {
        if a == id {
            assert(was.contains_key(b));
        } else if b == id {
            assert(was.contains_key(a));
        } else {
            assert(was[a] != was[b]);
        }
    }
}

/// A port that was assigned and released is not assigned any more, where all ports
/// differed.
pub proof fn released_ports_are_not_assigned(assignments: Map<Seq<char>, u16>, id: Seq<char>)
    requires
        ports_differ(assignments),
        assignments.contains_key(id),
    ensures
        !assignments.remove(id).contains_value(assignments[id]),
        ports_differ(assignments.remove(id)),
{
    let m = assignments.remove(id);
    if m.contains_value(assignments[id]) {
        let k = choose|k: Seq<char>| #[trigger] m.contains_key(k) && m[k] == assignments[id];
        assert(assignments[k] != assignments[id]);
    }
    assert forall|a: Seq<char>, b: Seq<char>| m.contains_key(a) && m.contains_key(b) && a != b implies #[trigger] m[a]
        != #[trigger] m[b] by {
        assert(assignments[a] != assignments[b]);
    }
}

/// A port that is asked for is given out where it is in the range, nobody has it and it is
/// free; otherwise the first one is for which that holds, and none where there is none.
pub proof fn free_ports_are_given_out<F: Fn(u16) -> bool>(
    cfg: PortConfig,
    requested: Option<u16>,
    probe: F,
    r: Option<u16>,
    p: u16,
)
    requires
        is_choice(cfg, requested, probe, r),
        is_steady(probe),
        forall|q: u16| call_ensures(probe, (q,), true) || call_ensures(probe, (q,), false),
    ensures
        requested == Some(p) && cfg.base <= p <= cfg.max && !cfg.assignments@.contains_value(p) && call_ensures(
            probe,
            (p,),
            true,
        ) ==> r == Some(p),
        r matches Some(q) ==> cfg.base <= q <= cfg.max && !cfg.assignments@.contains_value(q) && call_ensures(
            probe,
            (q,),
            true,
        ),
        r matches Some(q) && r != requested && cfg.base <= p < q ==> cfg.assignments@.contains_value(p) || call_ensures(
            probe,
            (p,),
            false,
        ),
        r is None && cfg.base <= p <= cfg.max ==> cfg.assignments@.contains_value(p) || call_ensures(probe, (p,), false),
{
    if r is None {
        if cfg.base <= p <= cfg.max {
            assert(not_to_be_had(cfg.assignments@, None, probe, p));
        }
    } else if r != requested && cfg.base <= p < r->0 {
        assert(not_to_be_had(cfg.assignments@, None, probe, p));
    }
}

} // verus!
