use vstd::prelude::*;
use crate::body::{Body, in_coord_range, store_wf};
use crate::broad::{enumerates, find_candidate_pairs};
use crate::config::Config;
use crate::contact::{
    Contact, contact_for, fits, live, narrow_phase, overlaps, resolve_contact, resolved_a,
    resolved_b,
};
use crate::grid::{Grid, build_grid};
use crate::motion::{
    apply_friction, contain, contained, integrate, integrated, slowed, steer_controlled, steered,
};

verus! {

/// The contacts of the overlapping pairs among `pairs`, in the pairs' order.
pub open spec fn contacts_of(bodies: Seq<Body>, pairs: Seq<(usize, usize)>) -> Seq<Contact>
    decreases pairs.len(),
{
    if pairs.len() == 0 {
        Seq::empty()
    } else {
        let rest = contacts_of(bodies, pairs.drop_last());
        let p = pairs.last();
        if overlaps(bodies[p.0 as int], bodies[p.1 as int]) {
            rest.push(contact_for(p.0, p.1, bodies[p.0 as int], bodies[p.1 as int]))
        } else {
            rest
        }
    }
}

/// The store after one contact: resolved if live and representable, else unchanged.
pub open spec fn apply_contact(s: Seq<Body>, c: Contact) -> Seq<Body> {
    if live(c, s.len() as int) && fits(s[c.a as int], s[c.b as int], c) {
        s.update(c.a as int, resolved_a(s[c.a as int], s[c.b as int], c)).update(
            c.b as int,
            resolved_b(s[c.a as int], s[c.b as int], c),
        )
    } else {
        s
    }
}

/// The store after resolving `cs` one after the other, in order.
pub open spec fn resolve_all(s: Seq<Body>, cs: Seq<Contact>) -> Seq<Body>
    decreases cs.len(),
{
    if cs.len() == 0 {
        s
    } else {
        apply_contact(resolve_all(s, cs.drop_last()), cs.last())
    }
}

pub open spec fn pairs_in_store(pairs: Seq<(usize, usize)>, n: int) -> bool {
    forall|k: int| 0 <= k < pairs.len() ==> (#[trigger] pairs[k]).0 < n && pairs[k].1 < n
}

/// Narrow phase over a sequence of candidate pairs: the contacts of those
/// that overlap, in the candidates' order.
pub fn detect_contacts(bodies: &Vec<Body>, pairs: &Vec<(usize, usize)>) -> (out: Vec<Contact>)
    requires
        store_wf(bodies@),
        pairs_in_store(pairs@, bodies@.len() as int),
    ensures
        out@ == contacts_of(bodies@, pairs@),
        forall|k: int| 0 <= k < out@.len() ==> (#[trigger] out@[k]).wf(),
{
    let mut out: Vec<Contact> = Vec::new();
    let mut k: usize = 0;
    while k < pairs.len()
        invariant
            store_wf(bodies@),
            pairs_in_store(pairs@, bodies@.len() as int),
            k <= pairs@.len(),
            out@ == contacts_of(bodies@, pairs@.take(k as int)),
            forall|m: int| 0 <= m < out@.len() ==> (#[trigger] out@[m]).wf(),
        decreases pairs@.len() - k,
    {
        let (ha, hb) = pairs[k];
        assert(pairs@[k as int].0 < bodies@.len() && pairs@[k as int].1 < bodies@.len());
        assert(pairs@.take(k + 1).drop_last() =~= pairs@.take(k as int));
        match narrow_phase(bodies, ha, hb) {
            Some(c) => {
                out.push(c);
            },
            None => {},
        }
        k = k + 1;
    }
    assert(pairs@.take(pairs@.len() as int) =~= pairs@);
    out
}

/// Resolves the contacts one after the other, in order.
pub fn resolve_contacts(bodies: &mut Vec<Body>, contacts: &Vec<Contact>)
    requires
        store_wf(old(bodies)@),
        forall|k: int| 0 <= k < contacts@.len() ==> (#[trigger] contacts@[k]).wf(),
    ensures
        final(bodies)@ == resolve_all(old(bodies)@, contacts@),
        store_wf(final(bodies)@),
{
    let mut k: usize = 0;
    while k < contacts.len()
        invariant
            forall|m: int| 0 <= m < contacts@.len() ==> (#[trigger] contacts@[m]).wf(),
            k <= contacts@.len(),
            bodies@ == resolve_all(old(bodies)@, contacts@.take(k as int)),
            store_wf(bodies@),
        decreases contacts@.len() - k,
    {
        assert(contacts@.take(k + 1).drop_last() =~= contacts@.take(k as int));
        let c = contacts[k];
        resolve_contact(bodies, &c);
        k = k + 1;
    }
    assert(contacts@.take(contacts@.len() as int) =~= contacts@);
}

} // verus!

verus! {

/// Velocity override of the controlled bodies, if any.
pub open spec fn steered_by(b: Body, steer: Option<(i64, i64)>) -> Body {
    match steer {
        Some(v) => steered(b, v.0 as int, v.1 as int),
        None => b,
    }
}

/// One body through the first half of a step: containment, friction, the
/// velocity override, then integration.
pub open spec fn prepared(b: Body, cfg: Config, steer: Option<(i64, i64)>, dt: int) -> Body {
    integrated(
        steered_by(
            slowed(
                contained(b, cfg.half_extent as int),
                cfg.friction_num as int,
                cfg.friction_den as int,
            ),
            steer,
        ),
        dt,
    )
}

pub open spec fn prepared_store(
    s: Seq<Body>,
    cfg: Config,
    steer: Option<(i64, i64)>,
    dt: int,
) -> Seq<Body> {
    Seq::new(s.len(), |i: int| prepared(s[i], cfg, steer, dt))
}

/// The collision half of a step on `s`: with `g` the grid of `s` and `pairs`
/// its broad-phase enumeration, the contacts found among `pairs` resolved in
/// order.
pub open spec fn collided(s: Seq<Body>, cfg: Config, result: Seq<Body>) -> bool {
    exists|g: Grid, pairs: Seq<(usize, usize)>|
        {
            &&& g.wf()
            &&& g.partitions(s, cfg)
            &&& enumerates(g, pairs)
            &&& result == resolve_all(s, contacts_of(s, pairs))
        }
}

/// Advances the simulation by one tick, in this order: boundary containment,
/// friction, the override of the controlled bodies' velocity, integration
/// over `dt`, grid rebuild, broad phase, and resolution of the contacts
/// found, in the order the broad phase found them.
pub fn step(bodies: &mut Vec<Body>, cfg: &Config, steer: Option<(i64, i64)>, dt: u32)
    requires
        cfg.wf(),
        store_wf(old(bodies)@),
        steer matches Some(v) ==> in_coord_range(v.0 as int) && in_coord_range(v.1 as int),
    ensures
        collided(prepared_store(old(bodies)@, *cfg, steer, dt as int), *cfg, final(bodies)@),
        store_wf(final(bodies)@),
{
    let ghost s0 = bodies@;
    contain(bodies, cfg.half_extent);
    apply_friction(bodies, cfg.friction_num, cfg.friction_den);
    match steer {
        Some((vx, vz)) => steer_controlled(bodies, vx, vz),
        None => {},
    }
    integrate(bodies, dt);
    let ghost moved = bodies@;
    assert(moved =~= prepared_store(s0, *cfg, steer, dt as int));
    let g = build_grid(bodies, cfg);
    let pairs = find_candidate_pairs(&g);
    proof {
        assert forall|k: int| 0 <= k < pairs@.len() implies (#[trigger] pairs@[k]).0 < moved.len()
            && pairs@[k].1 < moved.len() by {
            let (a, b) = pairs@[k];
            assert(pairs@.contains((a, b)));
            let t = choose|t: crate::broad::Tag|
                #[trigger] crate::broad::tag_valid(g, t) && crate::broad::tag_pair(g, t) == (a, b);
            crate::broad::lemma_nb_range(g.buckets as int, t.0, t.1);
            assert(g.cell(t.0)[t.2] < moved.len());
            assert(g.cell(crate::broad::nb(g.buckets as int, t.0, t.1))[t.3] < moved.len());
        }
    }
    let contacts = detect_contacts(bodies, &pairs);
    resolve_contacts(bodies, &contacts);
    assert(g.wf() && g.partitions(moved, *cfg) && enumerates(g, pairs@) && bodies@ == resolve_all(
        moved,
        contacts_of(moved, pairs@),
    ));
}

} // verus!
