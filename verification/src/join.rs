//! Resolving way node references to coordinates, and stitching way
//! fragments that share endpoints into closed rings.
//!
//! Joining keeps an accumulator of chains, each keyed by a node id. A
//! self-closed fragment records a completed ring under its wrap id — twice
//! under one id is an inconsistency. An open fragment extends the chain
//! waiting under its first node id, its own first coordinate dropped to
//! avoid doubling the joint; with no chain waiting it registers a new chain
//! under its last node id. The order fragments arrive in therefore matters:
//! a fragment only ever extends a chain registered before it.
use std::collections::HashMap;

use vstd::prelude::*;

use crate::element::err_eq;
use crate::element::Element;
use crate::element::ElementType;
use crate::element::Error;
use crate::geometry::closed_seq;
use crate::geometry::Coord;
use crate::geometry::LineString;

verus! {

broadcast use vstd::std_specs::hash::group_hash_axioms;

/// What resolving one node id yields: its coordinate, or the failure.
pub open spec fn spec_node_coord(m: Map<u64, Element>, id: u64) -> Result<Coord, Error> {
    if !m.contains_key(id) {
        Err(Error::NodeNotFound)
    } else {
        match m[id].kind {
            ElementType::Node { lat, lon } => Ok(Coord { x: lon, y: lat }),
            _ => Err(Error::IncorrectType("Way must be composed of node types only.")),
        }
    }
}

/// The coordinates of a node id sequence, or the first failure.
pub open spec fn spec_get_coords(nodes: Seq<u64>, m: Map<u64, Element>) -> Result<
    Seq<Coord>,
    Error,
>
    decreases nodes.len(),
{
    if nodes.len() == 0 {
        Ok(Seq::empty())
    } else {
        match spec_get_coords(nodes.drop_last(), m) {
            Err(e) => Err(e),
            Ok(cs) => match spec_node_coord(m, nodes.last()) {
                Ok(c) => Ok(cs.push(c)),
                Err(e) => Err(e),
            },
        }
    }
}

/// A failure at position `i`, everything before it resolving, is the whole
/// sequence's failure.
proof fn lemma_get_coords_first_error(nodes: Seq<u64>, m: Map<u64, Element>, i: int, e: Error)
    requires
        0 <= i < nodes.len(),
        spec_get_coords(nodes.subrange(0, i), m) is Ok,
        spec_node_coord(m, nodes[i]) == Result::<Coord, Error>::Err(e),
    ensures
        spec_get_coords(nodes, m) == Result::<Seq<Coord>, Error>::Err(e),
    decreases nodes.len(),
{
    if i == nodes.len() - 1 {
        assert(nodes.drop_last() =~= nodes.subrange(0, i));
    } else {
        assert(nodes.drop_last().subrange(0, i) =~= nodes.subrange(0, i));
        lemma_get_coords_first_error(nodes.drop_last(), m, i, e);
    }
}

/// Resolve every node id of `nodes` through the lookup, in order. Fails
/// with `NodeNotFound` on an id the lookup lacks, and with `IncorrectType`
/// on one that is not a node.
pub fn get_coords(nodes: &Vec<u64>, node_map: &HashMap<u64, Element>) -> (r: Result<
    Vec<Coord>,
    Error,
>)
    ensures
        ({
            let s = spec_get_coords(nodes@, node_map@);
            match r {
                Ok(v) => s matches Ok(cs) && v@ == cs,
                Err(e) => s matches Err(se) && err_eq(e, se),
            }
        }),
{
    let mut coords: Vec<Coord> = Vec::new();
    let mut i: usize = 0;
    while i < nodes.len()
        invariant
            0 <= i <= nodes@.len(),
            spec_get_coords(nodes@.subrange(0, i as int), node_map@) == Result::<
                Seq<Coord>,
                Error,
            >::Ok(coords@),
        decreases nodes@.len() - i,
    {
        proof {
            assert(nodes@.subrange(0, i as int + 1).drop_last() =~= nodes@.subrange(0, i as int));
        }
        match node_map.get(&nodes[i]) {
            None => {
                proof {
                    lemma_get_coords_first_error(
                        nodes@,
                        node_map@,
                        i as int,
                        Error::NodeNotFound,
                    );
                }
                return Err(Error::NodeNotFound);
            },
            Some(el) => {
                match &el.kind {
                    ElementType::Node { lat, lon } => {
                        coords.push(Coord { x: *lon, y: *lat });
                    },
                    _ => {
                        let ghost e = spec_node_coord(node_map@, nodes@[i as int])->Err_0;
                        proof {
                            lemma_get_coords_first_error(nodes@, node_map@, i as int, e);
                        }
                        return Err(
                            Error::IncorrectType("Way must be composed of node types only."),
                        );
                    },
                }
            },
        }
        i = i + 1;
    }
    proof {
        assert(nodes@.subrange(0, nodes@.len() as int) =~= nodes@);
    }
    Ok(coords)
}

/// The position of the chain keyed by `key`, or -1.
pub open spec fn find_chain(chains: Seq<(u64, Seq<Coord>)>, key: u64) -> int
    decreases chains.len(),
{
    if chains.len() == 0 {
        -1
    } else if chains[0].0 == key {
        0
    } else {
        let r = find_chain(chains.drop_first(), key);
        if r < 0 {
            -1
        } else {
            r + 1
        }
    }
}

/// `find_chain` finds the first chain under the key, or reports that none
/// carries it.
proof fn lemma_find_chain(chains: Seq<(u64, Seq<Coord>)>, key: u64)
    ensures
        find_chain(chains, key) == -1 ==> forall|j: int|
            0 <= j < chains.len() ==> (#[trigger] chains[j]).0 != key,
        find_chain(chains, key) >= 0 ==> {
            let r = find_chain(chains, key);
            &&& 0 <= r < chains.len()
            &&& chains[r].0 == key
            &&& forall|j: int| 0 <= j < r ==> (#[trigger] chains[j]).0 != key
        },
    decreases chains.len(),
{
    if chains.len() > 0 && chains[0].0 != key {
        let s = chains.drop_first();
        lemma_find_chain(s, key);
        if find_chain(s, key) == -1 {
            assert forall|j: int|
                0 <= j < chains.len() implies (#[trigger] chains[j]).0 != key by {
                if j > 0 {
                    assert(s[j - 1] == chains[j]);
                }
            }
        } else {
            let r = find_chain(chains, key);
            assert(s[r - 1] == chains[r]);
            assert forall|j: int| 0 <= j < r implies (#[trigger] chains[j]).0 != key by {
                if j > 0 {
                    assert(s[j - 1] == chains[j]);
                }
            }
        }
    }
}

/// One fragment's effect on the chain accumulator.
pub open spec fn spec_join_step(
    chains: Seq<(u64, Seq<Coord>)>,
    e: Element,
    m: Map<u64, Element>,
) -> Result<Seq<(u64, Seq<Coord>)>, Error> {
    match e.kind {
        ElementType::Way { nodes } => {
            if nodes@.len() == 0 {
                Ok(chains)
            } else {
                match spec_get_coords(nodes@, m) {
                    Err(err) => Err(err),
                    Ok(cs) => {
                        let first = nodes@[0];
                        let last = nodes@[nodes@.len() - 1];
                        if first == last && nodes@.len() > 1 {
                            let idx = find_chain(chains, last);
                            if idx >= 0 && closed_seq(chains[idx].1) {
                                Err(Error::InvalidData)
                            } else if idx >= 0 {
                                Ok(chains.update(idx, (last, cs)))
                            } else {
                                Ok(chains.push((last, cs)))
                            }
                        } else {
                            let idx = find_chain(chains, first);
                            if idx >= 0 {
                                Ok(
                                    chains.update(
                                        idx,
                                        (chains[idx].0, chains[idx].1 + cs.drop_first()),
                                    ),
                                )
                            } else {
                                Ok(chains.push((last, cs)))
                            }
                        }
                    },
                }
            }
        },
        _ => Ok(chains),
    }
}

/// One id's effect: ids absent from the lookup are passed over.
pub open spec fn spec_join_at(
    chains: Seq<(u64, Seq<Coord>)>,
    m: Map<u64, Element>,
    id: u64,
) -> Result<Seq<(u64, Seq<Coord>)>, Error> {
    if !m.contains_key(id) {
        Ok(chains)
    } else {
        spec_join_step(chains, m[id], m)
    }
}

/// The chain accumulator after processing `ids` in order, or the first
/// failure.
pub open spec fn spec_join(ids: Seq<u64>, m: Map<u64, Element>) -> Result<
    Seq<(u64, Seq<Coord>)>,
    Error,
>
    decreases ids.len(),
{
    if ids.len() == 0 {
        Ok(Seq::empty())
    } else {
        match spec_join(ids.drop_last(), m) {
            Err(e) => Err(e),
            Ok(chains) => spec_join_at(chains, m, ids.last()),
        }
    }
}

/// A failure at position `i`, everything before it joining, is the whole
/// join's failure.
proof fn lemma_join_first_error(ids: Seq<u64>, m: Map<u64, Element>, i: int, e: Error)
    requires
        0 <= i < ids.len(),
        spec_join(ids.subrange(0, i), m) is Ok,
        spec_join_at(spec_join(ids.subrange(0, i), m)->Ok_0, m, ids[i]) == Result::<
            Seq<(u64, Seq<Coord>)>,
            Error,
        >::Err(e),
    ensures
        spec_join(ids, m) == Result::<Seq<(u64, Seq<Coord>)>, Error>::Err(e),
    decreases ids.len(),
{
    if i == ids.len() - 1 {
        assert(ids.drop_last() =~= ids.subrange(0, i));
    } else {
        assert(ids.drop_last().subrange(0, i) =~= ids.subrange(0, i));
        lemma_join_first_error(ids.drop_last(), m, i, e);
    }
}

/// The completed rings among the chains: those coming back to their start.
pub open spec fn closed_chains(chains: Seq<(u64, Seq<Coord>)>) -> Seq<Seq<Coord>>
    decreases chains.len(),
{
    if chains.len() == 0 {
        Seq::empty()
    } else {
        let r = closed_chains(chains.drop_last());
        if closed_seq(chains.last().1) {
            r.push(chains.last().1)
        } else {
            r
        }
    }
}

/// Everything `closed_chains` keeps is a closed ring.
pub proof fn lemma_closed_chains_closed(chains: Seq<(u64, Seq<Coord>)>)
    ensures
        forall|i: int|
            0 <= i < closed_chains(chains).len() ==> closed_seq(#[trigger] closed_chains(chains)[i]),
    decreases chains.len(),
{
    if chains.len() > 0 {
        lemma_closed_chains_closed(chains.drop_last());
        let r = closed_chains(chains.drop_last());
        assert forall|i: int|
            0 <= i < closed_chains(chains).len() implies closed_seq(
            #[trigger] closed_chains(chains)[i],
        ) by {
            if i < r.len() {
                assert(closed_chains(chains)[i] == r[i]);
            }
        }
    }
}

/// What a full join yields: the completed rings, in the order their chains
/// were registered in.
pub open spec fn spec_join_ways(ids: Seq<u64>, m: Map<u64, Element>) -> Result<
    Seq<Seq<Coord>>,
    Error,
> {
    match spec_join(ids, m) {
        Ok(chains) => Ok(closed_chains(chains)),
        Err(e) => Err(e),
    }
}

/// The exec accumulator carries exactly the spec chains.
pub open spec fn chains_match(cv: Seq<(u64, Vec<Coord>)>, ch: Seq<(u64, Seq<Coord>)>) -> bool {
    &&& cv.len() == ch.len()
    &&& forall|j: int|
        0 <= j < cv.len() ==> (#[trigger] cv[j]).0 == ch[j].0 && cv[j].1@ == ch[j].1
}

/// Whether a coordinate vector comes back to its start.
fn is_closed_coords(v: &Vec<Coord>) -> (r: bool)
    ensures
        r == closed_seq(v@),
{
    v.len() > 1 && v[0] == v[v.len() - 1]
}

/// The position of the first accumulator entry keyed by `key`.
fn find_chain_index(chains: &Vec<(u64, Vec<Coord>)>, key: u64) -> (r: Option<usize>)
    ensures
        match r {
            Some(idx) => idx < chains@.len() && chains@[idx as int].0 == key && forall|j: int|
                0 <= j < idx ==> (#[trigger] chains@[j]).0 != key,
            None => forall|j: int| 0 <= j < chains@.len() ==> (#[trigger] chains@[j]).0 != key,
        },
{
    let mut i: usize = 0;
    while i < chains.len()
        invariant
            0 <= i <= chains@.len(),
            forall|j: int| 0 <= j < i ==> (#[trigger] chains@[j]).0 != key,
        decreases chains@.len() - i,
    {
        if chains[i].0 == key {
            return Some(i);
        }
        i = i + 1;
    }
    None
}

/// Joins the ways named by `way_ids` — ids that do not resolve to a way are
/// passed over — into the maximal closed rings obtainable by chaining
/// fragments in input order, resolving every fragment's nodes through the
/// lookup. Fails with the first node-resolution failure, and with
/// `InvalidData` when one wrap id records two completed rings.
pub fn join_ways(way_ids: &Vec<u64>, node_map: &HashMap<u64, Element>) -> (r: Result<
    Vec<LineString>,
    Error,
>)
    ensures
        ({
            let s = spec_join_ways(way_ids@, node_map@);
            match r {
                Ok(v) => s matches Ok(rings) && v@.len() == rings.len() && (forall|i: int|
                    0 <= i < rings.len() ==> (#[trigger] v@[i])@ == rings[i]),
                Err(e) => s matches Err(se) && err_eq(e, se),
            }
        }),
{
    let mut chains: Vec<(u64, Vec<Coord>)> = Vec::new();
    let mut i: usize = 0;
    while i < way_ids.len()
        invariant
            0 <= i <= way_ids@.len(),
            spec_join(way_ids@.subrange(0, i as int), node_map@) matches Ok(ch) && chains_match(
                chains@,
                ch,
            ),
        decreases way_ids@.len() - i,
    {
        let ghost pre = way_ids@.subrange(0, i as int);
        let ghost ch = spec_join(pre, node_map@)->Ok_0;
        proof {
            assert(way_ids@.subrange(0, i as int + 1).drop_last() =~= pre);
        }
        let ghost nxt = way_ids@.subrange(0, i as int + 1);
        match node_map.get(&way_ids[i]) {
            None => {},
            Some(el) => {
                match &el.kind {
                    ElementType::Way { nodes } => {
                        if nodes.len() > 0 {
                            match get_coords(nodes, node_map) {
                                Err(e) => {
                                    let ghost se = spec_get_coords(nodes@, node_map@)->Err_0;
                                    proof {
                                        lemma_join_first_error(way_ids@, node_map@, i as int, se);
                                    }
                                    return Err(e);
                                },
                                Ok(coords) => {
                                    let first = nodes[0];
                                    let last = nodes[nodes.len() - 1];
                                    if first == last && nodes.len() > 1 {
                                        proof {
                                            lemma_find_chain(ch, last);
                                        }
                                        match find_chain_index(&chains, last) {
                                            Some(idx) => {
                                                proof {
                                                    assert(chains@[idx as int].0 == ch[idx as int].0
                                                        && chains@[idx as int].1@ == ch[idx as int].1);
                                                    assert(find_chain(ch, last) == idx as int) by {
                                                        let r = find_chain(ch, last);
                                                        if 0 <= r < idx as int {
                                                            assert(chains@[r].0 == ch[r].0);
                                                        }
                                                    }
                                                }
                                                if is_closed_coords(&chains[idx].1) {
                                                    proof {
                                                        lemma_join_first_error(
                                                            way_ids@,
                                                            node_map@,
                                                            i as int,
                                                            Error::InvalidData,
                                                        );
                                                    }
                                                    return Err(Error::InvalidData);
                                                }
                                                let ghost cv0 = chains@;
                                                let _ = chains.remove(idx);
                                                chains.insert(idx, (last, coords));
                                                proof {
                                                    let target = ch.update(idx as int, (last, coords@));
                                                    assert(chains@ =~= cv0.update(
                                                        idx as int,
                                                        (last, coords),
                                                    ));
                                                    assert forall|j: int|
                                                        0 <= j < chains@.len() implies (
                                                    #[trigger] chains@[j]).0 == target[j].0
                                                        && chains@[j].1@ == target[j].1 by {
                                                        if j != idx as int {
                                                            assert(chains@[j] == cv0[j]);
                                                            assert(cv0[j].0 == ch[j].0
                                                                && cv0[j].1@ == ch[j].1);
                                                        }
                                                    }
                                                    assert(chains_match(chains@, target));
                                                }
                                            },
                                            None => {
                                                let ghost cv0 = chains@;
                                                chains.push((last, coords));
                                                proof {
                                                    assert(find_chain(ch, last) == -1) by {
                                                        let r = find_chain(ch, last);
                                                        if r >= 0 {
                                                            assert(cv0[r].0 == ch[r].0);
                                                        }
                                                    }
                                                    let target = ch.push((last, coords@));
                                                    assert forall|j: int|
                                                        0 <= j < chains@.len() implies (
                                                    #[trigger] chains@[j]).0 == target[j].0
                                                        && chains@[j].1@ == target[j].1 by {
                                                        if j < cv0.len() {
                                                            assert(chains@[j] == cv0[j]);
                                                            assert(cv0[j].0 == ch[j].0
                                                                && cv0[j].1@ == ch[j].1);
                                                        }
                                                    }
                                                    assert(chains_match(chains@, target));
                                                }
                                            },
                                        }
                                    } else {
                                        proof {
                                            lemma_find_chain(ch, first);
                                        }
                                        match find_chain_index(&chains, first) {
                                            Some(idx) => {
                                                proof {
                                                    assert(chains@[idx as int].0 == ch[idx as int].0
                                                        && chains@[idx as int].1@ == ch[idx as int].1);
                                                    assert(find_chain(ch, first) == idx as int) by {
                                                        let r = find_chain(ch, first);
                                                        if 0 <= r < idx as int {
                                                            assert(chains@[r].0 == ch[r].0);
                                                        }
                                                    }
                                                }
                                                let ghost cv0 = chains@;
                                                let entry = chains.remove(idx);
                                                let key = entry.0;
                                                let mut cvec = entry.1;
                                                let ghost base = cvec@;
                                                let mut k: usize = 1;
                                                while k < coords.len()
                                                    invariant
                                                        1 <= k <= coords@.len(),
                                                        cvec@ == base + coords@.subrange(
                                                            1,
                                                            k as int,
                                                        ),
                                                    decreases coords@.len() - k,
                                                {
                                                    cvec.push(coords[k]);
                                                    proof {
                                                        assert(base + coords@.subrange(
                                                            1,
                                                            k as int + 1,
                                                        ) =~= (base + coords@.subrange(
                                                            1,
                                                            k as int,
                                                        )).push(coords@[k as int]));
                                                    }
                                                    k = k + 1;
                                                }
                                                proof {
                                                    assert(coords@.subrange(
                                                        1,
                                                        coords@.len() as int,
                                                    ) =~= coords@.drop_first());
                                                }
                                                chains.insert(idx, (key, cvec));
                                                proof {
                                                    let target = ch.update(
                                                        idx as int,
                                                        (
                                                            ch[idx as int].0,
                                                            ch[idx as int].1 + coords@.drop_first(),
                                                        ),
                                                    );
                                                    assert(chains@ =~= cv0.update(
                                                        idx as int,
                                                        (key, cvec),
                                                    ));
                                                    assert(chains@[idx as int].1@ == target[
                                                        idx as int].1);
                                                    assert forall|j: int|
                                                        0 <= j < chains@.len() implies (
                                                    #[trigger] chains@[j]).0 == target[j].0
                                                        && chains@[j].1@ == target[j].1 by {
                                                        if j != idx as int {
                                                            assert(chains@[j] == cv0[j]);
                                                            assert(cv0[j].0 == ch[j].0
                                                                && cv0[j].1@ == ch[j].1);
                                                        }
                                                    }
                                                    assert(chains_match(chains@, target));
                                                }
                                            },
                                            None => {
                                                let ghost cv0 = chains@;
                                                chains.push((last, coords));
                                                proof {
                                                    assert(find_chain(ch, first) == -1) by {
                                                        let r = find_chain(ch, first);
                                                        if r >= 0 {
                                                            assert(cv0[r].0 == ch[r].0);
                                                        }
                                                    }
                                                    let target = ch.push((last, coords@));
                                                    assert forall|j: int|
                                                        0 <= j < chains@.len() implies (
                                                    #[trigger] chains@[j]).0 == target[j].0
                                                        && chains@[j].1@ == target[j].1 by {
                                                        if j < cv0.len() {
                                                            assert(chains@[j] == cv0[j]);
                                                            assert(cv0[j].0 == ch[j].0
                                                                && cv0[j].1@ == ch[j].1);
                                                        }
                                                    }
                                                    assert(chains_match(chains@, target));
                                                }
                                            },
                                        }
                                    }
                                },
                            }
                        }
                    },
                    _ => {},
                }
            },
        }
        i = i + 1;
    }
    proof {
        assert(way_ids@.subrange(0, way_ids@.len() as int) =~= way_ids@);
    }
    let ghost ch = spec_join(way_ids@, node_map@)->Ok_0;
    let mut rings: Vec<LineString> = Vec::new();
    let ghost total = chains@.len();
    let ghost mut done: int = 0;
    while chains.len() > 0
        invariant
            0 <= done <= total,
            total == ch.len(),
            chains@.len() == total - done,
            forall|j: int|
                0 <= j < chains@.len() ==> (#[trigger] chains@[j]).1@ == ch[done + j].1,
            rings@.len() == closed_chains(ch.subrange(0, done)).len(),
            forall|j: int|
                0 <= j < rings@.len() ==> (#[trigger] rings@[j])@ == closed_chains(
                    ch.subrange(0, done),
                )[j],
        decreases chains@.len(),
    {
        let entry = chains.remove(0);
        proof {
            assert(ch.subrange(0, done + 1).drop_last() =~= ch.subrange(0, done));
            assert(ch.subrange(0, done + 1).last() == ch[done]);
        }
        if is_closed_coords(&entry.1) {
            rings.push(LineString(entry.1));
        }
        proof {
            done = done + 1;
        }
    }
    proof {
        assert(ch.subrange(0, ch.len() as int) =~= ch);
    }
    Ok(rings)
}

} // verus!
