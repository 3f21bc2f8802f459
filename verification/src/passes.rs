//! Why the enumeration visits every address once.
//!
//! A pass over a bus ends on the first address of the bus, in the order of
//! [`crate::order`], that comes after the address of the pass before it; the
//! first pass ends on the first address of all. The marker it leaves is the
//! deepest slot at which another device went the other way, so that no
//! marker is left exactly when the pass ended on the last address.

use vstd::prelude::*;
use crate::address::{lemma_bits_determine_address, lemma_with_own_bits, DeviceAddress};
use crate::bus::{answers, reply, scan, walk};
use crate::error::Error;
use crate::order::{
    agrees, before, lemma_before_has_lower_rank, lemma_before_is_strict, lemma_first_difference,
    lemma_lower_rank_is_before, lemma_one_comes_first, lemma_rank_bounds, rank, rank_cap,
};
use crate::search::CursorModel;

verus! {

/// Whether `p` turns to 0 in slot `j` while some device that followed it so
/// far goes on with 1.
pub open spec fn turned_zero(devices: Seq<DeviceAddress>, p: Seq<bool>, j: int) -> bool {
    !p[j] && answers(devices, p, j, true)
}

/// Whether `z` is the deepest of the first `n` slots in which `p` turned to
/// 0 at a fork; no slot at all if `z` is `None`.
pub open spec fn deepest_turn(devices: Seq<DeviceAddress>, p: Seq<bool>, n: int, z: Option<int>) -> bool {
    match z {
        Some(j) => 0 <= j < n && turned_zero(devices, p, j) && forall|i: int|
            j < i < n ==> !#[trigger] turned_zero(devices, p, i),
        None => forall|i: int| 0 <= i < n ==> !#[trigger] turned_zero(devices, p, i),
    }
}

/// Whether some device on the bus has the slots `s`.
pub open spec fn present(devices: Seq<DeviceAddress>, s: Seq<bool>) -> bool {
    exists|k: int| 0 <= k < devices.len() && (#[trigger] devices[k]).bits() == s
}

/// Whether, in the slots from `lo` up to `n`, the path `p` has 0 wherever a
/// device that followed it so far goes the other way.
pub open spec fn lowest(devices: Seq<DeviceAddress>, p: Seq<bool>, lo: int, n: int) -> bool {
    forall|j: int, k: int|
        lo <= j < n && 0 <= k < devices.len() && #[trigger] agrees(devices[k].bits(), p, j)
            && devices[k].bits()[j] != p[j] ==> !p[j]
}

/// The first slot below the marker; slot 0 without a marker.
pub open spec fn below_marker(c: CursorModel) -> int {
    match c.marker {
        Some(m) => m + 1,
        None => 0,
    }
}

/// Whether the cursor, at rest, tells the truth about the bus: its last
/// address is on the bus and its marker is the deepest turn of that address.
pub open spec fn settled(devices: Seq<DeviceAddress>, c: CursorModel) -> bool {
    &&& c.wf()
    &&& c.at_rest()
    &&& c.exhausted ==> c.marker is None
    &&& c.marker matches Some(m) ==> present(devices, c.last) && deepest_turn(
        devices,
        c.last,
        64,
        Some(m),
    )
}

/// Whether the running pass of `c` is on its way to the next address.
pub open spec fn on_course(devices: Seq<DeviceAddress>, c: CursorModel) -> bool {
    let p = c.path;
    let n = p.len() as int;
    &&& c.last.len() == 64
    &&& n <= 64
    &&& exists|k: int| 0 <= k < devices.len() && #[trigger] agrees(devices[k].bits(), p, n)
    &&& c.marker matches Some(m) ==> {
        &&& 0 <= m < 64
        &&& present(devices, c.last)
        &&& deepest_turn(devices, c.last, 64, Some(m))
        &&& agrees(p, c.last, if n <= m { n } else { m })
        &&& n > m ==> p[m]
    }
    &&& lowest(devices, p, below_marker(c), n)
    &&& deepest_turn(devices, p, n, c.last_zero)
}

/// Whether `s`, with deepest turn `z`, is where a pass from `marker` and
/// `last` has to end: on the bus, after `last`, and with no device between.
pub open spec fn reached(
    devices: Seq<DeviceAddress>,
    marker: Option<int>,
    last: Seq<bool>,
    s: Seq<bool>,
    z: Option<int>,
) -> bool {
    &&& s.len() == 64
    &&& present(devices, s)
    &&& deepest_turn(devices, s, 64, z)
    &&& match marker {
        None => forall|k: int|
            0 <= k < devices.len() ==> (#[trigger] devices[k]).bits() == s || before(
                s,
                devices[k].bits(),
            ),
        Some(m) => before(last, s) && forall|k: int|
            0 <= k < devices.len() && before(last, (#[trigger] devices[k]).bits())
                ==> devices[k].bits() == s || before(s, devices[k].bits()),
    }
}

/// Whether `found` is what a pass that ended on `s` reports: the address
/// with those slots if it is sealed, a checksum failure if it is not.
pub open spec fn reports(found: Result<Option<DeviceAddress>, Error>, s: Seq<bool>) -> bool {
    match found {
        Ok(Some(address)) => address.bits() == s && address.valid(),
        Ok(None) => false,
        Err(e) => e == Error::Checksum && !DeviceAddress::with_bits(s).valid(),
    }
}

proof fn lemma_agrees_extended(x: Seq<bool>, p: Seq<bool>, d: bool, n: int)
    requires
        0 <= n <= p.len(),
    ensures
        agrees(x, p.push(d), n) == agrees(x, p, n),
{
    if agrees(x, p, n) {
        assert forall|j: int| 0 <= j < n implies x[j] == p.push(d)[j] by {
            assert(p.push(d)[j] == p[j]);
        }
    }
    if agrees(x, p.push(d), n) {
        assert forall|j: int| 0 <= j < n implies x[j] == p[j] by {
            assert(p.push(d)[j] == p[j]);
        }
    }
}

proof fn lemma_answers_extended(devices: Seq<DeviceAddress>, p: Seq<bool>, d: bool, n: int, bit: bool)
    requires
        0 <= n <= p.len(),
    ensures
        answers(devices, p.push(d), n, bit) == answers(devices, p, n, bit),
{
    if answers(devices, p, n, bit) {
        let k = choose|k: int|
            0 <= k < devices.len() && #[trigger] agrees(devices[k].bits(), p, n)
                && devices[k].bits()[n] == bit;
        lemma_agrees_extended(devices[k].bits(), p, d, n);
    }
    if answers(devices, p.push(d), n, bit) {
        let k = choose|k: int|
            0 <= k < devices.len() && #[trigger] agrees(devices[k].bits(), p.push(d), n)
                && devices[k].bits()[n] == bit;
        lemma_agrees_extended(devices[k].bits(), p, d, n);
    }
}

proof fn lemma_answers_along(
    devices: Seq<DeviceAddress>,
    p: Seq<bool>,
    q: Seq<bool>,
    n: int,
    bit: bool,
)
    requires
        agrees(p, q, n),
        answers(devices, q, n, bit),
    ensures
        answers(devices, p, n, bit),
{
    let k = choose|k: int|
        0 <= k < devices.len() && #[trigger] agrees(devices[k].bits(), q, n)
            && devices[k].bits()[n] == bit;
    assert(agrees(devices[k].bits(), p, n));
}

proof fn lemma_lowest_step(devices: Seq<DeviceAddress>, p: Seq<bool>, lo: int, dir: bool)
    requires
        0 <= lo,
        lowest(devices, p, lo, p.len() as int),
        lo <= p.len() && dir ==> !answers(devices, p, p.len() as int, false),
    ensures
        lowest(devices, p.push(dir), lo, p.len() as int + 1),
{
    let n = p.len() as int;
    let grown = p.push(dir);
    assert forall|j: int, k: int|
        lo <= j < n + 1 && 0 <= k < devices.len() && #[trigger] agrees(devices[k].bits(), grown, j)
            && devices[k].bits()[j] != grown[j] implies !grown[j] by {
        lemma_agrees_extended(devices[k].bits(), p, dir, j);
        if j < n {
            assert(grown[j] == p[j]);
        } else {
            assert(grown[j] == dir);
        }
    }
}

proof fn lemma_deepest_step(
    devices: Seq<DeviceAddress>,
    p: Seq<bool>,
    z: Option<int>,
    dir: bool,
    z2: Option<int>,
)
    requires
        deepest_turn(devices, p, p.len() as int, z),
        z2 == (if !dir && answers(devices, p, p.len() as int, true) {
            Some(p.len() as int)
        } else {
            z
        }),
    ensures
        deepest_turn(devices, p.push(dir), p.len() as int + 1, z2),
{
    let n = p.len() as int;
    let grown = p.push(dir);
    assert forall|j: int| 0 <= j <= n implies turned_zero(devices, grown, j) == (if j < n {
        turned_zero(devices, p, j)
    } else {
        !dir && answers(devices, p, n, true)
    }) by {
        lemma_answers_extended(devices, p, dir, j, true);
    }
    match z2 {
        Some(j2) => {
            assert(turned_zero(devices, grown, j2));
            assert forall|i: int| j2 < i < n + 1 implies !#[trigger] turned_zero(
                devices,
                grown,
                i,
            ) by {
                if i < n {
                    assert(!turned_zero(devices, p, i));
                }
            }
        },
        None => {
            assert forall|i: int| 0 <= i < n + 1 implies !#[trigger] turned_zero(
                devices,
                grown,
                i,
            ) by {
                if i < n {
                    assert(!turned_zero(devices, p, i));
                }
            }
        },
    }
}

/// Above the marker the bus answers with the bit of the last address, and at
/// the marker it answers with both bits.
proof fn lemma_marker_step(devices: Seq<DeviceAddress>, c: CursorModel)
    requires
        on_course(devices, c),
        c.path.len() < 64,
        c.marker is Some,
        c.path.len() <= c.marker->0,
    ensures
        answers(devices, c.path, c.path.len() as int, c.last[c.path.len() as int]),
        c.path.len() == c.marker->0 ==> answers(devices, c.path, c.path.len() as int, true),
{
    let p = c.path;
    let n = p.len() as int;
    let m = c.marker->0;
    let ks = choose|k: int| 0 <= k < devices.len() && (#[trigger] devices[k]).bits() == c.last;
    assert(agrees(devices[ks].bits(), p, n));
    if n == m {
        assert(turned_zero(devices, c.last, m));
        lemma_answers_along(devices, p, c.last, m, true);
    }
}

/// One slot of a pass that is on course leaves it on course, and somebody
/// answers the slot.
proof fn lemma_step(devices: Seq<DeviceAddress>, c: CursorModel)
    requires
        on_course(devices, c),
        c.path.len() < 64,
    ensures
        ({
            let (id_bit, inverse) = reply(devices, c.path);
            &&& c.direction(id_bit, inverse) is Some
            &&& on_course(
                devices,
                c.advanced(c.direction(id_bit, inverse)->0, !id_bit && !inverse),
            )
        }),
{
    let p = c.path;
    let n = p.len() as int;
    let (id_bit, inverse) = reply(devices, p);
    let k0 = choose|k: int| 0 <= k < devices.len() && #[trigger] agrees(devices[k].bits(), p, n);
    assert(answers(devices, p, n, devices[k0].bits()[n]));
    let fork = !id_bit && !inverse;
    let dir = c.direction(id_bit, inverse)->0;
    let c2 = c.advanced(dir, fork);
    let grown = p.push(dir);
    if c.marker is Some && n <= c.marker->0 {
        lemma_marker_step(devices, c);
    }
    assert(answers(devices, p, n, dir));
    let k1 = choose|k: int|
        0 <= k < devices.len() && #[trigger] agrees(devices[k].bits(), p, n)
            && devices[k].bits()[n] == dir;
    assert(agrees(devices[k1].bits(), grown, n + 1)) by {
        assert forall|j: int| 0 <= j < n + 1 implies devices[k1].bits()[j] == grown[j] by {
            if j < n {
                assert(grown[j] == p[j]);
            }
        }
    }
    if c.marker is Some {
        let m = c.marker->0;
        if n < m {
            assert(dir == c.last[n]);
            assert(agrees(grown, c.last, n + 1)) by {
                assert forall|j: int| 0 <= j < n + 1 implies grown[j] == c.last[j] by {
                    if j < n {
                        assert(grown[j] == p[j]);
                    }
                }
            }
        } else {
            assert(agrees(grown, c.last, m)) by {
                assert forall|j: int| 0 <= j < m implies grown[j] == c.last[j] by {
                    assert(grown[j] == p[j]);
                }
            }
            if n == m {
                assert(fork && dir);
            } else {
                assert(grown[m] == p[m]);
            }
        }
    }
    lemma_lowest_step(devices, p, below_marker(c), dir);
    lemma_deepest_step(devices, p, c.last_zero, dir, c2.last_zero);
    assert(c2.path == grown && c2.marker == c.marker && c2.last == c.last);
    assert(grown.len() == n + 1);
    assert(lowest(devices, c2.path, below_marker(c2), c2.path.len() as int));
    assert(deepest_turn(devices, c2.path, c2.path.len() as int, c2.last_zero));
    assert(c2.marker matches Some(m) ==> agrees(
        c2.path,
        c2.last,
        if c2.path.len() <= m {
            c2.path.len() as int
        } else {
            m
        },
    ) && (c2.path.len() > m ==> c2.path[m]));
    assert(on_course(devices, c2));
}

/// At its 64th slot a pass that stayed on course stands on the next address.
proof fn lemma_arrival(devices: Seq<DeviceAddress>, c: CursorModel)
    requires
        on_course(devices, c),
        c.path.len() == 64,
    ensures
        reached(devices, c.marker, c.last, c.path, c.last_zero),
{
    let s = c.path;
    let k0 = choose|k: int| 0 <= k < devices.len() && #[trigger] agrees(devices[k].bits(), s, 64);
    assert(devices[k0].bits() =~= s);
    match c.marker {
        None => {
            assert forall|k: int| 0 <= k < devices.len() implies (#[trigger] devices[k]).bits()
                == s || before(s, devices[k].bits()) by {
                let b = devices[k].bits();
                if b != s {
                    lemma_first_difference(b, s, 0);
                    let i = choose|i: int| 0 <= i < 64 && #[trigger] agrees(b, s, i) && b[i] != s[i];
                    assert(agrees(devices[k].bits(), s, i));
                    assert(agrees(s, b, i));
                }
            }
        },
        Some(m) => {
            let last = c.last;
            assert(turned_zero(devices, last, m));
            assert(agrees(last, s, m));
            assert(before(last, s));
            assert forall|k: int|
                0 <= k < devices.len() && before(last, (#[trigger] devices[k]).bits()) implies devices[k].bits()
                == s || before(s, devices[k].bits()) by {
                let b = devices[k].bits();
                let i = choose|i: int| 0 <= i < 64 && #[trigger] agrees(last, b, i) && !last[i] && b[i];
                assert(agrees(devices[k].bits(), last, i));
                if i > m {
                    assert(turned_zero(devices, last, i));
                } else if i == m {
                    if b != s {
                        assert(agrees(b, s, m + 1));
                        lemma_first_difference(b, s, m + 1);
                        let j = choose|j: int|
                            m + 1 <= j < 64 && #[trigger] agrees(b, s, j) && b[j] != s[j];
                        assert(agrees(devices[k].bits(), s, j));
                        assert(agrees(s, b, j));
                    }
                } else {
                    assert(agrees(s, b, i));
                }
            }
        },
    }
}

/// Whether `end`, the cursor and the report that a pass from `c` left, are
/// those of a pass that ended on the next address.
pub open spec fn ends_on_next(
    devices: Seq<DeviceAddress>,
    c: CursorModel,
    end: (CursorModel, Result<Option<DeviceAddress>, Error>),
) -> bool {
    &&& end.0.wf()
    &&& end.0.at_rest()
    &&& end.0.exhausted == (end.0.marker is None)
    &&& reached(devices, c.marker, c.last, end.0.last, end.0.marker)
    &&& reports(end.1, end.0.last)
}

proof fn lemma_walk(devices: Seq<DeviceAddress>, c: CursorModel)
    requires
        on_course(devices, c),
        c.path.len() < 64,
    ensures
        ends_on_next(devices, c, walk(devices, c)),
    decreases 64 - c.path.len(),
{
    lemma_step(devices, c);
    let (id_bit, inverse) = reply(devices, c.path);
    let dir = c.direction(id_bit, inverse)->0;
    let next = c.advanced(dir, !id_bit && !inverse);
    if c.path.len() + 1 == 64 {
        lemma_arrival(devices, next);
        let s = next.path;
        let k = choose|k: int| 0 <= k < devices.len() && (#[trigger] devices[k]).bits() == s;
        lemma_with_own_bits(devices[k]);
        assert(next.completed().path =~= Seq::<bool>::empty());
    } else {
        lemma_walk(devices, next);
    }
}

/// A pass ends on the next address.
///
/// Run on a bus with at least one device, from a cursor that a pass over
/// the same bus left (or from a fresh one), an enumeration call ends on an
/// address of the bus. After a fresh cursor it is the first address of the
/// bus; else it comes after the address of the pass before and no address
/// of the bus lies between the two. The call reports the address, or a
/// checksum failure if the address is not sealed, and leaves a cursor from
/// which the next call can go on.
pub proof fn law_pass_ends_on_next_address(devices: Seq<DeviceAddress>, c: CursorModel)
    requires
        devices.len() > 0,
        settled(devices, c),
        !c.exhausted,
    ensures
        ends_on_next(devices, c, scan(devices, c)),
        settled(devices, scan(devices, c).0),
{
    assert(c.abandoned().path =~= c.path);
    assert(c.abandoned() == c);
    assert(agrees(devices[0].bits(), c.path, 0));
    lemma_walk(devices, c);
}

/// A pass that leaves no marker ended on the last address of the bus.
pub proof fn lemma_unmarked_is_last(devices: Seq<DeviceAddress>, s: Seq<bool>)
    requires
        s.len() == 64,
        deepest_turn(devices, s, 64, None),
    ensures
        forall|k: int|
            0 <= k < devices.len() ==> (#[trigger] devices[k]).bits() == s || before(
                devices[k].bits(),
                s,
            ),
{
    assert forall|k: int| 0 <= k < devices.len() implies (#[trigger] devices[k]).bits() == s
        || before(devices[k].bits(), s) by {
        let b = devices[k].bits();
        if b != s {
            lemma_first_difference(b, s, 0);
            let i = choose|i: int| 0 <= i < 64 && #[trigger] agrees(b, s, i) && b[i] != s[i];
            assert(agrees(devices[k].bits(), s, i));
            if !s[i] {
                assert(turned_zero(devices, s, i));
            }
        }
    }
}

/// A bus with one device, whose address is sealed: the first enumeration
/// call finds that address and exhausts the cursor, and the call after it
/// finds nothing.
pub proof fn law_single_device_is_found_at_once(address: DeviceAddress)
    requires
        address.valid(),
    ensures
        scan(seq![address], CursorModel::fresh()).1 == Ok::<Option<DeviceAddress>, Error>(
            Some(address),
        ),
        scan(seq![address], CursorModel::fresh()).0.exhausted,
        scan(seq![address], scan(seq![address], CursorModel::fresh()).0).1 == Ok::<
            Option<DeviceAddress>,
            Error,
        >(None),
{
    let devices = seq![address];
    let fresh = CursorModel::fresh();
    law_pass_ends_on_next_address(devices, fresh);
    let end = scan(devices, fresh);
    let s = end.0.last;
    let k = choose|k: int| 0 <= k < devices.len() && (#[trigger] devices[k]).bits() == s;
    assert(devices[k] == address);
    lemma_with_own_bits(address);
    match end.1 {
        Ok(Some(found)) => {
            lemma_bits_determine_address(found, address);
        },
        _ => {},
    }
    if end.0.marker is Some {
        let j = end.0.marker->0;
        assert(turned_zero(devices, s, j));
        let w = choose|w: int|
            0 <= w < devices.len() && #[trigger] agrees(devices[w].bits(), s, j)
                && devices[w].bits()[j] == true;
        assert(devices[w] == address);
    }
}

/// Whether `found` lists the sealed addresses of `devices`, each once, in
/// the order in which the enumeration visits them.
pub open spec fn lists_in_order(devices: Seq<DeviceAddress>, found: Seq<DeviceAddress>) -> bool {
    &&& forall|i: int|
        0 <= i < found.len() ==> (#[trigger] found[i]).valid() && devices.contains(found[i])
    &&& forall|i: int, j: int|
        0 <= i < j < found.len() ==> before((#[trigger] found[i]).bits(), (#[trigger] found[j]).bits())
    &&& forall|k: int|
        0 <= k < devices.len() && (#[trigger] devices[k]).valid() ==> found.contains(devices[k])
}

/// Whether `found` lists the sealed addresses of `devices` up to the one
/// the cursor `c` stands on, each once and in order.
pub open spec fn listed_so_far(
    devices: Seq<DeviceAddress>,
    c: CursorModel,
    found: Seq<DeviceAddress>,
) -> bool {
    &&& forall|i: int|
        0 <= i < found.len() ==> (#[trigger] found[i]).valid() && devices.contains(found[i])
    &&& forall|i: int, j: int|
        0 <= i < j < found.len() ==> before((#[trigger] found[i]).bits(), (#[trigger] found[j]).bits())
    &&& if c.marker is None && !c.exhausted {
        found.len() == 0
    } else {
        &&& c.last.len() == 64
        &&& forall|i: int|
            0 <= i < found.len() ==> (#[trigger] found[i]).bits() == c.last || before(
                found[i].bits(),
                c.last,
            )
        &&& forall|k: int|
            0 <= k < devices.len() && (#[trigger] devices[k]).valid() && (devices[k].bits()
                == c.last || before(devices[k].bits(), c.last)) ==> found.contains(devices[k])
        &&& c.exhausted ==> deepest_turn(devices, c.last, 64, None)
    }
}

/// A bound on the number of passes that the cursor has still to run.
pub open spec fn passes_left(c: CursorModel) -> int {
    if c.exhausted {
        0
    } else if c.marker is None {
        rank_cap(64) + 2
    } else {
        rank_cap(64) - rank(c.last, 64) + 1
    }
}

/// What `found` becomes when a call reports `report`.
pub open spec fn with_report(
    found: Seq<DeviceAddress>,
    report: Result<Option<DeviceAddress>, Error>,
) -> Seq<DeviceAddress> {
    match report {
        Ok(Some(address)) => found.push(address),
        _ => found,
    }
}

/// One more call extends the list by the address it ends on, if that is
/// sealed, and brings the end of the enumeration nearer.
pub proof fn lemma_listing_grows(
    devices: Seq<DeviceAddress>,
    c: CursorModel,
    found: Seq<DeviceAddress>,
)
    requires
        devices.len() > 0,
        settled(devices, c),
        !c.exhausted,
        listed_so_far(devices, c, found),
    ensures
        settled(devices, scan(devices, c).0),
        listed_so_far(devices, scan(devices, c).0, with_report(found, scan(devices, c).1)),
        0 <= passes_left(scan(devices, c).0) < passes_left(c),
        scan(devices, c).1 is Err ==> scan(devices, c).1 == Err::<Option<DeviceAddress>, Error>(
            Error::Checksum,
        ),
        scan(devices, c).1 != Ok::<Option<DeviceAddress>, Error>(None),
{
    law_pass_ends_on_next_address(devices, c);
    let (c2, report) = scan(devices, c);
    let s = c2.last;
    let found2 = with_report(found, report);
    let fresh = c.marker is None;
    lemma_rank_bounds(s, 64);
    lemma_rank_bounds(c.last, 64);
    if !fresh {
        lemma_before_has_lower_rank(c.last, s);
    }
    // Everything listed before lies before the new address.
    assert forall|i: int| 0 <= i < found.len() implies before((#[trigger] found[i]).bits(), s) by {
        let b = found[i].bits();
        if b != c.last {
            lemma_before_has_lower_rank(b, c.last);
        }
        lemma_lower_rank_is_before(b, s);
    }
    assert forall|i: int| 0 <= i < found2.len() implies (#[trigger] found2[i]).valid()
        && devices.contains(found2[i]) && (found2[i].bits() == s || before(found2[i].bits(), s)) by {
        if i < found.len() {
            assert(found2[i] == found[i]);
        } else {
            let k = choose|k: int| 0 <= k < devices.len() && (#[trigger] devices[k]).bits() == s;
            lemma_bits_determine_address(found2[i], devices[k]);
        }
    }
    assert forall|i: int, j: int| 0 <= i < j < found2.len() implies before(
        (#[trigger] found2[i]).bits(),
        (#[trigger] found2[j]).bits(),
    ) by {
        assert(found2[i] == found[i]);
        if j < found.len() {
            assert(found2[j] == found[j]);
        }
    }
    assert forall|k: int|
        0 <= k < devices.len() && (#[trigger] devices[k]).valid() && (devices[k].bits() == s
            || before(devices[k].bits(), s)) implies found2.contains(devices[k]) by {
        let b = devices[k].bits();
        if b != s {
            lemma_before_is_strict(b, s);
            if !fresh {
                lemma_one_comes_first(b, c.last);
            }
            assert(found.contains(devices[k]));
            let i = choose|i: int| 0 <= i < found.len() && found[i] == devices[k];
            assert(found2[i] == devices[k]);
        } else {
            lemma_with_own_bits(devices[k]);
            let a = report->Ok_0->0;
            lemma_bits_determine_address(a, devices[k]);
            assert(found2[found.len() as int] == devices[k]);
        }
    }
}

/// Once the cursor is exhausted the list is complete.
pub proof fn lemma_listing_complete(
    devices: Seq<DeviceAddress>,
    c: CursorModel,
    found: Seq<DeviceAddress>,
)
    requires
        c.exhausted,
        listed_so_far(devices, c, found),
    ensures
        lists_in_order(devices, found),
{
    lemma_unmarked_is_last(devices, c.last);
}

/// The cursor after the first `n` enumeration calls on `devices`, the first
/// of them with a fresh cursor.
pub open spec fn after_calls(devices: Seq<DeviceAddress>, n: nat) -> CursorModel
    decreases n,
{
    if n == 0 {
        CursorModel::fresh()
    } else {
        scan(devices, after_calls(devices, (n - 1) as nat)).0
    }
}

/// The addresses that the first `n` enumeration calls on `devices` report,
/// in the order of the calls.
pub open spec fn reported(devices: Seq<DeviceAddress>, n: nat) -> Seq<DeviceAddress>
    decreases n,
{
    if n == 0 {
        Seq::empty()
    } else {
        with_report(
            reported(devices, (n - 1) as nat),
            scan(devices, after_calls(devices, (n - 1) as nat)).1,
        )
    }
}

/// Successive calls visit every address once.
///
/// On a bus with at least one device, what the first `n` calls report are
/// sealed addresses of the bus, each later one after each earlier one, and
/// no sealed address up to the one the last call ended on is left out. Once
/// a call has exhausted the cursor, every sealed address of the bus has
/// been reported, and further calls report nothing more.
pub proof fn law_calls_visit_each_address_once(devices: Seq<DeviceAddress>, n: nat)
    requires
        devices.len() > 0,
    ensures
        settled(devices, after_calls(devices, n)),
        listed_so_far(devices, after_calls(devices, n), reported(devices, n)),
        after_calls(devices, n).exhausted ==> lists_in_order(devices, reported(devices, n)),
        after_calls(devices, n).exhausted ==> reported(devices, n + 1) == reported(devices, n),
        !after_calls(devices, n).exhausted ==> 0 < passes_left(after_calls(devices, n))
            <= rank_cap(64) + 2 - n,
    decreases n,
{
    let c = after_calls(devices, n);
    if n == 0 {
        lemma_rank_bounds(c.last, 64);
    } else {
        let before = after_calls(devices, (n - 1) as nat);
        law_calls_visit_each_address_once(devices, (n - 1) as nat);
        if !before.exhausted {
            lemma_listing_grows(devices, before, reported(devices, (n - 1) as nat));
        }
        lemma_rank_bounds(c.last, 64);
    }
    if c.exhausted {
        lemma_listing_complete(devices, c, reported(devices, n));
    }
}

/// The enumeration ends: some call exhausts the cursor.
pub proof fn law_enumeration_ends(devices: Seq<DeviceAddress>)
    requires
        devices.len() > 0,
    ensures
        exists|n: nat| #[trigger] after_calls(devices, n).exhausted,
{
    lemma_rank_bounds(Seq::<bool>::empty(), 64);
    let n = (rank_cap(64) + 2) as nat;
    law_calls_visit_each_address_once(devices, n);
    assert(after_calls(devices, n).exhausted);
}

} // verus!
