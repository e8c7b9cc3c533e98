//! Folding the hit objects of a map into chords: one row per start time,
//! holding the lanes hit at that time as a bit mask, in time order.
use vstd::prelude::*;
use crate::map::HitObject;

verus! {

/// One row of notes: a start time in milliseconds, and the lanes hit at that
/// time as a bit mask (lane 1 is bit 0).
#[derive(Clone, Copy, Debug, PartialEq, Eq)]
pub struct Chord {
    pub time: u32,
    pub lanes: u32,
}

/// The bit of a hit object's lane: lane `n` is bit `n - 1`; lane 0 counts as lane 1.
pub open spec fn lane_bit(o: HitObject) -> u32 {
    1u32 << (if o.lane == 0 { 0u32 } else { (o.lane - 1) as u32 })
}

/// Every lane of `objs` has a bit in a `u32` mask.
pub open spec fn lanes_fit(objs: Seq<HitObject>) -> bool {
    forall|j: int| 0 <= j < objs.len() ==> (#[trigger] objs[j]).lane <= 32
}

/// The lanes hit at time `t` by the objects of `objs`, as a bit mask.
pub open spec fn lanes_at(objs: Seq<HitObject>, t: u32) -> u32
    decreases objs.len(),
{
    if objs.len() == 0 {
        0
    } else {
        let rest = lanes_at(objs.drop_last(), t);
        if objs.last().start_or_zero() == t {
            rest | lane_bit(objs.last())
        } else {
            rest
        }
    }
}

/// Some object of `objs` starts at `t`.
pub open spec fn some_object_starts_at(objs: Seq<HitObject>, t: u32) -> bool {
    exists|j: int| 0 <= j < objs.len() && (#[trigger] objs[j]).start_or_zero() == t
}

/// Some chord of `chords` is at time `t`.
pub open spec fn some_chord_at(chords: Seq<Chord>, t: u32) -> bool {
    exists|k: int| 0 <= k < chords.len() && (#[trigger] chords[k]).time == t
}

/// The times of `chords` strictly increase.
pub open spec fn strictly_increasing(chords: Seq<Chord>) -> bool {
    forall|a: int, b: int| 0 <= a < b < chords.len() ==> (#[trigger] chords[a]).time < (
    #[trigger] chords[b]).time
}

/// `chords` is the chord list of `objs`: one chord per distinct start time,
/// in increasing time order, each holding every lane hit at its time.
pub open spec fn is_chord_list(objs: Seq<HitObject>, chords: Seq<Chord>) -> bool {
    &&& strictly_increasing(chords)
    &&& forall|k: int|
        0 <= k < chords.len() ==> some_object_starts_at(objs, (#[trigger] chords[k]).time)
    &&& forall|j: int|
        0 <= j < objs.len() ==> some_chord_at(chords, (#[trigger] objs[j]).start_or_zero())
    &&& forall|k: int|
        0 <= k < chords.len() ==> (#[trigger] chords[k]).lanes == lanes_at(objs, chords[k].time)
}

/// With no object at `t`, no lane is hit at `t`.
proof fn lemma_lanes_at_absent(objs: Seq<HitObject>, t: u32)
    requires
        !some_object_starts_at(objs, t),
    ensures
        lanes_at(objs, t) == 0,
    decreases objs.len(),
{
    if objs.len() > 0 {
        let p = objs.drop_last();
        assert forall|j: int| 0 <= j < p.len() implies (#[trigger] p[j]).start_or_zero() != t by {
            assert(p[j] == objs[j]);
        }
        lemma_lanes_at_absent(p, t);
        assert(objs[objs.len() - 1].start_or_zero() != t);
    }
}

/// One step of the grouping: `o` joins the chord at its start time, or starts
/// a new chord at the place that keeps the times in order.
fn add_object(out: &mut Vec<Chord>, Ghost(p): Ghost<Seq<HitObject>>, o: HitObject)
    requires
        is_chord_list(p, old(out)@),
        o.lane <= 32,
    ensures
        is_chord_list(p.push(o), final(out)@),
{
    let t: u32 = match o.start_time {
        Some(s) => s,
        None => 0,
    };
    let shift: u32 = if o.lane == 0 {
        0
    } else {
        o.lane - 1
    };
    let bit: u32 = 1u32 << shift;
    assert(bit == lane_bit(o));
    // the first chord not earlier than t
    let len = out.len();
    let mut k: usize = 0;
    while k < len && out[k].time < t
        invariant
            k <= len,
            len == out@.len(),
            forall|m: int| 0 <= m < k ==> out@[m].time < t,
        decreases len - k,
    {
        k = k + 1;
    }
    let ghost old_out = out@;
    if k < len && out[k].time == t {
        let c = out[k];
        out.set(k, Chord { time: t, lanes: c.lanes | bit });
        proof {
            lemma_merge_into_chord(p, o, old_out, out@, k as int);
        }
    } else {
        out.insert(k, Chord { time: t, lanes: bit });
        proof {
            lemma_new_chord(p, o, old_out, out@, k as int);
        }
    }
}

proof fn lemma_push_facts(p: Seq<HitObject>, o: HitObject)
    ensures
        p.push(o).drop_last() == p,
        p.push(o).last() == o,
        forall|j: int| 0 <= j < p.len() ==> #[trigger] p.push(o)[j] == p[j],
        forall|t: u32| #[trigger] lanes_at(p.push(o), t) == if o.start_or_zero() == t {
            lanes_at(p, t) | lane_bit(o)
        } else {
            lanes_at(p, t)
        },
{
    assert(p.push(o).drop_last() =~= p);
}

proof fn lemma_merge_into_chord(
    p: Seq<HitObject>,
    o: HitObject,
    old_out: Seq<Chord>,
    new_out: Seq<Chord>,
    k: int,
)
    requires
        is_chord_list(p, old_out),
        0 <= k < old_out.len(),
        old_out[k].time == o.start_or_zero(),
        new_out == old_out.update(
            k,
            Chord { time: o.start_or_zero(), lanes: old_out[k].lanes | lane_bit(o) },
        ),
    ensures
        is_chord_list(p.push(o), new_out),
{
    let q = p.push(o);
    let t = o.start_or_zero();
    lemma_push_facts(p, o);
    assert forall|m: int| 0 <= m < new_out.len() implies (#[trigger] new_out[m]).time
        == old_out[m].time by {}
    assert forall|k2: int|
        0 <= k2 < new_out.len() implies some_object_starts_at(q, (#[trigger] new_out[k2]).time) by {
        let tm = new_out[k2].time;
        assert(old_out[k2].time == tm);
        assert(some_object_starts_at(p, old_out[k2].time));
        let j = choose|j: int| 0 <= j < p.len() && (#[trigger] p[j]).start_or_zero() == tm;
        assert(q[j] == p[j]);
    }
    assert forall|j: int| 0 <= j < q.len() implies some_chord_at(
        new_out,
        (#[trigger] q[j]).start_or_zero(),
    ) by {
        if j < p.len() {
            assert(q[j] == p[j]);
            let tj = p[j].start_or_zero();
            assert(some_chord_at(old_out, tj));
            let k2 = choose|k2: int| 0 <= k2 < old_out.len() && (#[trigger] old_out[k2]).time == tj;
            assert(new_out[k2].time == tj);
        } else {
            assert(new_out[k].time == t);
        }
    }
    assert forall|k2: int| 0 <= k2 < new_out.len() implies (#[trigger] new_out[k2]).lanes
        == lanes_at(q, new_out[k2].time) by {
        if k2 != k {
            assert(old_out[k2].time != t) by {
                if k2 < k {
                    assert(old_out[k2].time < old_out[k].time);
                } else {
                    assert(old_out[k].time < old_out[k2].time);
                }
            }
            assert(old_out[k2].lanes == lanes_at(p, old_out[k2].time));
        } else {
            assert(old_out[k2].lanes == lanes_at(p, t));
        }
    }
}

proof fn lemma_new_chord(
    p: Seq<HitObject>,
    o: HitObject,
    old_out: Seq<Chord>,
    new_out: Seq<Chord>,
    k: int,
)
    requires
        is_chord_list(p, old_out),
        0 <= k <= old_out.len(),
        forall|m: int| 0 <= m < k ==> old_out[m].time < o.start_or_zero(),
        k < old_out.len() ==> old_out[k].time > o.start_or_zero(),
        new_out == old_out.insert(k, Chord { time: o.start_or_zero(), lanes: lane_bit(o) }),
    ensures
        is_chord_list(p.push(o), new_out),
{
    let q = p.push(o);
    let t = o.start_or_zero();
    let bit = lane_bit(o);
    lemma_push_facts(p, o);
    assert forall|m: int| k <= m < old_out.len() implies (#[trigger] old_out[m]).time > t by {
        if m > k {
            assert(old_out[k].time < old_out[m].time);
        }
    }
    assert(!some_object_starts_at(p, t)) by {
        if some_object_starts_at(p, t) {
            let j = choose|j: int| 0 <= j < p.len() && (#[trigger] p[j]).start_or_zero() == t;
            assert(some_chord_at(old_out, p[j].start_or_zero()));
            let k2 = choose|k2: int| 0 <= k2 < old_out.len() && (#[trigger] old_out[k2]).time == t;
            if k2 >= k {
                assert(old_out[k2].time > t);
            }
        }
    }
    lemma_lanes_at_absent(p, t);
    assert(0u32 | bit == bit) by (bit_vector);
    assert(strictly_increasing(new_out)) by {
        assert forall|a: int, b: int| 0 <= a < b < new_out.len() implies (
        #[trigger] new_out[a]).time < (#[trigger] new_out[b]).time by {
            if b < k {
                assert(new_out[a] == old_out[a] && new_out[b] == old_out[b]);
            } else if b == k {
                assert(new_out[a] == old_out[a]);
            } else if a == k {
                assert(new_out[b] == old_out[b - 1]);
                assert(old_out[b - 1].time > t);
            } else if a < k {
                assert(new_out[a] == old_out[a] && new_out[b] == old_out[b - 1]);
            } else {
                assert(new_out[a] == old_out[a - 1] && new_out[b] == old_out[b - 1]);
            }
        }
    }
    assert forall|k2: int|
        0 <= k2 < new_out.len() implies some_object_starts_at(q, (#[trigger] new_out[k2]).time) by {
        if k2 == k {
            assert(q[p.len() as int].start_or_zero() == t);
        } else {
            let old_k = if k2 < k {
                k2
            } else {
                k2 - 1
            };
            assert(new_out[k2] == old_out[old_k]);
            assert(some_object_starts_at(p, old_out[old_k].time));
            let tm = old_out[old_k].time;
            let j = choose|j: int| 0 <= j < p.len() && (#[trigger] p[j]).start_or_zero() == tm;
            assert(q[j] == p[j]);
        }
    }
    assert forall|j: int| 0 <= j < q.len() implies some_chord_at(
        new_out,
        (#[trigger] q[j]).start_or_zero(),
    ) by {
        if j < p.len() {
            assert(q[j] == p[j]);
            let tj = p[j].start_or_zero();
            assert(some_chord_at(old_out, tj));
            let k2 = choose|k2: int| 0 <= k2 < old_out.len() && (#[trigger] old_out[k2]).time == tj;
            if k2 < k {
                assert(new_out[k2] == old_out[k2]);
            } else {
                assert(new_out[k2 + 1] == old_out[k2]);
            }
        } else {
            assert(new_out[k].time == t);
        }
    }
    assert forall|k2: int| 0 <= k2 < new_out.len() implies (#[trigger] new_out[k2]).lanes
        == lanes_at(q, new_out[k2].time) by {
        if k2 != k {
            let old_k = if k2 < k {
                k2
            } else {
                k2 - 1
            };
            assert(new_out[k2] == old_out[old_k]);
            assert(old_out[old_k].time != t);
            assert(old_out[old_k].lanes == lanes_at(p, old_out[old_k].time));
        }
    }
}

/// Groups hit objects by start time, as the difficulty calculator wants them:
/// one chord per start time, times in increasing order, and in each chord the
/// bit of every lane that some object at that time is in.
pub fn group_into_chords(hit_objects: &Vec<HitObject>) -> (chords: Vec<Chord>)
    requires
        lanes_fit(hit_objects@),
    ensures
        is_chord_list(hit_objects@, chords@),
{
    let mut out: Vec<Chord> = Vec::new();
    let n = hit_objects.len();
    for i in 0..n
        invariant
            n == hit_objects@.len(),
            lanes_fit(hit_objects@),
            is_chord_list(hit_objects@.subrange(0, i as int), out@),
    {
        let o = hit_objects[i];
        assert(o.lane <= 32);
        add_object(&mut out, Ghost(hit_objects@.subrange(0, i as int)), o);
        assert(hit_objects@.subrange(0, i as int).push(o) =~= hit_objects@.subrange(0, i + 1));
    }
    assert(hit_objects@.subrange(0, n as int) =~= hit_objects@);
    out
}


/// Every object's lane is set in the mask of its start time.
pub proof fn lemma_lanes_at_holds_every_object(objs: Seq<HitObject>, j: int)
    requires
        0 <= j < objs.len(),
    ensures
        lanes_at(objs, objs[j].start_or_zero()) & lane_bit(objs[j]) == lane_bit(objs[j]),
    decreases objs.len(),
{
    let t = objs[j].start_or_zero();
    let b = lane_bit(objs[j]);
    let last = objs.last();
    if j == objs.len() - 1 {
        let rest = lanes_at(objs.drop_last(), t);
        assert((rest | b) & b == b) by (bit_vector);
    } else {
        let p = objs.drop_last();
        assert(p[j] == objs[j]);
        lemma_lanes_at_holds_every_object(p, j);
        let rest = lanes_at(p, t);
        let lb = lane_bit(last);
        assert(rest & b == b ==> (rest | lb) & b == b) by (bit_vector);
    }
}

/// The chord list of a map holds every note: for each hit object, the chord
/// at its start time has the bit of its lane set.
pub proof fn lemma_chords_hold_every_note(objs: Seq<HitObject>, chords: Seq<Chord>, j: int)
    requires
        is_chord_list(objs, chords),
        0 <= j < objs.len(),
    ensures
        exists|k: int|
            0 <= k < chords.len() && (#[trigger] chords[k]).time == objs[j].start_or_zero()
                && chords[k].lanes & lane_bit(objs[j]) == lane_bit(objs[j]),
{
    let t = objs[j].start_or_zero();
    assert(some_chord_at(chords, objs[j].start_or_zero()));
    let k = choose|k: int| 0 <= k < chords.len() && (#[trigger] chords[k]).time == t;
    lemma_lanes_at_holds_every_object(objs, j);
    assert(chords[k].lanes == lanes_at(objs, t));
}


/// Every lane set in the mask of a time belongs to some object at that time.
proof fn lemma_lanes_at_only_from_objects(objs: Seq<HitObject>, t: u32, b: u32)
    requires
        b < 32,
        lanes_at(objs, t) & (1u32 << b) != 0,
    ensures
        exists|j: int|
            0 <= j < objs.len() && (#[trigger] objs[j]).start_or_zero() == t && lane_bit(objs[j]) & (
            1u32 << b) != 0,
    decreases objs.len(),
{
    if objs.len() == 0 {
        assert(0u32 & (1u32 << b) == 0) by (bit_vector);
    } else {
        let p = objs.drop_last();
        let rest = lanes_at(p, t);
        let lb = lane_bit(objs.last());
        let m = 1u32 << b;
        let last = objs.len() - 1;
        assert(objs[last] == objs.last());
        if objs.last().start_or_zero() == t && lb & m != 0 {
        } else {
            if objs.last().start_or_zero() == t {
                assert((rest | lb) & m != 0 && lb & m == 0 ==> rest & m != 0) by (bit_vector);
            }
            lemma_lanes_at_only_from_objects(p, t, b);
            let j = choose|j: int|
                0 <= j < p.len() && (#[trigger] p[j]).start_or_zero() == t && lane_bit(p[j]) & m != 0;
            assert(objs[j] == p[j]);
        }
    }
}

proof fn lemma_chord_times_are_note_times(objs: Seq<HitObject>, chords: Seq<Chord>)
    requires
        is_chord_list(objs, chords),
    ensures
        chords.map_values(|c: Chord| c.time).to_set() == objs.map_values(
            |o: HitObject| o.start_or_zero(),
        ).to_set(),
{
    let lhs = chords.map_values(|c: Chord| c.time);
    let rhs = objs.map_values(|o: HitObject| o.start_or_zero());
    assert forall|t: u32| lhs.contains(t) == rhs.contains(t) by {
        if lhs.contains(t) {
            let i = choose|i: int| 0 <= i < lhs.len() && lhs[i] == t;
            assert(chords[i].time == t);
            assert(some_object_starts_at(objs, chords[i].time));
            let j = choose|j: int| 0 <= j < objs.len() && (#[trigger] objs[j]).start_or_zero() == t;
            assert(rhs[j] == t);
        }
        if rhs.contains(t) {
            let j = choose|j: int| 0 <= j < rhs.len() && rhs[j] == t;
            assert(objs[j].start_or_zero() == t);
            assert(some_chord_at(chords, objs[j].start_or_zero()));
            let i = choose|i: int| 0 <= i < chords.len() && (#[trigger] chords[i]).time == t;
            assert(lhs[i] == t);
        }
    }
    assert(lhs.to_set() =~= rhs.to_set());
}

proof fn lemma_chord_has_lanes_of_its_notes(objs: Seq<HitObject>, chords: Seq<Chord>)
    requires
        is_chord_list(objs, chords),
    ensures
        forall|j: int, k: int|
            0 <= j < objs.len() && 0 <= k < chords.len() && (#[trigger] chords[k]).time == (
            #[trigger] objs[j]).start_or_zero() ==> chords[k].lanes & lane_bit(objs[j]) == lane_bit(
                objs[j],
            ),
{
    assert forall|j: int, k: int|
        0 <= j < objs.len() && 0 <= k < chords.len() && (#[trigger] chords[k]).time == (
        #[trigger] objs[j]).start_or_zero() implies chords[k].lanes & lane_bit(objs[j]) == lane_bit(
            objs[j],
        ) by {
        assert(chords[k].lanes == lanes_at(objs, chords[k].time));
        lemma_lanes_at_holds_every_object(objs, j);
    }
}

proof fn lemma_chord_lanes_from_notes(objs: Seq<HitObject>, chords: Seq<Chord>)
    requires
        is_chord_list(objs, chords),
    ensures
        forall|k: int, b: u32|
            #![trigger chords[k].lanes & (1u32 << b)]
            0 <= k < chords.len() && b < 32 && chords[k].lanes & (1u32 << b) != 0 ==> {
                let c = chords[k];
                exists|j: int|
                    0 <= j < objs.len() && (#[trigger] objs[j]).start_or_zero() == c.time
                        && lane_bit(objs[j]) & (1u32 << b) != 0
            },
{
    assert forall|k: int, b: u32|
        #![trigger chords[k].lanes & (1u32 << b)]
        0 <= k < chords.len() && b < 32 && chords[k].lanes & (1u32 << b) != 0 implies {
        let c = chords[k];
        exists|j: int|
            0 <= j < objs.len() && (#[trigger] objs[j]).start_or_zero() == c.time
                && lane_bit(objs[j]) & (1u32 << b) != 0
    } by {
        assert(chords[k].lanes == lanes_at(objs, chords[k].time));
        lemma_lanes_at_only_from_objects(objs, chords[k].time, b);
    }
}

/// What a chord list of a map is, said of its parts: times strictly increase;
/// the times of the chords are exactly the start times of the notes; a chord
/// has the lane of every note at its time, and every lane it has is that of a
/// note at its time.
pub proof fn lemma_chord_list_facts(objs: Seq<HitObject>, chords: Seq<Chord>)
    requires
        is_chord_list(objs, chords),
    ensures
        forall|a: int, b: int| 0 <= a < b < chords.len() ==> chords[a].time < chords[b].time,
        chords.map_values(|c: Chord| c.time).to_set() == objs.map_values(
            |o: HitObject| o.start_or_zero(),
        ).to_set(),
        forall|j: int, k: int|
            0 <= j < objs.len() && 0 <= k < chords.len() && (#[trigger] chords[k]).time == (
            #[trigger] objs[j]).start_or_zero() ==> chords[k].lanes & lane_bit(objs[j]) == lane_bit(
                objs[j],
            ),
        forall|k: int, b: u32|
            #![trigger chords[k].lanes & (1u32 << b)]
            0 <= k < chords.len() && b < 32 && chords[k].lanes & (1u32 << b) != 0 ==> {
                let c = chords[k];
                exists|j: int|
                    0 <= j < objs.len() && (#[trigger] objs[j]).start_or_zero() == c.time
                        && lane_bit(objs[j]) & (1u32 << b) != 0
            },
{
    assert forall|a: int, b: int| 0 <= a < b < chords.len() implies chords[a].time < chords[b].time by {
        assert(chords[a].time < chords[b].time);
    }
    lemma_chord_times_are_note_times(objs, chords);
    lemma_chord_has_lanes_of_its_notes(objs, chords);
    lemma_chord_lanes_from_notes(objs, chords);
}

/// Every hit object of `a` has a counterpart in `b` with the same start time
/// and the same lane bit.
pub open spec fn notes_covered(a: Seq<HitObject>, b: Seq<HitObject>) -> bool {
    forall|i: int|
        0 <= i < a.len() ==> exists|j: int|
            0 <= j < b.len() && (#[trigger] b[j]).start_or_zero() == (#[trigger] a[i]).start_or_zero()
                && lane_bit(b[j]) == lane_bit(a[i])
}

/// Where every note of `a` is also one of `b`, the lanes of `a` at any time
/// are among those of `b`.
proof fn lemma_lanes_at_covered(a: Seq<HitObject>, b: Seq<HitObject>, t: u32)
    requires
        notes_covered(a, b),
    ensures
        lanes_at(b, t) & lanes_at(a, t) == lanes_at(a, t),
    decreases a.len(),
{
    let mb = lanes_at(b, t);
    if a.len() == 0 {
        assert(mb & 0u32 == 0u32) by (bit_vector);
    } else {
        let p = a.drop_last();
        assert forall|i: int| 0 <= i < p.len() implies exists|j: int|
            0 <= j < b.len() && (#[trigger] b[j]).start_or_zero() == (#[trigger] p[i]).start_or_zero()
                && lane_bit(b[j]) == lane_bit(p[i]) by {
            assert(p[i] == a[i]);
        }
        lemma_lanes_at_covered(p, b, t);
        let rest = lanes_at(p, t);
        let o = a.last();
        if o.start_or_zero() == t {
            let i = a.len() - 1;
            assert(a[i] == o);
            let j = choose|j: int|
                0 <= j < b.len() && (#[trigger] b[j]).start_or_zero() == a[i].start_or_zero()
                    && lane_bit(b[j]) == lane_bit(a[i]);
            lemma_lanes_at_holds_every_object(b, j);
            let lb = lane_bit(o);
            assert(mb & rest == rest && mb & lb == lb ==> mb & (rest | lb) == (rest | lb))
                by (bit_vector);
        }
    }
}

/// Two chord lists whose times strictly increase and which have the same
/// times have them at the same places.
proof fn lemma_same_times_same_places(a: Seq<Chord>, b: Seq<Chord>)
    requires
        strictly_increasing(a),
        strictly_increasing(b),
        forall|k: int| 0 <= k < a.len() ==> some_chord_at(b, (#[trigger] a[k]).time),
        forall|k: int| 0 <= k < b.len() ==> some_chord_at(a, (#[trigger] b[k]).time),
    ensures
        a.len() == b.len(),
        forall|k: int| 0 <= k < a.len() ==> (#[trigger] a[k]).time == b[k].time,
    decreases a.len(),
{
    if a.len() == 0 {
        if b.len() > 0 {
            assert(some_chord_at(a, b[0].time));
        }
    } else {
        assert(some_chord_at(b, a[0].time));
        assert(b.len() > 0);
        assert(some_chord_at(a, b[0].time));
        let j = choose|j: int| 0 <= j < b.len() && (#[trigger] b[j]).time == a[0].time;
        let i = choose|i: int| 0 <= i < a.len() && (#[trigger] a[i]).time == b[0].time;
        if j > 0 {
            assert(b[0].time < b[j].time);
            if i > 0 {
                assert(a[0].time < a[i].time);
            }
        }
        assert(a[0].time == b[0].time);
        let a2 = a.drop_first();
        let b2 = b.drop_first();
        assert forall|x: int, y: int| 0 <= x < y < a2.len() implies (#[trigger] a2[x]).time < (
        #[trigger] a2[y]).time by {
            assert(a2[x] == a[x + 1] && a2[y] == a[y + 1]);
        }
        assert forall|x: int, y: int| 0 <= x < y < b2.len() implies (#[trigger] b2[x]).time < (
        #[trigger] b2[y]).time by {
            assert(b2[x] == b[x + 1] && b2[y] == b[y + 1]);
        }
        assert forall|k: int| 0 <= k < a2.len() implies some_chord_at(b2, (#[trigger] a2[k]).time) by {
            assert(a2[k] == a[k + 1]);
            assert(a[0].time < a[k + 1].time);
            assert(some_chord_at(b, a[k + 1].time));
            let m = choose|m: int| 0 <= m < b.len() && (#[trigger] b[m]).time == a[k + 1].time;
            assert(m > 0);
            assert(b2[m - 1] == b[m]);
        }
        assert forall|k: int| 0 <= k < b2.len() implies some_chord_at(a2, (#[trigger] b2[k]).time) by {
            assert(b2[k] == b[k + 1]);
            assert(b[0].time < b[k + 1].time);
            assert(some_chord_at(a, b[k + 1].time));
            let m = choose|m: int| 0 <= m < a.len() && (#[trigger] a[m]).time == b[k + 1].time;
            assert(m > 0);
            assert(a2[m - 1] == a[m]);
        }
        lemma_same_times_same_places(a2, b2);
        assert forall|k: int| 0 <= k < a.len() implies (#[trigger] a[k]).time == b[k].time by {
            if k > 0 {
                assert(a2[k - 1] == a[k] && b2[k - 1] == b[k]);
            }
        }
    }
}

/// The chord list depends only on which notes there are, as pairs of start
/// time and lane: hit objects given in another order, or some of them given
/// more than once, give the same chords in the same order.
pub proof fn lemma_chords_depend_only_on_notes(
    a: Seq<HitObject>,
    b: Seq<HitObject>,
    chords_a: Seq<Chord>,
    chords_b: Seq<Chord>,
)
    requires
        notes_covered(a, b),
        notes_covered(b, a),
        is_chord_list(a, chords_a),
        is_chord_list(b, chords_b),
    ensures
        chords_a == chords_b,
{
    assert forall|k: int| 0 <= k < chords_a.len() implies some_chord_at(
        chords_b,
        (#[trigger] chords_a[k]).time,
    ) by {
        let t = chords_a[k].time;
        assert(some_object_starts_at(a, t));
        let i = choose|i: int| 0 <= i < a.len() && (#[trigger] a[i]).start_or_zero() == t;
        let j = choose|j: int|
            0 <= j < b.len() && (#[trigger] b[j]).start_or_zero() == a[i].start_or_zero()
                && lane_bit(b[j]) == lane_bit(a[i]);
        assert(some_chord_at(chords_b, b[j].start_or_zero()));
    }
    assert forall|k: int| 0 <= k < chords_b.len() implies some_chord_at(
        chords_a,
        (#[trigger] chords_b[k]).time,
    ) by {
        let t = chords_b[k].time;
        assert(some_object_starts_at(b, t));
        let i = choose|i: int| 0 <= i < b.len() && (#[trigger] b[i]).start_or_zero() == t;
        let j = choose|j: int|
            0 <= j < a.len() && (#[trigger] a[j]).start_or_zero() == b[i].start_or_zero()
                && lane_bit(a[j]) == lane_bit(b[i]);
        assert(some_chord_at(chords_a, a[j].start_or_zero()));
    }
    lemma_same_times_same_places(chords_a, chords_b);
    assert forall|k: int| 0 <= k < chords_a.len() implies chords_a[k] == chords_b[k] by {
        let t = chords_a[k].time;
        lemma_lanes_at_covered(a, b, t);
        lemma_lanes_at_covered(b, a, t);
        let x = lanes_at(a, t);
        let y = lanes_at(b, t);
        assert(y & x == x && x & y == y ==> x == y) by (bit_vector);
        assert(chords_a[k].lanes == x);
        assert(chords_b[k].lanes == lanes_at(b, chords_b[k].time));
    }
    assert(chords_a =~= chords_b);
}

/// The slot of the scores to use: `index` where it is one of the
/// `slot_count` slots, else the first.
pub fn rate_slot(index: usize, slot_count: usize) -> (r: usize)
    requires
        slot_count > 0,
    ensures
        r == (if index < slot_count { index } else { 0 }),
        r < slot_count,
{
    if index < slot_count {
        index
    } else {
        0
    }
}

} // verus!
