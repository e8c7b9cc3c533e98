//! The Quaver map model: hit objects and map metadata.
use vstd::prelude::*;

verus! {

/// A single note of a Quaver map: when it starts (in milliseconds, absent for
/// a note at the very start) and in which lane (counted from 1).
#[derive(Clone, Copy, Debug, PartialEq, Eq)]
pub struct HitObject {
    pub start_time: Option<u32>,
    pub lane: u32,
}

/// Quaver map metadata and hit objects.
pub struct QuaverMap {
    pub title: String,
    pub artist: String,
    pub difficulty_name: String,
    pub hit_objects: Vec<HitObject>,
    pub mode: String,
}

/// What a `QuaverMap` holds, as mathematical values.
pub struct QuaverMapView {
    pub title: Seq<char>,
    pub artist: Seq<char>,
    pub difficulty_name: Seq<char>,
    pub hit_objects: Seq<HitObject>,
    pub mode: Seq<char>,
}

impl View for QuaverMap {
    type V = QuaverMapView;

    open spec fn view(&self) -> QuaverMapView {
        QuaverMapView {
            title: self.title@,
            artist: self.artist@,
            difficulty_name: self.difficulty_name@,
            hit_objects: self.hit_objects@,
            mode: self.mode@,
        }
    }
}

impl HitObject {
    /// The start time that counts for this object: a missing one is 0.
    pub open spec fn start_or_zero(self) -> u32 {
        match self.start_time {
            Some(t) => t,
            None => 0,
        }
    }
}

/// Copies a list of hit objects.
fn copy_hit_objects(v: &Vec<HitObject>) -> (r: Vec<HitObject>)
    ensures
        r@ == v@,
{
    let mut r: Vec<HitObject> = Vec::new();
    let n = v.len();
    for i in 0..n
        invariant
            n == v@.len(),
            r@ == v@.subrange(0, i as int),
    {
        let o = v[i];
        r.push(HitObject { start_time: o.start_time, lane: o.lane });
        assert(r@ =~= v@.subrange(0, i + 1));
    }
    assert(v@.subrange(0, n as int) =~= v@);
    r
}

impl Clone for QuaverMap {
    fn clone(&self) -> (r: Self)
        ensures
            r@ == self@,
    {
        QuaverMap {
            title: self.title.clone(),
            artist: self.artist.clone(),
            difficulty_name: self.difficulty_name.clone(),
            hit_objects: copy_hit_objects(&self.hit_objects),
            mode: self.mode.clone(),
        }
    }
}

} // verus!
