//! The decisions of the file watcher: what the overlay is told when Quaver
//! changes the played map or the rate.
//!
//! A rate travels here as the bit pattern of its single-precision value,
//! and rates are compared as IEEE-754 compares them.
use vstd::prelude::*;
use vstd::string::*;
use crate::map::{QuaverMap, QuaverMapView};
use crate::quaver::{key_count_of, lemma_key_count_of_keys_mode, parse_key_count};
use crate::text::decimal_text;

verus! {

/// The bit pattern of the rate 1.0, the rate used while none was read.
pub const DEFAULT_RATE_BITS: u32 = 0x3f80_0000u32;

/// The bit pattern is a NaN: all exponent bits set and a nonzero fraction.
pub open spec fn is_nan_bits(b: u32) -> bool {
    (b & 0x7f80_0000u32) == 0x7f80_0000u32 && (b & 0x007f_ffffu32) != 0
}

/// The bit pattern is positive or negative zero.
pub open spec fn is_zero_bits(b: u32) -> bool {
    (b & 0x7fff_ffffu32) == 0
}

/// IEEE-754 equality of two single-precision values given by their bits:
/// a NaN equals nothing, the two zeros are equal, other values are equal
/// exactly where their bits are.
pub open spec fn rate_bits_equal_spec(a: u32, b: u32) -> bool {
    !is_nan_bits(a) && !is_nan_bits(b) && (a == b || (is_zero_bits(a) && is_zero_bits(b)))
}

/// Compares two rates given by their bits as IEEE-754 compares them.
pub fn rate_bits_equal(a: u32, b: u32) -> (r: bool)
    ensures
        r == rate_bits_equal_spec(a, b),
{
    let a_nan = (a & 0x7f80_0000u32) == 0x7f80_0000u32 && (a & 0x007f_ffffu32) != 0;
    let b_nan = (b & 0x7f80_0000u32) == 0x7f80_0000u32 && (b & 0x007f_ffffu32) != 0;
    !a_nan && !b_nan && (a == b || ((a & 0x7fff_ffffu32) == 0 && (b & 0x7fff_ffffu32) == 0))
}

/// What changed in the files that Quaver writes: the trimmed content of the
/// map id file, where it changed and could be read, and the rate of the mods
/// file, where it changed and could be read and parsed.
pub struct FileChanges {
    pub next_mapid: Option<String>,
    pub next_rate: Option<u32>,
}

/// What the watcher knows: the id and content of the map last loaded, and the
/// rate last read.
pub struct MapWatcher {
    pub current_mapid: Option<String>,
    pub current_map: Option<QuaverMap>,
    pub current_rate: Option<u32>,
}

/// A `MapWatcher` by views.
pub struct WatcherView {
    pub mapid: Option<Seq<char>>,
    pub map: Option<QuaverMapView>,
    pub rate: Option<u32>,
}

impl View for MapWatcher {
    type V = WatcherView;

    open spec fn view(&self) -> WatcherView {
        WatcherView {
            mapid: match self.current_mapid {
                Some(s) => Some(s@),
                None => None,
            },
            map: match self.current_map {
                Some(m) => Some(m@),
                None => None,
            },
            rate: self.current_rate,
        }
    }
}

/// What the overlay is to be told.
pub enum WatcherAction {
    /// Nothing changed that calls for a redraw.
    Idle,
    /// Show this message instead of difficulty values.
    ShowText(String),
    /// Compute and show the difficulty of `map` with this key count and rate.
    UpdateCalc { map: QuaverMap, key_count: u32, rate_bits: u32 },
}

/// A `WatcherAction` by views.
pub enum ActionView {
    Idle,
    ShowText(Seq<char>),
    UpdateCalc { map: QuaverMapView, key_count: u32, rate_bits: u32 },
}

impl View for WatcherAction {
    type V = ActionView;

    open spec fn view(&self) -> ActionView {
        match self {
            WatcherAction::Idle => ActionView::Idle,
            WatcherAction::ShowText(s) => ActionView::ShowText(s@),
            WatcherAction::UpdateCalc { map, key_count, rate_bits } => ActionView::UpdateCalc {
                map: map@,
                key_count: *key_count,
                rate_bits: *rate_bits,
            },
        }
    }
}

pub open spec fn opt_text(o: Option<String>) -> Option<Seq<char>> {
    match o {
        Some(s) => Some(s@),
        None => None,
    }
}

pub open spec fn map_result_view(r: Option<Result<QuaverMap, String>>) -> Option<
    Result<QuaverMapView, Seq<char>>,
> {
    match r {
        Some(Ok(m)) => Some(Ok(m@)),
        Some(Err(e)) => Some(Err(e@)),
        None => None,
    }
}

/// A new map id was read and it is not the id of the map loaded: the map
/// must be looked up and loaded.
pub open spec fn map_load_wanted(st: WatcherView, next_mapid: Option<Seq<char>>) -> bool {
    next_mapid is Some && st.mapid != next_mapid
}

/// A rate was read and it differs from the rate known, or none was known.
pub open spec fn rate_changed(known: Option<u32>, next: Option<u32>) -> bool {
    match next {
        Some(r) => match known {
            Some(c) => !rate_bits_equal_spec(c, r),
            None => true,
        },
        None => false,
    }
}

/// The rate used for a computation: the one known, else 1.0.
pub open spec fn rate_or_default(known: Option<u32>) -> u32 {
    match known {
        Some(r) => r,
        None => DEFAULT_RATE_BITS,
    }
}

/// What is shown for the map now loaded.
pub open spec fn action_for_map(m: QuaverMapView, rate: Option<u32>) -> ActionView {
    match key_count_of(m.mode) {
        Ok(c) => if c >= 2 {
            ActionView::UpdateCalc { map: m, key_count: c, rate_bits: rate_or_default(rate) }
        } else {
            ActionView::ShowText("Cannot calculate difficulty for less than 2K"@)
        },
        Err(e) => ActionView::ShowText("Mode error: "@ + e),
    }
}

/// One round of the watcher: the state after the changes and what the
/// overlay is told. `loaded` is the outcome of loading the new map, where
/// one was wanted.
pub open spec fn watcher_step(
    st: WatcherView,
    next_mapid: Option<Seq<char>>,
    next_rate: Option<u32>,
    loaded: Option<Result<QuaverMapView, Seq<char>>>,
) -> (WatcherView, ActionView) {
    let wanted = map_load_wanted(st, next_mapid);
    if wanted && loaded is Some && loaded->0 is Err {
        (st, ActionView::ShowText("Map error: "@ + loaded->0->Err_0))
    } else {
        let map_loaded = wanted && loaded is Some && loaded->0 is Ok;
        let st1 = if map_loaded {
            WatcherView { mapid: next_mapid, map: Some(loaded->0->Ok_0), rate: st.rate }
        } else {
            st
        };
        let rate_updated = rate_changed(st1.rate, next_rate);
        let st2 = if rate_updated {
            WatcherView { mapid: st1.mapid, map: st1.map, rate: next_rate }
        } else {
            st1
        };
        if !(map_loaded || rate_updated) {
            (st2, ActionView::Idle)
        } else {
            match st2.map {
                None => (st2, ActionView::Idle),
                Some(m) => (st2, action_for_map(m, st2.rate)),
            }
        }
    }
}

/// The watcher knows a map id exactly when it knows a map: every round keeps
/// the two together.
pub proof fn lemma_step_keeps_id_with_map(
    st: WatcherView,
    next_mapid: Option<Seq<char>>,
    next_rate: Option<u32>,
    loaded: Option<Result<QuaverMapView, Seq<char>>>,
)
    requires
        (st.mapid is Some) == (st.map is Some),
    ensures
        (watcher_step(st, next_mapid, next_rate, loaded).0.mapid is Some) == (watcher_step(
            st,
            next_mapid,
            next_rate,
            loaded,
        ).0.map is Some),
{
}

/// A map that could not be loaded changes nothing that the watcher knows, the
/// rate included, and the overlay is told why.
pub proof fn lemma_failed_load_changes_nothing(
    st: WatcherView,
    next_mapid: Option<Seq<char>>,
    next_rate: Option<u32>,
    err: Seq<char>,
)
    requires
        map_load_wanted(st, next_mapid),
    ensures
        watcher_step(st, next_mapid, next_rate, Some(Err(err))) == (
            st,
            ActionView::ShowText("Map error: "@ + err),
        ),
{
}

/// The same changes seen twice in a row cause nothing the second time: no
/// map is loaded again and the overlay is not redrawn. (A NaN rate is never
/// equal to itself, so it is left out.)
pub proof fn lemma_repeated_changes_are_idle(
    st: WatcherView,
    next_mapid: Option<Seq<char>>,
    next_rate: Option<u32>,
    loaded: Option<Result<QuaverMapView, Seq<char>>>,
)
    requires
        (loaded is Some) == map_load_wanted(st, next_mapid),
        !(loaded is Some && loaded->0 is Err),
        next_rate is Some ==> !is_nan_bits(next_rate->0),
    ensures
        ({
            let after = watcher_step(st, next_mapid, next_rate, loaded).0;
            &&& !map_load_wanted(after, next_mapid)
            &&& watcher_step(after, next_mapid, next_rate, None) == (after, ActionView::Idle)
        }),
{
}

/// A computation is asked for only with a key count of at least 2 read from
/// the mode of the map now known, and with the rate now known, 1.0 where none is.
pub proof fn lemma_update_calc_is_sound(
    st: WatcherView,
    next_mapid: Option<Seq<char>>,
    next_rate: Option<u32>,
    loaded: Option<Result<QuaverMapView, Seq<char>>>,
)
    ensures
        ({
            let (after, action) = watcher_step(st, next_mapid, next_rate, loaded);
            action is UpdateCalc ==> {
                &&& action->key_count >= 2
                &&& after.map == Some(action->UpdateCalc_map)
                &&& key_count_of(action->UpdateCalc_map.mode) == Ok::<u32, Seq<char>>(action->key_count)
                &&& action->rate_bits == rate_or_default(after.rate)
            }
        }),
{
}

/// Loading a new map keeps the rate known from before: a round in which only
/// the map id changed leaves the rate as it was, replaces the map by the one
/// loaded, and a computation it asks for is at that earlier rate (1.0 where
/// none was ever read).
pub proof fn lemma_map_load_keeps_rate(
    st: WatcherView,
    next_mapid: Seq<char>,
    m: QuaverMapView,
)
    requires
        st.mapid != Some(next_mapid),
    ensures
        ({
            let (after, action) = watcher_step(st, Some(next_mapid), None, Some(Ok(m)));
            &&& after.rate == st.rate
            &&& after.mapid == Some(next_mapid)
            &&& after.map == Some(m)
            &&& action is UpdateCalc ==> action->UpdateCalc_map == m && action->rate_bits == (
            match st.rate {
                Some(r) => r,
                None => 0x3f80_0000u32,
            })
        }),
{
}

/// A round in which no rate was read never changes the rate known.
pub proof fn lemma_no_rate_read_keeps_rate(
    st: WatcherView,
    next_mapid: Option<Seq<char>>,
    loaded: Option<Result<QuaverMapView, Seq<char>>>,
)
    ensures
        watcher_step(st, next_mapid, None, loaded).0.rate == st.rate,
{
}

/// Rates compare as single-precision values do: a NaN equals nothing, and
/// two other values are equal exactly when their bit patterns are, or when
/// both are zeros of either sign. In particular the comparison is reflexive
/// on non-NaN values and symmetric.
pub proof fn lemma_rate_equality_is_float_equality(a: u32, b: u32)
    ensures
        ((a & 0x7f80_0000u32) == 0x7f80_0000u32 && (a & 0x007f_ffffu32) != 0) ==> !rate_bits_equal_spec(a, b),
        ((b & 0x7f80_0000u32) == 0x7f80_0000u32 && (b & 0x007f_ffffu32) != 0) ==> !rate_bits_equal_spec(a, b),
        (!((a & 0x7f80_0000u32) == 0x7f80_0000u32 && (a & 0x007f_ffffu32) != 0) && !((b
            & 0x7f80_0000u32) == 0x7f80_0000u32 && (b & 0x007f_ffffu32) != 0)) ==> (
        rate_bits_equal_spec(a, b) <==> (a == b || ((a & 0x7fff_ffffu32) == 0 && (b
            & 0x7fff_ffffu32) == 0))),
        (a & 0x7fff_ffffu32) != 0 && a != b ==> !rate_bits_equal_spec(a, b),
        rate_bits_equal_spec(a, b) == rate_bits_equal_spec(b, a),
        !((a & 0x7f80_0000u32) == 0x7f80_0000u32 && (a & 0x007f_ffffu32) != 0) ==> rate_bits_equal_spec(a, a),
{
}

/// A new map is wanted exactly when a map id was read and, as a whole string,
/// it is not the id of the map known: none is wanted when no id was read or
/// the same id was read again, and one is wanted when the ids differ in any
/// character or in length, or when no map is known yet.
pub proof fn lemma_map_wanted_on_any_difference(st: WatcherView, next: Seq<char>)
    ensures
        !map_load_wanted(st, None),
        st.mapid is None ==> map_load_wanted(st, Some(next)),
        st.mapid == Some(next) ==> !map_load_wanted(st, Some(next)),
        st.mapid is Some && st.mapid->0.len() != next.len() ==> map_load_wanted(st, Some(next)),
        st.mapid is Some ==> (forall|i: int|
            0 <= i < next.len() && i < st.mapid->0.len() && st.mapid->0[i] != next[i]
                ==> map_load_wanted(st, Some(next))),
{
    if st.mapid is Some {
        let c = st.mapid->0;
        assert forall|i: int|
            0 <= i < next.len() && i < c.len() && c[i] != next[i] implies map_load_wanted(
            st,
            Some(next),
        ) by {
            if st.mapid == Some(next) {
                assert(c[i] == next[i]);
            }
        }
    }
}

/// A newly loaded map whose mode is `Keys` followed by the digits of `n` is
/// computed with `n` keys, at the rate known before (1.0 where none was
/// read), when `n` is at least 2; with fewer keys the overlay is told that
/// no difficulty can be computed.
pub proof fn lemma_loaded_map_key_count(
    st: WatcherView,
    next_mapid: Seq<char>,
    m: QuaverMapView,
    n: u32,
)
    requires
        st.mapid != Some(next_mapid),
        m.mode == seq!['K', 'e', 'y', 's'] + decimal_text(n as nat),
    ensures
        ({
            let action = watcher_step(st, Some(next_mapid), None, Some(Ok(m))).1;
            if n >= 2 {
                action == ActionView::UpdateCalc {
                    map: m,
                    key_count: n,
                    rate_bits: match st.rate {
                        Some(r) => r,
                        None => 0x3f80_0000u32,
                    },
                }
            } else {
                action == ActionView::ShowText("Cannot calculate difficulty for less than 2K"@)
            }
        }),
{
    lemma_key_count_of_keys_mode(n);
}

impl MapWatcher {
    /// A watcher that knows no map and no rate yet.
    pub fn new() -> (w: Self)
        ensures
            w@.mapid is None,
            w@.map is None,
            w@.rate is None,
    {
        MapWatcher { current_mapid: None, current_map: None, current_rate: None }
    }

    /// Whether the map with id `next_mapid` must be looked up and loaded.
    pub fn wants_map(&self, next_mapid: &Option<String>) -> (r: bool)
        ensures
            r == map_load_wanted(self@, opt_text(*next_mapid)),
    {
        match next_mapid {
            None => false,
            Some(next) => match &self.current_mapid {
                None => true,
                Some(cur) => !(*cur == *next),
            },
        }
    }

    /// Takes in one round of file changes. `loaded` is the outcome of loading
    /// the map of `changes.next_mapid`, given exactly where `wants_map` asks
    /// for it.
    pub fn on_changes(&mut self, changes: FileChanges, loaded: Option<Result<QuaverMap, String>>) -> (action: WatcherAction)
        requires
            (loaded is Some) == map_load_wanted(old(self)@, opt_text(changes.next_mapid)),
        ensures
            (final(self)@, action@) == watcher_step(
                old(self)@,
                opt_text(changes.next_mapid),
                changes.next_rate,
                map_result_view(loaded),
            ),
    {
        let mut redraw = false;
        let wanted = self.wants_map(&changes.next_mapid);
        if wanted {
            match loaded {
                Some(Ok(map)) => {
                    self.current_map = Some(map);
                    self.current_mapid = changes.next_mapid;
                    redraw = true;
                },
                Some(Err(err)) => {
                    return WatcherAction::ShowText(String::from_str("Map error: ").concat(err.as_str()));
                },
                None => {},
            }
        }
        match changes.next_rate {
            Some(new_rate) => {
                let differs = match self.current_rate {
                    Some(cur) => !rate_bits_equal(cur, new_rate),
                    None => true,
                };
                if differs {
                    self.current_rate = Some(new_rate);
                    redraw = true;
                }
            },
            None => {},
        }
        if !redraw {
            return WatcherAction::Idle;
        }
        let map = match &self.current_map {
            Some(m) => m.clone(),
            None => {
                return WatcherAction::Idle;
            },
        };
        let rate_bits = match self.current_rate {
            Some(r) => r,
            None => DEFAULT_RATE_BITS,
        };
        match parse_key_count(map.mode.as_str()) {
            Ok(count) => {
                if count >= 2 {
                    WatcherAction::UpdateCalc { map, key_count: count, rate_bits }
                } else {
                    WatcherAction::ShowText(
                        String::from_str("Cannot calculate difficulty for less than 2K"),
                    )
                }
            },
            Err(err) => WatcherAction::ShowText(String::from_str("Mode error: ").concat(err.as_str())),
        }
    }
}

} // verus!
