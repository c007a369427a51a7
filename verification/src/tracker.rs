//! The aircraft tracker's register and the decisions it makes on each
//! received message: which aircraft to create or update, which pair of CPR
//! frames to decode into a position, and which aircraft to prune.
//!
//! Times are nanoseconds since the Unix epoch. Positions and velocities are
//! whatever the caller decoded them into (`P`, `V`); the tracker stores them
//! without reading them.

use vstd::prelude::*;
use std::collections::HashMap;
use vstd::std_specs::iter::IteratorSpec;

verus! {

broadcast use vstd::std_specs::hash::group_hash_axioms;

/// How long CPR frames count as recent, in nanoseconds (ten seconds).
pub const ADSB_TIME_RECENT_NANOS: u128 = 10_000_000_000;

/// One airborne position message's CPR-encoded position and altitude.
#[derive(Debug, Clone, Copy, PartialEq, Eq)]
pub struct CprFrame {
    /// The message's type code (9 to 18 or 20 to 22).
    pub type_code: u8,
    /// Surveillance status (0 to 3).
    pub surveillance_status: u8,
    /// Single antenna flag or NIC supplement.
    pub saf_or_imf: u8,
    /// Altitude in feet, when decodable.
    pub altitude: Option<u16>,
    /// Whether the time is UTC-synchronised.
    pub utc_sync: bool,
    /// Whether this is an odd (rather than even) CPR frame.
    pub odd: bool,
    /// 17-bit CPR latitude.
    pub lat_cpr: u32,
    /// 17-bit CPR longitude.
    pub lon_cpr: u32,
}

/// A CPR frame and when it was received.
#[derive(Debug, Clone, Copy, PartialEq, Eq)]
pub struct CprFrameRecord {
    pub cpr_frame: CprFrame,
    pub time: u128,
}

/// A decoded position and when it was received.
#[derive(Debug, Clone)]
pub struct AircraftPositionRecord<P> {
    pub position: P,
    pub time: u128,
}

/// A decoded velocity and when it was received.
#[derive(Debug, Clone)]
pub struct AircraftVelocityRecord<V> {
    pub velocity: V,
    pub time: u128,
}

/// Everything the tracker knows about one aircraft.
#[derive(Debug)]
pub struct AircraftRecord<P, V> {
    /// The aircraft's 24-bit ICAO address.
    pub icao: u32,
    pub callsign: Option<String>,
    pub emitter_category: Option<u8>,
    pub positions: Vec<AircraftPositionRecord<P>>,
    pub velocities: Vec<AircraftVelocityRecord<V>>,
    pub last_cpr_even: Option<CprFrameRecord>,
    pub last_cpr_odd: Option<CprFrameRecord>,
    pub last_seen: u128,
}

/// The mathematical content of an `AircraftRecord`.
pub struct AircraftState<P, V> {
    pub icao: u32,
    pub callsign: Option<Seq<char>>,
    pub emitter_category: Option<u8>,
    pub positions: Seq<AircraftPositionRecord<P>>,
    pub velocities: Seq<AircraftVelocityRecord<V>>,
    pub last_cpr_even: Option<CprFrameRecord>,
    pub last_cpr_odd: Option<CprFrameRecord>,
    pub last_seen: u128,
}

impl<P, V> View for AircraftRecord<P, V> {
    type V = AircraftState<P, V>;

    open spec fn view(&self) -> AircraftState<P, V> {
        AircraftState {
            icao: self.icao,
            callsign: match &self.callsign {
                Some(c) => Some(c@),
                None => None,
            },
            emitter_category: self.emitter_category,
            positions: self.positions@,
            velocities: self.velocities@,
            last_cpr_even: self.last_cpr_even,
            last_cpr_odd: self.last_cpr_odd,
            last_seen: self.last_seen,
        }
    }
}

/// A newly registered aircraft, seen at `now` and known by nothing else.
pub open spec fn fresh_state<P, V>(icao: u32, now: u128) -> AircraftState<P, V> {
    AircraftState {
        icao,
        callsign: None,
        emitter_category: None,
        positions: Seq::empty(),
        velocities: Seq::empty(),
        last_cpr_even: None,
        last_cpr_odd: None,
        last_seen: now,
    }
}

/// The aircraft's state if registered, else a newly registered one.
pub open spec fn state_or_fresh<P, V>(
    register: Map<u32, AircraftState<P, V>>,
    icao: u32,
    now: u128,
) -> AircraftState<P, V> {
    if register.contains_key(icao) {
        register[icao]
    } else {
        fresh_state(icao, now)
    }
}

/// The even slot holds an even frame and the odd slot an odd one.
pub open spec fn slots_match<P, V>(s: AircraftState<P, V>) -> bool {
    &&& (s.last_cpr_even matches Some(r) ==> !r.cpr_frame.odd)
    &&& (s.last_cpr_odd matches Some(r) ==> r.cpr_frame.odd)
}

/// Whether a frame received at `time` is recent at `now`: received less
/// than ten seconds before it (or stamped later than `now`).
pub open spec fn recent(time: u128, now: u128) -> bool {
    now < time + ADSB_TIME_RECENT_NANOS
}

/// The pair of CPR frames to decode, older first, when the aircraft has
/// both an even and an odd frame and both are recent; frames received at the
/// same time put the odd one first.
pub open spec fn cpr_pair<P, V>(s: AircraftState<P, V>, now: u128) -> Option<(CprFrame, CprFrame)> {
    match (s.last_cpr_even, s.last_cpr_odd) {
        (Some(even), Some(odd)) => {
            if recent(even.time, now) && recent(odd.time, now) {
                if even.time < odd.time {
                    Some((even.cpr_frame, odd.cpr_frame))
                } else {
                    Some((odd.cpr_frame, even.cpr_frame))
                }
            } else {
                None
            }
        },
        _ => None,
    }
}

/// The state after an identification message at `now`.
pub open spec fn identified<P, V>(
    s: AircraftState<P, V>,
    callsign: Seq<char>,
    category: u8,
    now: u128,
) -> AircraftState<P, V> {
    AircraftState { callsign: Some(callsign), emitter_category: Some(category), last_seen: now, ..s }
}

/// The state after an airborne position message at `now`: the frame takes
/// the even or odd slot.
pub open spec fn positioned<P, V>(s: AircraftState<P, V>, frame: CprFrame, now: u128) -> AircraftState<
    P,
    V,
> {
    let rec = CprFrameRecord { cpr_frame: frame, time: now };
    if frame.odd {
        AircraftState { last_cpr_odd: Some(rec), last_seen: now, ..s }
    } else {
        AircraftState { last_cpr_even: Some(rec), last_seen: now, ..s }
    }
}

/// The state after an airborne velocity message at `now`.
pub open spec fn moved<P, V>(s: AircraftState<P, V>, velocity: Option<V>, now: u128) -> AircraftState<
    P,
    V,
> {
    match velocity {
        Some(v) => AircraftState {
            velocities: s.velocities.push(AircraftVelocityRecord { velocity: v, time: now }),
            last_seen: now,
            ..s
        },
        None => AircraftState { last_seen: now, ..s },
    }
}

/// Whether a record seen at `last_seen` survives pruning at `now`.
pub open spec fn survives(last_seen: u128, prune_after: u128, now: u128) -> bool {
    last_seen + prune_after >= now
}

/// The register after pruning at `now` with period `prune_after`: the
/// aircraft that survive, each as it was.
pub open spec fn pruned<P, V>(
    register: Map<u32, AircraftState<P, V>>,
    prune_after: u128,
    now: u128,
) -> Map<u32, AircraftState<P, V>> {
    register.restrict(
        Set::new(|k: u32| register.contains_key(k) && survives(register[k].last_seen, prune_after, now)),
    )
}

/// The tracker: when to prune aircraft, and the register of aircraft.
pub struct Tracker<P, V> {
    /// After how many nanoseconds without a message an aircraft is pruned.
    prune_after: Option<u128>,
    /// The received aircraft, by ICAO address.
    register: HashMap<u32, AircraftRecord<P, V>>,
}

impl<P, V> Tracker<P, V> {
    /// The register: each known aircraft's state, by ICAO address.
    pub closed spec fn aircraft(&self) -> Map<u32, AircraftState<P, V>> {
        Map::new(|k: u32| self.register@.contains_key(k), |k: u32| self.register@[k]@)
    }

    /// The pruning period, in nanoseconds.
    pub closed spec fn spec_prune_after(&self) -> Option<u128> {
        self.prune_after
    }

    /// Every aircraft is filed under its own ICAO address, and its even
    /// and odd CPR slots hold even and odd frames.
    pub open spec fn wf(&self) -> bool {
        forall|k: u32| #[trigger]
            self.aircraft().contains_key(k) ==> {
                &&& self.aircraft()[k].icao == k
                &&& slots_match(self.aircraft()[k])
            }
    }

    /// A tracker with an empty register that prunes aircraft after
    /// `prune_after` nanoseconds without a message, or never.
    pub fn new_with_optional_args(prune_after: Option<u128>) -> (t: Self)
        ensures
            t.wf(),
            t.aircraft() == Map::<u32, AircraftState<P, V>>::empty(),
            t.spec_prune_after() == prune_after,
    {
        let t = Tracker { prune_after, register: HashMap::new() };
        assert(t.aircraft() =~= Map::<u32, AircraftState<P, V>>::empty());
        t
    }

    /// A tracker with an empty register that never prunes.
    pub fn new() -> (t: Self)
        ensures
            t.wf(),
            t.aircraft() == Map::<u32, AircraftState<P, V>>::empty(),
            t.spec_prune_after() is None,
    {
        Self::new_with_optional_args(None)
    }

    /// A tracker with an empty register that prunes aircraft after `after`
    /// nanoseconds without a message.
    pub fn with_pruning(after: u128) -> (t: Self)
        ensures
            t.wf(),
            t.aircraft() == Map::<u32, AircraftState<P, V>>::empty(),
            t.spec_prune_after() == Some(after),
    {
        Self::new_with_optional_args(Some(after))
    }

    /// After how many nanoseconds without a message an aircraft is pruned.
    pub fn prune_after(&self) -> (p: Option<u128>)
        ensures
            p == self.spec_prune_after(),
    {
        self.prune_after
    }

    /// The register, by ICAO address.
    pub fn register(&self) -> (r: &HashMap<u32, AircraftRecord<P, V>>)
        ensures
            forall|k: u32| #[trigger] r@.contains_key(k) <==> self.aircraft().contains_key(k),
            forall|k: u32| #[trigger] r@.contains_key(k) ==> r@[k]@ == self.aircraft()[k],
    {
        &self.register
    }

    /// Removes the aircraft's record and hands it out, or a newly
    /// registered one if there was none.
    fn take_or_fresh(&mut self, icao: u32, now: u128) -> (rec: AircraftRecord<P, V>)
        ensures
            rec@ == state_or_fresh(old(self).aircraft(), icao, now),
            final(self).aircraft() == old(self).aircraft().remove(icao),
            final(self).prune_after == old(self).prune_after,
    {
        let ghost before = self.aircraft();
        let taken = self.register.remove(&icao);
        assert(self.aircraft() =~= before.remove(icao));
        match taken {
            Some(rec) => rec,
            None => AircraftRecord {
                icao,
                callsign: None,
                emitter_category: None,
                positions: Vec::new(),
                velocities: Vec::new(),
                last_cpr_even: None,
                last_cpr_odd: None,
                last_seen: now,
            },
        }
    }

    /// Files `rec` under `icao`.
    fn put(&mut self, icao: u32, rec: AircraftRecord<P, V>)
        ensures
            final(self).aircraft() == old(self).aircraft().insert(icao, rec@),
            final(self).prune_after == old(self).prune_after,
    {
        let ghost before = self.aircraft();
        let ghost state = rec@;
        self.register.insert(icao, rec);
        assert(self.aircraft() =~= before.insert(icao, state));
    }

    /// Registers the aircraft anew, seen at `now`, replacing any record of it.
    pub fn register_aircraft(&mut self, icao: u32, now: u128)
        requires
            old(self).wf(),
        ensures
            final(self).wf(),
            final(self).aircraft() == old(self).aircraft().insert(icao, fresh_state(icao, now)),
            final(self).spec_prune_after() == old(self).spec_prune_after(),
            final(self).aircraft()[icao].icao == icao,
            final(self).aircraft()[icao].last_seen == now,
            final(self).aircraft()[icao].callsign is None,
            final(self).aircraft()[icao].emitter_category is None,
            final(self).aircraft()[icao].positions.len() == 0,
            final(self).aircraft()[icao].velocities.len() == 0,
            final(self).aircraft()[icao].last_cpr_even is None,
            final(self).aircraft()[icao].last_cpr_odd is None,
    {
        let rec = AircraftRecord {
            icao,
            callsign: None,
            emitter_category: None,
            positions: Vec::new(),
            velocities: Vec::new(),
            last_cpr_even: None,
            last_cpr_odd: None,
            last_seen: now,
        };
        self.put(icao, rec);
    }

    /// Marks a registered aircraft as seen at `now`; an unknown one is left
    /// unknown.
    pub fn update_last_seen(&mut self, icao: u32, now: u128)
        requires
            old(self).wf(),
        ensures
            final(self).wf(),
            final(self).aircraft() == if old(self).aircraft().contains_key(icao) {
                old(self).aircraft().insert(
                    icao,
                    AircraftState { last_seen: now, ..old(self).aircraft()[icao] },
                )
            } else {
                old(self).aircraft()
            },
            final(self).spec_prune_after() == old(self).spec_prune_after(),
    {
        if self.register.contains_key(&icao) {
            let mut rec = self.take_or_fresh(icao, now);
            rec.last_seen = now;
            self.put(icao, rec);
        }
    }

    /// Records an aircraft identification message received at `now`.
    pub fn aircraft_identification_received(
        &mut self,
        icao: u32,
        callsign: String,
        emitter_category: u8,
        now: u128,
    )
        requires
            old(self).wf(),
        ensures
            final(self).wf(),
            final(self).aircraft() == old(self).aircraft().insert(
                icao,
                identified(state_or_fresh(old(self).aircraft(), icao, now), callsign@, emitter_category, now),
            ),
            final(self).spec_prune_after() == old(self).spec_prune_after(),
            final(self).aircraft()[icao].callsign == Some(callsign@),
            final(self).aircraft()[icao].emitter_category == Some(emitter_category),
            final(self).aircraft()[icao].last_seen == now,
    {
        let mut rec = self.take_or_fresh(icao, now);
        rec.callsign = Some(callsign);
        rec.emitter_category = Some(emitter_category);
        rec.last_seen = now;
        self.put(icao, rec);
    }

    /// Records an airborne position message received at `now` and returns
    /// the pair of CPR frames to decode into a position, older first, if the
    /// aircraft now has a recent even and odd frame.
    pub fn airborne_position_received(&mut self, icao: u32, frame: CprFrame, now: u128) -> (pair:
        Option<(CprFrame, CprFrame)>)
        requires
            old(self).wf(),
        ensures
            final(self).wf(),
            final(self).aircraft() == old(self).aircraft().insert(
                icao,
                positioned(state_or_fresh(old(self).aircraft(), icao, now), frame, now),
            ),
            pair == cpr_pair(final(self).aircraft()[icao], now),
            final(self).spec_prune_after() == old(self).spec_prune_after(),
            final(self).aircraft()[icao].last_seen == now,
            (if frame.odd { final(self).aircraft()[icao].last_cpr_odd } else {
                final(self).aircraft()[icao].last_cpr_even
            }) == Some(CprFrameRecord { cpr_frame: frame, time: now }),
    {
        let mut rec = self.take_or_fresh(icao, now);
        let cpr_rec = CprFrameRecord { cpr_frame: frame, time: now };
        if frame.odd {
            rec.last_cpr_odd = Some(cpr_rec);
        } else {
            rec.last_cpr_even = Some(cpr_rec);
        }
        rec.last_seen = now;
        let pair = match (rec.last_cpr_even, rec.last_cpr_odd) {
            (Some(even), Some(odd)) => {
                if is_recent(even.time, now) && is_recent(odd.time, now) {
                    if even.time < odd.time {
                        Some((even.cpr_frame, odd.cpr_frame))
                    } else {
                        Some((odd.cpr_frame, even.cpr_frame))
                    }
                } else {
                    None
                }
            },
            _ => None,
        };
        self.put(icao, rec);
        pair
    }

    /// Adds a position decoded at `now` to a registered aircraft; an
    /// unknown aircraft is left unknown.
    pub fn position_decoded(&mut self, icao: u32, position: P, now: u128)
        requires
            old(self).wf(),
        ensures
            final(self).wf(),
            final(self).aircraft() == if old(self).aircraft().contains_key(icao) {
                old(self).aircraft().insert(
                    icao,
                    AircraftState {
                        positions: old(self).aircraft()[icao].positions.push(
                            AircraftPositionRecord { position, time: now },
                        ),
                        ..old(self).aircraft()[icao]
                    },
                )
            } else {
                old(self).aircraft()
            },
            final(self).spec_prune_after() == old(self).spec_prune_after(),
    {
        if self.register.contains_key(&icao) {
            let mut rec = self.take_or_fresh(icao, now);
            rec.positions.push(AircraftPositionRecord { position, time: now });
            self.put(icao, rec);
        }
    }

    /// Records an airborne velocity message received at `now`, with the
    /// velocity the message decoded to, if any.
    pub fn airborne_velocity_received(&mut self, icao: u32, velocity: Option<V>, now: u128)
        requires
            old(self).wf(),
        ensures
            final(self).wf(),
            final(self).aircraft() == old(self).aircraft().insert(
                icao,
                moved(state_or_fresh(old(self).aircraft(), icao, now), velocity, now),
            ),
            final(self).spec_prune_after() == old(self).spec_prune_after(),
            final(self).aircraft()[icao].last_seen == now,
            ({
                let before = if old(self).aircraft().contains_key(icao) {
                    old(self).aircraft()[icao].velocities
                } else {
                    Seq::empty()
                };
                let after = final(self).aircraft()[icao].velocities;
                match velocity {
                    Some(v) => {
                        &&& after.len() == before.len() + 1
                        &&& after.take(before.len() as int) == before
                        &&& after.last() == AircraftVelocityRecord { velocity: v, time: now }
                    },
                    None => after == before,
                }
            }),
    {
        let mut rec = self.take_or_fresh(icao, now);
        match velocity {
            Some(v) => rec.velocities.push(AircraftVelocityRecord { velocity: v, time: now }),
            None => {},
        }
        rec.last_seen = now;
        self.put(icao, rec);
    }

    /// Removes every aircraft not seen within the pruning period before
    /// `now`; without a pruning period the register stays as it is.
    pub fn prune_records(&mut self, now: u128)
        requires
            old(self).wf(),
        ensures
            final(self).wf(),
            final(self).aircraft() == match old(self).spec_prune_after() {
                Some(p) => pruned(old(self).aircraft(), p, now),
                None => old(self).aircraft(),
            },
            final(self).spec_prune_after() == old(self).spec_prune_after(),
            old(self).spec_prune_after() matches Some(p) ==> forall|k: u32| #[trigger]
                old(self).aircraft().contains_key(k) ==> (final(self).aircraft().contains_key(k) <==> old(
                self).aircraft()[k].last_seen + p >= now),
            forall|k: u32| #[trigger]
                final(self).aircraft().contains_key(k) ==> old(self).aircraft().contains_key(k)
                    && final(self).aircraft()[k] == old(self).aircraft()[k],
    {
        if let Some(prune_time) = self.prune_after {
            let ghost start = self.aircraft();
            let keys = collect_keys(&self.register);
            let mut i: usize = 0;
            while i < keys.len()
                invariant
                    i <= keys@.len(),
                    keys@.no_duplicates(),
                    keys@.to_set() == start.dom(),
                    self.prune_after == Some(prune_time),
                    forall|k: u32| #[trigger] self.aircraft().contains_key(k) ==> start.contains_key(k)
                        && self.aircraft()[k] == start[k],
                    forall|k: u32|
                        start.contains_key(k) ==> (#[trigger] self.aircraft().contains_key(k) <==> (
                        survives(start[k].last_seen, prune_time, now) || !keys@.take(
                            i as int,
                        ).contains(k))),
                decreases keys.len() - i,
            {
                let k = keys[i];
                let keep = match self.register.get(&k) {
                    Some(rec) => now <= rec.last_seen || now - rec.last_seen <= prune_time,
                    None => true,
                };
                let ghost before = self.aircraft();
                if !keep {
                    self.register.remove(&k);
                    assert(self.aircraft() =~= before.remove(k));
                }
                proof {
                    assert(keys@.take(i + 1) =~= keys@.take(i as int).push(k));
                    assert(keys@.to_set().contains(k));
                    assert forall|j: u32| start.contains_key(j) && j != k implies
                        (keys@.take(i + 1).contains(j) <==> keys@.take(i as int).contains(j)) by {
                        if keys@.take(i + 1).contains(j) {
                            let x = choose|x: int| 0 <= x < i + 1 && #[trigger] keys@.take(i + 1)[x] == j;
                            assert(keys@.take(i as int)[x] == j);
                        }
                    }
                    assert(!keys@.take(i as int).contains(k)) by {
                        if keys@.take(i as int).contains(k) {
                            let x = choose|x: int| 0 <= x < i && #[trigger] keys@.take(i as int)[x] == k;
                            assert(keys@[x] == keys@[i as int]);
                        }
                    }
                    assert(keys@.take(i + 1).contains(k)) by {
                        assert(keys@.take(i + 1)[i as int] == k);
                    }
                    assert(before.contains_key(k));
                    assert(keep == survives(start[k].last_seen, prune_time, now));
                    assert forall|j: u32| start.contains_key(j) implies (
                    #[trigger] self.aircraft().contains_key(j) <==> (survives(
                        start[j].last_seen,
                        prune_time,
                        now,
                    ) || !keys@.take(i + 1).contains(j))) by {
                        if j != k {
                            assert(self.aircraft().contains_key(j) == before.contains_key(j));
                        }
                    }
                }
                i = i + 1;
            }
            proof {
                assert(keys@.take(keys@.len() as int) =~= keys@);
                let target = start.restrict(
                    Set::new(|k: u32| start.contains_key(k) && survives(start[k].last_seen, prune_time, now)),
                );
                assert forall|k: u32| start.contains_key(k) implies keys@.contains(k) by {
                    assert(keys@.to_set().contains(k));
                }
                assert(self.aircraft() =~= target);
            }
        }
    }
}

/// The tracker only ever asks to decode one even and one odd frame, both
/// received less than ten seconds before now, the older first.
pub proof fn law_cpr_pair_is_even_and_odd<P, V>(t: Tracker<P, V>, icao: u32, now: u128)
    requires
        t.wf(),
        t.aircraft().contains_key(icao),
    ensures
        cpr_pair(t.aircraft()[icao], now) matches Some((first, second)) ==> {
            &&& first.odd != second.odd
            &&& (if first.odd { t.aircraft()[icao].last_cpr_odd } else { t.aircraft()[icao].last_cpr_even })
                matches Some(r1) && (if second.odd { t.aircraft()[icao].last_cpr_odd } else {
                t.aircraft()[icao].last_cpr_even }) matches Some(r2) && r1.cpr_frame == first
                && r2.cpr_frame == second && r1.time <= r2.time && recent(r1.time, now)
        },
{
}

/// An identification message sets the callsign and emitter category and
/// marks the aircraft as seen at `now`; its CPR frames and its position and
/// velocity histories stay as they were, and an aircraft not yet known
/// starts with none.
pub proof fn law_identification_keeps_history<P, V>(
    register: Map<u32, AircraftState<P, V>>,
    icao: u32,
    callsign: Seq<char>,
    category: u8,
    now: u128,
)
    ensures
        ({
            let before = state_or_fresh(register, icao, now);
            let after = identified(before, callsign, category, now);
            &&& after.callsign == Some(callsign) && after.emitter_category == Some(category)
            &&& after.last_seen == now && after.icao == before.icao
            &&& after.positions == before.positions && after.velocities == before.velocities
            &&& after.last_cpr_even == before.last_cpr_even && after.last_cpr_odd == before.last_cpr_odd
            &&& !register.contains_key(icao) ==> {
                &&& before.icao == icao && before.positions.len() == 0 && before.velocities.len() == 0
                &&& before.last_cpr_even is None && before.last_cpr_odd is None
            }
        }),
{
}

/// A position message marks the aircraft as seen at `now` and files the
/// frame, stamped `now`, in the slot of its parity; the other slot, the
/// identification and the position and velocity histories stay as they were.
pub proof fn law_position_message_marks_seen<P, V>(
    register: Map<u32, AircraftState<P, V>>,
    icao: u32,
    frame: CprFrame,
    now: u128,
)
    ensures
        ({
            let before = state_or_fresh(register, icao, now);
            let after = positioned(before, frame, now);
            &&& after.last_seen == now
            &&& frame.odd ==> after.last_cpr_odd == Some(CprFrameRecord { cpr_frame: frame, time: now })
                && after.last_cpr_even == before.last_cpr_even
            &&& !frame.odd ==> after.last_cpr_even == Some(CprFrameRecord { cpr_frame: frame, time: now })
                && after.last_cpr_odd == before.last_cpr_odd
            &&& after.icao == before.icao && after.callsign == before.callsign
            &&& after.emitter_category == before.emitter_category
            &&& after.positions == before.positions && after.velocities == before.velocities
        }),
{
}

/// A velocity message marks the aircraft as seen at `now`; a decoded
/// velocity is added after the earlier ones, which stay as they were, and a
/// message without one leaves the history unchanged.
pub proof fn law_velocity_history_is_appended<P, V>(
    register: Map<u32, AircraftState<P, V>>,
    icao: u32,
    velocity: Option<V>,
    now: u128,
)
    ensures
        ({
            let before = state_or_fresh(register, icao, now);
            let after = moved(before, velocity, now);
            &&& after.last_seen == now
            &&& !register.contains_key(icao) ==> before.velocities.len() == 0
            &&& match velocity {
                Some(v) => {
                    &&& after.velocities.len() == before.velocities.len() + 1
                    &&& forall|i: int|
                        0 <= i < before.velocities.len() ==> #[trigger] after.velocities[i]
                            == before.velocities[i]
                    &&& after.velocities[before.velocities.len() as int] == AircraftVelocityRecord {
                        velocity: v,
                        time: now,
                    }
                },
                None => after.velocities == before.velocities,
            }
            &&& after.positions == before.positions && after.callsign == before.callsign
        }),
{
}

/// Pruning with period `p` at `now` keeps an aircraft exactly when it was
/// seen no more than `p` before `now`, however long ago that was, and keeps
/// it unchanged; it adds none.
pub proof fn law_pruning_drops_exactly_the_silent<P, V>(
    register: Map<u32, AircraftState<P, V>>,
    p: u128,
    now: u128,
    k: u32,
)
    ensures
        register.contains_key(k) ==> (pruned(register, p, now).contains_key(k) <==> register[k].last_seen + p
            >= now),
        register.contains_key(k) && register[k].last_seen + p < now ==> !pruned(
            register,
            p,
            now,
        ).contains_key(k),
        pruned(register, p, now).contains_key(k) ==> register.contains_key(k) && pruned(register, p, now)[k]
            == register[k],
{
}

/// Whether a frame received at `time` is recent at `now`.
fn is_recent(time: u128, now: u128) -> (r: bool)
    ensures
        r == recent(time, now),
{
    now <= time || now - time < ADSB_TIME_RECENT_NANOS
}

/// The ICAO addresses in the register, each once.
fn collect_keys<P, V>(m: &HashMap<u32, AircraftRecord<P, V>>) -> (keys: Vec<u32>)
    ensures
        keys@.to_set() == m@.dom(),
        keys@.no_duplicates(),
{
    let ghost ks = vstd::std_specs::hash::spec_keys_iter(m).remaining().unref();
    let mut keys: Vec<u32> = Vec::new();
    for k in it: m.keys()
        invariant
            it.seq().unref() == ks,
            keys@ == ks.take(it.index()),
    {
        keys.push(*k);
        assert(ks.take(it.index() + 1) =~= ks.take(it.index()).push(*k));
    }
    assert(keys@ =~= ks);
    keys
}

} // verus!
