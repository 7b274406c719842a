//! The measurement record: its in-memory model, the epoch-block
//! parser and the column-exact formatter.

use vstd::prelude::*;

use crate::duration::Duration;
use crate::epoch::{spec_epoch_nanos, Epoch, TimeScale};
use crate::errors::ParsingError;
use crate::flags::{spec_epoch_flag_rank, EpochFlag, MeasurementFlag};
use crate::header::{Header, HeaderView};
use crate::numeric::Decimal;
use crate::observable::Observable;
use crate::snr::SNR;
use crate::station::{GroundStation, GroundStationView};
use crate::text::trim;

verus! {

/// [Key] stores one epoch's measurements uniquely: the instant and
/// its sampling-condition flag.
#[derive(Debug, Clone, Copy, PartialEq, Eq, Structural, Hash)]
pub struct Key {
    /// Sampling conditions of the epoch.
    pub flag: EpochFlag,
    /// Instant of measurement.
    pub epoch: Epoch,
}

/// Chronological strict order on keys: by instant, then by flag.
pub open spec fn spec_key_lt(a: Key, b: Key) -> bool {
    spec_epoch_nanos(a.epoch) < spec_epoch_nanos(b.epoch) || (spec_epoch_nanos(a.epoch)
        == spec_epoch_nanos(b.epoch) && spec_epoch_flag_rank(a.flag) < spec_epoch_flag_rank(
        b.flag,
    ))
}

/// Offset of the onboard receiver clock from the TAI timescale.
#[derive(Debug, Clone, Copy, PartialEq, Eq, Structural, Hash)]
pub struct ClockOffset {
    /// True if this offset is extrapolated, not actually measured.
    pub extrapolated: bool,
    /// Offset to the TAI timescale.
    pub offset: Duration,
}

impl ClockOffset {
    /// A clock offset that was actually measured.
    pub fn from_measured_offset(offset: Duration) -> (r: Self)
        ensures
            r.offset == offset,
            r.extrapolated == false,
    {
        ClockOffset { offset, extrapolated: false }
    }

    /// A clock offset obtained by extrapolation.
    pub fn from_extrapolated_offset(offset: Duration) -> (r: Self)
        ensures
            r.offset == offset,
            r.extrapolated == true,
    {
        ClockOffset { offset, extrapolated: true }
    }
}

/// One observation slot: a ground station and an observable.
#[derive(Debug, Clone, Hash)]
pub struct ObservationKey {
    /// Observed ground station.
    pub station: GroundStation,
    /// Measured physics.
    pub observable: Observable,
}

/// Spec-level image of an observation slot.
#[verifier::ext_equal]
pub struct ObservationKeyView {
    pub station: GroundStationView,
    pub observable: Observable,
}

impl View for ObservationKey {
    type V = ObservationKeyView;

    open spec fn view(&self) -> ObservationKeyView {
        ObservationKeyView { station: self.station@, observable: self.observable }
    }
}

impl PartialEq for ObservationKey {
    fn eq(&self, other: &ObservationKey) -> (r: bool)
        ensures
            r == (self@ == other@),
    {
        let r = self.station == other.station && self.observable == other.observable;
        proof {
            if r {
                assert(self@ =~= other@);
            }
        }
        r
    }
}

impl vstd::std_specs::cmp::PartialEqSpecImpl for ObservationKey {
    open spec fn obeys_eq_spec() -> bool {
        true
    }

    open spec fn eq_spec(&self, other: &ObservationKey) -> bool {
        self@ == other@
    }
}

/// One signal observation: its value and an optional SNR bucket.
#[derive(Debug, Clone, Copy, PartialEq, Eq, Structural, Hash)]
pub struct Observation {
    /// Reported SNR bucket, for frequency-dependent measurements.
    pub snr: Option<SNR>,
    /// Measured value; the unit depends on the observable.
    pub value: Decimal,
}

impl Observation {
    /// Copies and returns the observation with an SNR bucket.
    pub fn with_snr(self, snr: SNR) -> (r: Self)
        ensures
            r == (Observation { snr: Some(snr), ..self }),
    {
        Observation { snr: Some(snr), ..self }
    }

    /// Copies and returns the observation with a measured value.
    pub fn with_value(self, value: Decimal) -> (r: Self)
        ensures
            r == (Observation { value: value, ..self }),
    {
        Observation { value, ..self }
    }
}

impl Default for Observation {
    fn default() -> (r: Self)
        ensures
            r.snr is None,
            r.value.mantissa == 0,
            r.value.exponent == 0,
    {
        Observation { snr: None, value: Decimal { mantissa: 0, exponent: 0 } }
    }
}

/// All measurements of one epoch: sampling flag, the satellite clock
/// offset when reported, and the observations keyed by station and
/// observable (at most one observation per slot).
#[derive(Debug, Clone)]
pub struct Measurements {
    /// Sampling conditions of this measurement set.
    pub flag: MeasurementFlag,
    /// Satellite (measurement system) clock offset.
    pub satellite_clock_offset: Option<ClockOffset>,
    /// Observations, keyed by station and observable.
    pub observations: Vec<(ObservationKey, Observation)>,
}

/// Spec-level image of one epoch's measurements.
#[verifier::ext_equal]
pub struct MeasurementsView {
    pub flag: MeasurementFlag,
    pub satellite_clock_offset: Option<ClockOffset>,
    pub observations: Seq<(ObservationKeyView, Observation)>,
}

impl View for Measurements {
    type V = MeasurementsView;

    open spec fn view(&self) -> MeasurementsView {
        MeasurementsView {
            flag: self.flag,
            satellite_clock_offset: self.satellite_clock_offset,
            observations: Seq::new(
                self.observations@.len(),
                |i: int| (self.observations@[i].0@, self.observations@[i].1),
            ),
        }
    }
}

impl Default for Measurements {
    fn default() -> (r: Self)
        ensures
            r@.flag == MeasurementFlag::OK,
            r@.satellite_clock_offset is None,
            r@.observations == Seq::<(ObservationKeyView, Observation)>::empty(),
    {
        let m = Measurements {
            flag: MeasurementFlag::OK,
            satellite_clock_offset: None,
            observations: Vec::new(),
        };
        proof {
            assert(m@.observations =~= Seq::<(ObservationKeyView, Observation)>::empty());
        }
        m
    }
}

/// The index of a slot among the observations, if present.
pub open spec fn spec_find_obs(
    obs: Seq<(ObservationKeyView, Observation)>,
    k: ObservationKeyView,
) -> Option<int>
    decreases obs.len(),
{
    if obs.len() == 0 {
        None
    } else if obs[0].0 == k {
        Some(0)
    } else {
        match spec_find_obs(obs.subrange(1, obs.len() as int), k) {
            Some(i) => Some(i + 1),
            None => None,
        }
    }
}

impl Measurements {
    /// An equal measurement set, copied entry by entry.
    pub(crate) fn duplicate(&self) -> (r: Measurements)
        ensures
            r@ == self@,
    {
        let mut observations: Vec<(ObservationKey, Observation)> = Vec::new();
        let mut q: usize = 0;
        while q < self.observations.len()
            invariant
                0 <= q <= self.observations@.len(),
                observations@.len() == q,
                forall|i: int|
                    0 <= i < q ==> #[trigger] observations@[i].0@ == self.observations@[i].0@
                        && observations@[i].1 == self.observations@[i].1,
            decreases self.observations@.len() - q,
        {
            let (k, o) = &self.observations[q];
            observations.push(
                (
                    ObservationKey { station: k.station.duplicate(), observable: k.observable },
                    *o,
                ),
            );
            proof {
                assert(observations@[q as int].0@ =~= self.observations@[q as int].0@);
            }
            q = q + 1;
        }
        let r = Measurements {
            flag: self.flag,
            satellite_clock_offset: self.satellite_clock_offset,
            observations,
        };
        proof {
            assert(r@.observations =~= self@.observations);
            assert(r@ =~~= self@);
        }
        r
    }

    /// True if this measurement set is free of sampling events.
    pub fn is_ok(&self) -> (r: bool)
        ensures
            r == (self@.flag == MeasurementFlag::OK),
    {
        match self.flag {
            MeasurementFlag::OK => true,
            _ => false,
        }
    }

    /// Adds an observation for a station and observable, replacing
    /// any observation already held for that slot.
    pub fn add_observation(&mut self, okey: ObservationKey, observation: Observation)
        ensures
            final(self)@.flag == old(self)@.flag,
            final(self)@.satellite_clock_offset == old(self)@.satellite_clock_offset,
            match spec_find_obs(old(self)@.observations, okey@) {
                Some(i) => final(self)@.observations == old(self)@.observations.update(
                    i,
                    (okey@, observation),
                ),
                None => final(self)@.observations == old(self)@.observations.push(
                    (okey@, observation),
                ),
            },
    {
        let n: usize = self.observations.len();
        let mut q: usize = 0;
        while q < n
            invariant
                0 <= q <= n,
                n == self.observations@.len(),
                self@ == old(self)@,
                forall|i: int| 0 <= i < q ==> #[trigger] self@.observations[i].0 != okey@,
            decreases n - q,
        {
            let same: bool = self.observations[q].0 == okey;
            if same {
                proof {
                    lemma_find_obs_at(self@.observations, okey@, q as int);
                }
                self.observations.set(q, (okey, observation));
                proof {
                    assert(self@.observations =~= old(self)@.observations.update(
                        q as int,
                        (okey@, observation),
                    ));
                    assert(self@ =~~= (MeasurementsView {
                        observations: old(self)@.observations.update(
                            q as int,
                            (okey@, observation),
                        ),
                        ..old(self)@
                    }));
                }
                return ;
            }
            q = q + 1;
        }
        proof {
            lemma_find_obs_none(self@.observations, okey@);
        }
        self.observations.push((okey, observation));
        proof {
            assert(self@.observations =~= old(self)@.observations.push((okey@, observation)));
        }
    }

    /// Copies and returns the set with one more observation.
    pub fn with_observation(&self, okey: ObservationKey, observation: Observation) -> (r: Self)
        ensures
            r@.flag == self@.flag,
            r@.satellite_clock_offset == self@.satellite_clock_offset,
            match spec_find_obs(self@.observations, okey@) {
                Some(i) => r@.observations == self@.observations.update(i, (okey@, observation)),
                None => r@.observations == self@.observations.push((okey@, observation)),
            },
    {
        let mut s = self.duplicate();
        s.add_observation(okey, observation);
        s
    }

    /// The distinct observables measured in this set, in first-seen
    /// order.
    pub fn observables(&self) -> (r: Vec<Observable>)
        ensures
            r@ == spec_distinct_observables(self@.observations, self@.observations.len() as int),
            forall|i: int|
                0 <= i < r@.len() ==> spec_measures_observable(self@, #[trigger] r@[i]),
    {
        let mut r: Vec<Observable> = Vec::new();
        let n: usize = self.observations.len();
        let mut q: usize = 0;
        while q < n
            invariant
                0 <= q <= n,
                n == self.observations@.len(),
                r@ == spec_distinct_observables(self@.observations, q as int),
                forall|i: int|
                    0 <= i < r@.len() ==> spec_measures_observable(self@, #[trigger] r@[i]),
            decreases n - q,
        {
            let o: Observable = self.observations[q].0.observable;
            proof {
                assert(self@.observations[q as int].0.observable == o);
            }
            let mut seen: bool = false;
            let mut w: usize = 0;
            while w < r.len()
                invariant
                    0 <= w <= r@.len(),
                    seen == exists|x: int| 0 <= x < w && r@[x] == o,
                decreases r@.len() - w,
            {
                if r[w] == o {
                    seen = true;
                }
                w = w + 1;
            }
            proof {
                assert(seen == r@.contains(o));
            }
            if !seen {
                r.push(o);
                proof {
                    assert(spec_measures_observable(self@, o)) by {
                        assert(self@.observations[q as int].0.observable == o);
                    }
                }
            }
            q = q + 1;
        }
        r
    }

    /// Copies and returns the set with the satellite clock offset.
    pub fn with_satellite_clock_offset(&self, clock_offset: ClockOffset) -> (r: Self)
        ensures
            r@ == (MeasurementsView { satellite_clock_offset: Some(clock_offset), ..self@ }),
    {
        let mut s = self.duplicate();
        s.satellite_clock_offset = Some(clock_offset);
        proof {
            assert(s@ =~~= (MeasurementsView {
                satellite_clock_offset: Some(clock_offset),
                ..self@
            }));
        }
        s
    }

    /// Copies and returns the set with an updated flag.
    pub fn with_measurement_flag(&self, flag: MeasurementFlag) -> (r: Self)
        ensures
            r@ == (MeasurementsView { flag: flag, ..self@ }),
    {
        let mut s = self.duplicate();
        s.flag = flag;
        proof {
            assert(s@ =~~= (MeasurementsView { flag: flag, ..self@ }));
        }
        s
    }
}

/// A found slot index lies in range and holds the key.
proof fn lemma_find_obs_range(obs: Seq<(ObservationKeyView, Observation)>, k: ObservationKeyView)
    ensures
        spec_find_obs(obs, k) matches Some(i) ==> 0 <= i < obs.len() && obs[i].0 == k,
    decreases obs.len(),
{
    if obs.len() > 0 && obs[0].0 != k {
        lemma_find_obs_range(obs.subrange(1, obs.len() as int), k);
        if spec_find_obs(obs, k) is Some {
            let i = spec_find_obs(obs, k)->Some_0;
            assert(obs.subrange(1, obs.len() as int)[i - 1] == obs[i]);
        }
    }
}

proof fn lemma_find_obs_at(
    obs: Seq<(ObservationKeyView, Observation)>,
    k: ObservationKeyView,
    q: int,
)
    requires
        0 <= q < obs.len(),
        obs[q].0 == k,
        forall|i: int| 0 <= i < q ==> #[trigger] obs[i].0 != k,
    ensures
        spec_find_obs(obs, k) == Some(q),
    decreases q,
{
    if q == 0 {
    } else {
        let s1 = obs.subrange(1, obs.len() as int);
        assert forall|i: int| 0 <= i < q - 1 implies #[trigger] s1[i].0 != k by {
            assert(s1[i] == obs[i + 1]);
        }
        lemma_find_obs_at(s1, k, q - 1);
    }
}

proof fn lemma_find_obs_none(obs: Seq<(ObservationKeyView, Observation)>, k: ObservationKeyView)
    requires
        forall|i: int| 0 <= i < obs.len() ==> #[trigger] obs[i].0 != k,
    ensures
        spec_find_obs(obs, k) is None,
    decreases obs.len(),
{
    if obs.len() > 0 {
        let s1 = obs.subrange(1, obs.len() as int);
        assert forall|i: int| 0 <= i < s1.len() implies #[trigger] s1[i].0 != k by {
            assert(s1[i] == obs[i + 1]);
        }
        lemma_find_obs_none(s1, k);
    }
}

/// The distinct observables of the first `i` observation slots, in
/// first-seen order.
pub open spec fn spec_distinct_observables(
    obs: Seq<(ObservationKeyView, Observation)>,
    i: int,
) -> Seq<Observable>
    decreases i,
{
    if i <= 0 {
        Seq::empty()
    } else {
        let prev = spec_distinct_observables(obs, i - 1);
        if prev.contains(obs[i - 1].0.observable) {
            prev
        } else {
            prev.push(obs[i - 1].0.observable)
        }
    }
}

/// Observables of matching stations among the first `w` slots,
/// appended to `acc` when not yet listed.
pub open spec fn spec_station_obs_inner(
    acc: Seq<Observable>,
    obs: Seq<(ObservationKeyView, Observation)>,
    m: crate::matcher::Matcher,
    w: int,
) -> Seq<Observable>
    decreases w,
{
    if w <= 0 {
        acc
    } else {
        let prev = spec_station_obs_inner(acc, obs, m, w - 1);
        if crate::station::spec_station_matches(obs[w - 1].0.station, m) && !prev.contains(
            obs[w - 1].0.observable,
        ) {
            prev.push(obs[w - 1].0.observable)
        } else {
            prev
        }
    }
}

/// The distinct observables of matching stations over the first `q`
/// epochs, in first-seen chronological order.
pub open spec fn spec_station_obs_list(
    ms: Seq<(Key, MeasurementsView)>,
    m: crate::matcher::Matcher,
    q: int,
) -> Seq<Observable>
    decreases q,
{
    if q <= 0 {
        Seq::empty()
    } else {
        spec_station_obs_inner(
            spec_station_obs_list(ms, m, q - 1),
            ms[q - 1].1.observations,
            m,
            ms[q - 1].1.observations.len() as int,
        )
    }
}

/// Some slot of the set measures the given observable.
pub open spec fn spec_measures_observable(m: MeasurementsView, o: Observable) -> bool {
    exists|j: int|
        0 <= j < m.observations.len() && (#[trigger] m.observations[j]).0.observable == o
}

/// Some slot of some epoch measures the observable for a station
/// selected by the matcher.
pub open spec fn spec_station_measures_observable(
    r: RecordView,
    m: crate::matcher::Matcher,
    o: Observable,
) -> bool {
    exists|j: int, w: int|
        0 <= j < r.measurements.len() && 0 <= w < (
        #[trigger] r.measurements[j]).1.observations.len() && (#[trigger] r.measurements[j].1.observations[w]).0.observable
            == o && crate::station::spec_station_matches(
            r.measurements[j].1.observations[w].0.station,
            m,
        )
}

/// [Record] contains all measurements of a file, in chronological
/// order, with the comments found in the record body.
#[derive(Debug, Clone)]
pub struct Record {
    /// Comments found during record parsing, kept as read.
    pub comments: Vec<Vec<u8>>,
    /// Measurements of each epoch, strictly ordered by key.
    pub measurements: Vec<(Key, Measurements)>,
}

/// Spec-level image of a record.
#[verifier::ext_equal]
pub struct RecordView {
    pub comments: Seq<Seq<u8>>,
    pub measurements: Seq<(Key, MeasurementsView)>,
}

impl View for Record {
    type V = RecordView;

    open spec fn view(&self) -> RecordView {
        RecordView {
            comments: Seq::new(self.comments@.len(), |i: int| self.comments@[i]@),
            measurements: Seq::new(
                self.measurements@.len(),
                |i: int| (self.measurements@[i].0, self.measurements@[i].1@),
            ),
        }
    }
}

/// Record order: the measurement keys are strictly increasing in
/// (epoch, flag).
pub open spec fn spec_record_sorted(ms: Seq<(Key, MeasurementsView)>) -> bool {
    forall|i: int, j: int| 0 <= i < j < ms.len() ==> spec_key_lt(#[trigger] ms[i].0, #[trigger] ms[j].0)
}

impl Record {
    /// The empty record.
    pub fn new() -> (r: Record)
        ensures
            r@.comments == Seq::<Seq<u8>>::empty(),
            r@.measurements == Seq::<(Key, MeasurementsView)>::empty(),
    {
        let r = Record { comments: Vec::new(), measurements: Vec::new() };
        proof {
            assert(r@.comments =~= Seq::<Seq<u8>>::empty());
            assert(r@.measurements =~= Seq::<(Key, MeasurementsView)>::empty());
        }
        r
    }

    /// The chronological (epoch, flag) pairs of the record.
    pub fn epochs_iter(&self) -> (r: Vec<(Epoch, EpochFlag)>)
        ensures
            r@.len() == self@.measurements.len(),
            forall|i: int|
                0 <= i < r@.len() ==> #[trigger] r@[i] == (
                self@.measurements[i].0.epoch,
                self@.measurements[i].0.flag,
            ),
    {
        let mut r: Vec<(Epoch, EpochFlag)> = Vec::new();
        let n: usize = self.measurements.len();
        let mut q: usize = 0;
        while q < n
            invariant
                0 <= q <= n,
                n == self.measurements@.len(),
                r@.len() == q,
                forall|i: int|
                    0 <= i < q ==> #[trigger] r@[i] == (
                    self@.measurements[i].0.epoch,
                    self@.measurements[i].0.flag,
                ),
            decreases n - q,
        {
            let k: Key = self.measurements[q].0;
            r.push((k.epoch, k.flag));
            q = q + 1;
        }
        r
    }

    /// The distinct observables measured for stations selected by
    /// the matcher, in first-seen chronological order.
    pub fn station_observables_iter(&self, matcher: &crate::matcher::Matcher) -> (r: Vec<
        Observable,
    >)
        ensures
            r@ == spec_station_obs_list(self@.measurements, *matcher, self@.measurements.len() as int),
            forall|i: int|
                0 <= i < r@.len() ==> spec_station_measures_observable(
                    self@,
                    *matcher,
                    #[trigger] r@[i],
                ),
    {
        let mut r: Vec<Observable> = Vec::new();
        let n: usize = self.measurements.len();
        let mut q: usize = 0;
        while q < n
            invariant
                0 <= q <= n,
                n == self.measurements@.len(),
                r@ == spec_station_obs_list(self@.measurements, *matcher, q as int),
                forall|i: int|
                    0 <= i < r@.len() ==> spec_station_measures_observable(
                        self@,
                        *matcher,
                        #[trigger] r@[i],
                    ),
            decreases n - q,
        {
            let m: &Measurements = &self.measurements[q].1;
            let on: usize = m.observations.len();
            let ghost obsv = self@.measurements[q as int].1.observations;
            let mut w: usize = 0;
            proof {
                assert(obsv.len() == on);
            }
            while w < on
                invariant
                    0 <= w <= on,
                    0 <= q < n,
                    n == self.measurements@.len(),
                    on == m.observations@.len(),
                    m == &self.measurements@[q as int].1,
                    obsv == self@.measurements[q as int].1.observations,
                    r@ == spec_station_obs_inner(
                        spec_station_obs_list(self@.measurements, *matcher, q as int),
                        obsv,
                        *matcher,
                        w as int,
                    ),
                    forall|i: int|
                        0 <= i < r@.len() ==> spec_station_measures_observable(
                            self@,
                            *matcher,
                            #[trigger] r@[i],
                        ),
                decreases on - w,
            {
                let entry: &(ObservationKey, Observation) = &m.observations[w];
                proof {
                    assert(obsv[w as int] == (entry.0@, entry.1));
                }
                if entry.0.station.matches(matcher) {
                    let o: Observable = entry.0.observable;
                    let mut seen: bool = false;
                    let mut v: usize = 0;
                    while v < r.len()
                        invariant
                            0 <= v <= r@.len(),
                            seen == exists|x: int| 0 <= x < v && r@[x] == o,
                        decreases r@.len() - v,
                    {
                        if r[v] == o {
                            seen = true;
                        }
                        v = v + 1;
                    }
                    proof {
                        assert(seen == r@.contains(o));
                    }
                    if !seen {
                        r.push(o);
                        proof {
                            assert(spec_station_measures_observable(self@, *matcher, o)) by {
                                assert(self@.measurements[q as int].1.observations[
                                    w as int
                                ].0.observable == o);
                                assert(crate::station::spec_station_matches(
                                    self@.measurements[q as int].1.observations[
                                        w as int
                                    ].0.station,
                                    *matcher,
                                ));
                            }
                        }
                    }
                }
                w = w + 1;
            }
            proof {
                assert(spec_station_obs_inner(
                    spec_station_obs_list(self@.measurements, *matcher, q as int),
                    obsv,
                    *matcher,
                    obsv.len() as int,
                ) == spec_station_obs_list(self@.measurements, *matcher, q + 1));
            }
            q = q + 1;
        }
        r
    }
}


/// Well-formed measurements: every observation value fits the
/// decimal range and every station has a well-formed DOMES number.
pub open spec fn spec_meas_wf(m: MeasurementsView) -> bool {
    &&& (forall|j: int|
        0 <= j < m.observations.len() ==> (#[trigger] m.observations[j]).1.value.wf()
            && m.observations[j].0.station.domes.wf())
    &&& (m.satellite_clock_offset matches Some(c) ==> c.offset.femtoseconds > i128::MIN)
}

/// Well-formed record: keys strictly increasing, every epoch a valid
/// TAI instant, and every measurement set well-formed.
pub open spec fn spec_record_wf(r: RecordView) -> bool {
    &&& spec_record_sorted(r.measurements)
    &&& forall|k: int|
        0 <= k < r.measurements.len() ==> ((#[trigger] r.measurements[k]).0.epoch.valid()
            && r.measurements[k].0.epoch.time_scale == TimeScale::TAI && spec_meas_wf(
            r.measurements[k].1,
        ))
}


/// An observation added to a measurement set: the slot is replaced
/// when already present, appended otherwise.
pub open spec fn spec_add_observation(
    m: MeasurementsView,
    k: ObservationKeyView,
    o: Observation,
) -> MeasurementsView {
    match spec_find_obs(m.observations, k) {
        Some(i) => MeasurementsView { observations: m.observations.update(i, (k, o)), ..m },
        None => MeasurementsView { observations: m.observations.push((k, o)), ..m },
    }
}

/// The first `i` observations of `obs` merged into `target`, in
/// order.
pub open spec fn spec_merge_obs(
    target: MeasurementsView,
    obs: Seq<(ObservationKeyView, Observation)>,
    i: int,
) -> MeasurementsView
    decreases i,
{
    if i <= 0 {
        target
    } else {
        spec_add_observation(spec_merge_obs(target, obs, i - 1), obs[i - 1].0, obs[i - 1].1)
    }
}

/// An epoch block inserted at its chronological place: entries after
/// the key are shifted, a slot with the same instant and flag
/// receives the block's observations, all other blocks keep their
/// place.
pub open spec fn spec_insert_block(
    ms: Seq<(Key, MeasurementsView)>,
    key: Key,
    m: MeasurementsView,
) -> Seq<(Key, MeasurementsView)>
    decreases ms.len(),
{
    if ms.len() == 0 {
        seq![(key, m)]
    } else if spec_key_lt(key, ms.last().0) {
        spec_insert_block(ms.drop_last(), key, m).push(ms.last())
    } else if spec_key_lt(ms.last().0, key) {
        ms.push((key, m))
    } else {
        ms.update(
            ms.len() - 1,
            (ms.last().0, spec_merge_obs(ms.last().1, m.observations, m.observations.len() as int)),
        )
    }
}

/// The epoch header line of a block, decoded: the instant in TAI
/// (the epoch text spans columns 2 to 33, its seventh field being
/// the flag), the flag digit, and the receiver clock offset in
/// seconds from columns 38 to 51, with the extrapolation mark past
/// column 52.
pub open spec fn spec_parse_epoch_line(line: Seq<u8>) -> Result<
    (Key, Option<ClockOffset>),
    ParsingError,
> {
    if line.len() < 34 {
        Err(ParsingError::EpochFormat)
    } else {
        match crate::epoch::spec_parse_epoch(line.subrange(2, 34), TimeScale::TAI) {
            Err(e) => Err(e),
            Ok(epoch) => match crate::flags::spec_parse_epoch_flag(
                crate::text::spec_trim(line.subrange(31, 34)),
            ) {
                Err(e) => Err(e),
                Ok(flag) => {
                    if line.len() < 52 {
                        Err(ParsingError::ClockOffset)
                    } else {
                        match crate::numeric::spec_parse_decimal(
                            crate::text::spec_trim(line.subrange(38, 52)),
                        ) {
                            None => Err(ParsingError::ClockOffset),
                            Some((mv, ev)) => {
                                if !(-1000000000000000 <= mv <= 1000000000000000 && -19 <= ev
                                    <= 19) {
                                    Err(ParsingError::ClockOffset)
                                } else if ev + 15 > 22 {
                                    Err(ParsingError::ClockOffset)
                                } else if crate::duration::spec_fs_of_scaled(mv, ev + 15)
                                    == i128::MIN {
                                    Err(ParsingError::ClockOffset)
                                } else {
                                    let offset = Duration {
                                        femtoseconds: crate::duration::spec_fs_of_scaled(
                                            mv,
                                            ev + 15,
                                        ) as i128,
                                    };
                                    let extrapolated = line.len() > 52 && crate::text::spec_trim(
                                        line.subrange(52, line.len() as int),
                                    ) == seq![49u8];
                                    Ok(
                                        (
                                            Key { epoch, flag },
                                            Some(ClockOffset { extrapolated, offset }),
                                        ),
                                    )
                                }
                            },
                        }
                    }
                },
            },
        }
    }
}

/// The observation cells of one physical line applied to a
/// measurement set: sixteen-column cells from `offset` on, each
/// paired with the observable at `obs_ptr`; a cell whose fourteen
/// value columns trim-parse as a decimal yields an observation (with
/// the SNR character when it parses), other cells are blank.
pub open spec fn spec_apply_cells(
    m: MeasurementsView,
    st: GroundStationView,
    observables: Seq<Observable>,
    obs_ptr: int,
    line: Seq<u8>,
    offset: int,
) -> (MeasurementsView, int)
    decreases observables.len() - obs_ptr,
{
    if !(0 <= obs_ptr < observables.len() && offset + 14 <= line.len()) {
        (m, obs_ptr)
    } else {
        let cell = crate::text::spec_trim(line.subrange(offset, offset + 14));
        let m2 = if cell.len() > 0 {
            match crate::numeric::spec_parse_decimal(cell) {
                Some((mv, ev)) => {
                    if -1000000000000000 <= mv <= 1000000000000000 && -19 <= ev <= 19 {
                        let snr = if offset + 15 <= line.len() {
                            match crate::snr::spec_parse_snr(
                                crate::text::spec_trim(line.subrange(offset + 14, offset + 15)),
                            ) {
                                Ok(s) => Some(s),
                                Err(_) => None,
                            }
                        } else {
                            None
                        };
                        spec_add_observation(
                            m,
                            ObservationKeyView { station: st, observable: observables[obs_ptr] },
                            Observation {
                                snr,
                                value: crate::numeric::Decimal {
                                    mantissa: mv as i64,
                                    exponent: ev as i32,
                                },
                            },
                        )
                    } else {
                        m
                    }
                },
                None => m,
            }
        } else {
            m
        };
        let next = if offset + 16 <= line.len() {
            offset + 16
        } else {
            line.len() as int
        };
        spec_apply_cells(m2, st, observables, obs_ptr + 1, line, next)
    }
}

/// The record parser's running state: the record built so far, the
/// open epoch block, and the station context within it.
#[verifier::ext_equal]
pub struct RecordParseState {
    pub comments: Seq<Seq<u8>>,
    pub measurements: Seq<(Key, MeasurementsView)>,
    pub cur: Option<(Key, MeasurementsView)>,
    pub station: Option<GroundStationView>,
    pub obs_ptr: int,
}

/// The state before any record line.
pub open spec fn spec_record_state_init() -> RecordParseState {
    RecordParseState {
        comments: Seq::empty(),
        measurements: Seq::empty(),
        cur: None,
        station: None,
        obs_ptr: 0,
    }
}

/// One record line applied to the parser state: comment lines are
/// collected; a `>` line closes the open block and opens the next;
/// within a block, a `D` line resolves its station (an unknown but
/// numeric code clears the context, so the sub-block is skipped) and
/// every identified line contributes its cells.
pub open spec fn spec_record_step(
    h: HeaderView,
    st: RecordParseState,
    line: Seq<u8>,
) -> Result<RecordParseState, ParsingError> {
    if line.len() > 60 && crate::text::spec_contains(line, crate::lines::spec_comment_marker()) {
        Ok(
            RecordParseState {
                comments: st.comments.push(crate::text::spec_trim_end(line.subrange(0, 60))),
                ..st
            },
        )
    } else if line.len() > 0 && line[0] == 62 {
        let flushed = match st.cur {
            Some((k, m)) => spec_insert_block(st.measurements, k, m),
            None => st.measurements,
        };
        match spec_parse_epoch_line(line) {
            Err(e) => Err(e),
            Ok((k, clock)) => Ok(
                RecordParseState {
                    comments: st.comments,
                    measurements: flushed,
                    cur: Some(
                        (
                            k,
                            MeasurementsView {
                                flag: MeasurementFlag::OK,
                                satellite_clock_offset: clock,
                                observations: Seq::empty(),
                            },
                        ),
                    ),
                    station: None,
                    obs_ptr: 0,
                },
            ),
        }
    } else if st.cur is Some {
        let key = st.cur->Some_0.0;
        let m = st.cur->Some_0.1;
        if line.len() > 0 && line[0] == 68 {
            if line.len() < 3 {
                Err(ParsingError::StationFormat)
            } else {
                let code_t = crate::text::spec_trim(line.subrange(1, 3));
                if !(crate::text::is_uint_text(code_t) && crate::text::uint_text_val(code_t)
                    <= 65535) {
                    Err(ParsingError::StationFormat)
                } else {
                    let found = crate::header::spec_find_station(
                        h.ground_stations,
                        crate::text::uint_text_val(code_t) as u16,
                    );
                    match found {
                        Some(stv) => {
                            let applied = spec_apply_cells(m, stv, h.observables, 0, line, 3);
                            Ok(
                                RecordParseState {
                                    cur: Some((key, applied.0)),
                                    station: Some(stv),
                                    obs_ptr: applied.1,
                                    ..st
                                },
                            )
                        },
                        None => Ok(RecordParseState { station: None, obs_ptr: 0, ..st }),
                    }
                }
            }
        } else {
            match st.station {
                Some(stv) => {
                    let applied = spec_apply_cells(m, stv, h.observables, st.obs_ptr, line, 3);
                    Ok(RecordParseState { cur: Some((key, applied.0)), obs_ptr: applied.1, ..st })
                },
                None => Ok(st),
            }
        }
    } else {
        Ok(st)
    }
}

/// The parser state after the lines from `i` on.
pub open spec fn spec_parse_record_loop(
    h: HeaderView,
    lines: Seq<Seq<u8>>,
    i: int,
    st: RecordParseState,
) -> Result<RecordParseState, ParsingError>
    decreases lines.len() - i,
{
    if i < 0 || i >= lines.len() {
        Ok(st)
    } else {
        match spec_record_step(h, st, lines[i]) {
            Err(e) => Err(e),
            Ok(st2) => spec_parse_record_loop(h, lines, i + 1, st2),
        }
    }
}

/// The record denoted by the lines from `start` on: the line fold,
/// with the last open epoch block closed at the end of the stream.
pub open spec fn spec_parse_record(h: HeaderView, lines: Seq<Seq<u8>>, start: int) -> Result<
    RecordView,
    ParsingError,
> {
    match spec_parse_record_loop(h, lines, start, spec_record_state_init()) {
        Err(e) => Err(e),
        Ok(st) => Ok(
            RecordView {
                comments: st.comments,
                measurements: match st.cur {
                    Some((k, m)) => spec_insert_block(st.measurements, k, m),
                    None => st.measurements,
                },
            },
        ),
    }
}

/// Strict chronological comparison of two valid keys.
fn key_lt(a: &Key, b: &Key) -> (r: bool)
    requires
        a.epoch.valid(),
        b.epoch.valid(),
    ensures
        r == spec_key_lt(*a, *b),
{
    let an: i128 = a.epoch.total_nanos();
    let bn: i128 = b.epoch.total_nanos();
    if an < bn {
        true
    } else if an == bn {
        a.flag.rank() < b.flag.rank()
    } else {
        false
    }
}

/// Inserts one epoch block at its chronological place; a block whose
/// key shares the instant and flag of an existing entry merges its
/// observations into that entry.
#[verifier::rlimit(100)]
fn insert_block(ms: &mut Vec<(Key, Measurements)>, key: Key, m: Measurements)
    requires
        key.epoch.valid(),
        key.epoch.time_scale == TimeScale::TAI,
        spec_meas_wf(m@),
        spec_record_sorted(Seq::new(old(ms)@.len(), |i: int| (old(ms)@[i].0, old(ms)@[i].1@))),
        forall|k: int|
            0 <= k < old(ms)@.len() ==> ((#[trigger] old(ms)@[k]).0.epoch.valid()
                && old(ms)@[k].0.epoch.time_scale == TimeScale::TAI && spec_meas_wf(
                old(ms)@[k].1@,
            )),
    ensures
        Seq::new(final(ms)@.len(), |i: int| (final(ms)@[i].0, final(ms)@[i].1@))
            == spec_insert_block(
            Seq::new(old(ms)@.len(), |i: int| (old(ms)@[i].0, old(ms)@[i].1@)),
            key,
            m@,
        ),
        spec_record_sorted(
            Seq::new(final(ms)@.len(), |i: int| (final(ms)@[i].0, final(ms)@[i].1@)),
        ),
        forall|k: int|
            0 <= k < final(ms)@.len() ==> ((#[trigger] final(ms)@[k]).0.epoch.valid()
                && final(ms)@[k].0.epoch.time_scale == TimeScale::TAI && spec_meas_wf(
                final(ms)@[k].1@,
            )),
{
    let ghost msv0 = Seq::new(ms@.len(), |i: int| (ms@[i].0, ms@[i].1@));
    let n: usize = ms.len();
    let mut p: usize = n;
    while p > 0 && key_lt(&key, &ms[p - 1].0)
        invariant
            0 <= p <= n,
            n == ms@.len(),
            ms@ == old(ms)@,
            key.epoch.valid(),
            forall|k: int|
                0 <= k < ms@.len() ==> ((#[trigger] ms@[k]).0.epoch.valid()
                    && ms@[k].0.epoch.time_scale == TimeScale::TAI && spec_meas_wf(ms@[k].1@)),
            forall|q: int| p <= q < n ==> spec_key_lt(key, (#[trigger] ms@[q]).0),
        decreases p,
    {
        p = p - 1;
    }
    if p > 0 {
        let same: bool = !key_lt(&ms[p - 1].0, &key);
        if same {
            // same instant and flag: merge the observations
            let nobs: usize = m.observations.len();
            let mut w: usize = 0;
            while w < nobs
                invariant
                    0 <= w <= nobs,
                    nobs == m.observations@.len(),
                    spec_meas_wf(m@),
                    0 < p <= ms@.len(),
                    ms@.len() == old(ms)@.len(),
                    forall|k: int| 0 <= k < ms@.len() && k != p - 1 ==> ms@[k] == old(ms)@[k],
                    (#[trigger] ms@[p - 1]).0 == old(ms)@[p - 1].0,
                    ms@[p - 1].1@ == spec_merge_obs(msv0[p - 1].1, m@.observations, w as int),
                    msv0 == Seq::new(old(ms)@.len(), |i: int| (old(ms)@[i].0, old(ms)@[i].1@)),
                    spec_meas_wf(ms@[p - 1].1@),
                decreases nobs - w,
            {
                let (okey, obs): (ObservationKey, Observation) = {
                    let e: &(ObservationKey, Observation) = &m.observations[w];
                    (
                        ObservationKey {
                            station: e.0.station.duplicate(),
                            observable: e.0.observable,
                        },
                        e.1,
                    )
                };
                proof {
                    assert(m@.observations[w as int].1.value.wf());
                    assert(m@.observations[w as int].0.station.domes.wf());
                    assert(okey@ == m@.observations[w as int].0);
                }
                let ghost oldobs = ms@[p - 1].1@.observations;
                let ghost oldmv = ms@[p - 1].1@;
                let target: &mut (Key, Measurements) = vstd::std_specs::vec::vec_index_mut(
                    ms,
                    p - 1,
                );
                target.1.add_observation(okey, obs);
                proof {
                    let newobs = ms@[p - 1].1@.observations;
                    assert(okey@.station.domes.wf());
                    assert(obs.value.wf());
                    lemma_find_obs_range(oldobs, okey@);
                    assert(ms@[p - 1].1@ =~~= spec_add_observation(oldmv, okey@, obs));
                    assert(ms@[p - 1].1@ == spec_merge_obs(
                        msv0[p - 1].1,
                        m@.observations,
                        w + 1,
                    ));
                    assert forall|j: int|
                        0 <= j < newobs.len() implies (#[trigger] newobs[j]).1.value.wf()
                            && newobs[j].0.station.domes.wf() by {
                        match spec_find_obs(oldobs, okey@) {
                            Some(fi) => {
                                assert(newobs == oldobs.update(fi, (okey@, obs)));
                                if j != fi {
                                    assert(newobs[j] == oldobs[j]);
                                }
                            },
                            None => {
                                assert(newobs == oldobs.push((okey@, obs)));
                                if j < oldobs.len() {
                                    assert(newobs[j] == oldobs[j]);
                                }
                            },
                        }
                    }
                }
                w = w + 1;
            }
            proof {
                let msv = Seq::new(ms@.len(), |i: int| (ms@[i].0, ms@[i].1@));
                lemma_insert_block_split(msv0, key, m@, p as int);
                assert(msv =~= msv0.update(
                    p - 1,
                    (
                        msv0[p - 1].0,
                        spec_merge_obs(msv0[p - 1].1, m@.observations, m@.observations.len() as int),
                    ),
                ));
                assert forall|i: int, j: int|
                    0 <= i < j < msv.len() implies spec_key_lt(
                    (#[trigger] msv[i]).0,
                    (#[trigger] msv[j]).0,
                ) by {
                    assert(msv0[i].0 == msv[i].0);
                    assert(msv0[j].0 == msv[j].0);
                    assert(spec_key_lt(msv0[i].0, msv0[j].0));
                }
            }
            return ;
        }
    }
    // strictly between the neighbours: insert a new entry
    proof {
        if p > 0 {
            assert(spec_key_lt(ms@[p - 1].0, key));
        }
    }
    ms.insert(p, (key, m));
    proof {
        let msv = Seq::new(ms@.len(), |i: int| (ms@[i].0, ms@[i].1@));
        lemma_insert_block_split(msv0, key, m@, p as int);
        assert(msv =~= msv0.insert(p as int, (key, m@)));
        assert forall|i: int, j: int|
            0 <= i < j < msv.len() implies spec_key_lt((#[trigger] msv[i]).0, (#[trigger] msv[j]).0)
            by {
            assert(ms@ == old(ms)@.insert(p as int, (key, m)));
            if i < p && j < p {
                assert(msv[i].0 == msv0[i].0 && msv[j].0 == msv0[j].0);
            } else if i < p && j == p {
                assert(msv[i].0 == msv0[i].0 && msv[j].0 == key);
                if p > 0 {
                    if i < p - 1 {
                        assert(spec_key_lt(msv0[i].0, msv0[p - 1].0));
                    }
                    lemma_key_lt_trans(msv0[i].0, msv0[p - 1].0, key);
                }
            } else if i < p && j > p {
                assert(msv[i].0 == msv0[i].0 && msv[j].0 == msv0[j - 1].0);
                assert(spec_key_lt(key, msv0[j - 1].0));
                if p > 0 {
                    if i < p - 1 {
                        assert(spec_key_lt(msv0[i].0, msv0[p - 1].0));
                    }
                    lemma_key_lt_trans(msv0[i].0, msv0[p - 1].0, key);
                }
                lemma_key_lt_trans(msv0[i].0, key, msv0[j - 1].0);
            } else if i == p {
                assert(msv[i].0 == key && msv[j].0 == msv0[j - 1].0);
                assert(spec_key_lt(key, msv0[j - 1].0));
            } else {
                assert(msv[i].0 == msv0[i - 1].0 && msv[j].0 == msv0[j - 1].0);
            }
        }
    }
}

/// The backward scan position determines what the insertion does:
/// at an equal slot the block's observations merge in place, else a
/// new entry appears at the scan position.
proof fn lemma_insert_block_split(
    ms: Seq<(Key, MeasurementsView)>,
    key: Key,
    m: MeasurementsView,
    p: int,
)
    requires
        0 <= p <= ms.len(),
        forall|q: int| p <= q < ms.len() ==> spec_key_lt(key, (#[trigger] ms[q]).0),
        p > 0 ==> !spec_key_lt(key, ms[p - 1].0),
    ensures
        p > 0 && !spec_key_lt(ms[p - 1].0, key) ==> spec_insert_block(ms, key, m) == ms.update(
            p - 1,
            (ms[p - 1].0, spec_merge_obs(ms[p - 1].1, m.observations, m.observations.len() as int)),
        ),
        !(p > 0 && !spec_key_lt(ms[p - 1].0, key)) ==> spec_insert_block(ms, key, m) == ms.insert(
            p,
            (key, m),
        ),
    decreases ms.len(),
{
    if ms.len() == 0 {
        assert(spec_insert_block(ms, key, m) =~= ms.insert(0, (key, m)));
    } else if p < ms.len() {
        // the scan walked past the last entry
        assert(spec_key_lt(key, ms.last().0));
        let pre = ms.drop_last();
        assert forall|q: int| p <= q < pre.len() implies spec_key_lt(key, (#[trigger] pre[q]).0)
            by {
            assert(pre[q] == ms[q]);
        }
        if p > 0 {
            assert(pre[p - 1] == ms[p - 1]);
        }
        lemma_insert_block_split(pre, key, m, p);
        if p > 0 && !spec_key_lt(ms[p - 1].0, key) {
            assert(spec_insert_block(pre, key, m).push(ms.last()) =~= ms.update(
                p - 1,
                (
                    ms[p - 1].0,
                    spec_merge_obs(ms[p - 1].1, m.observations, m.observations.len() as int),
                ),
            ));
        } else {
            assert(spec_insert_block(pre, key, m).push(ms.last()) =~= ms.insert(p, (key, m)));
        }
    } else {
        // the scan stopped at the end: the key is not below the last
        assert(!spec_key_lt(key, ms.last().0));
        if spec_key_lt(ms.last().0, key) {
            assert(spec_insert_block(ms, key, m) =~= ms.insert(p, (key, m)));
        } else {
            assert(spec_insert_block(ms, key, m) =~= ms.update(
                p - 1,
                (
                    ms[p - 1].0,
                    spec_merge_obs(ms[p - 1].1, m.observations, m.observations.len() as int),
                ),
            ));
        }
    }
}

/// Transitivity of the chronological key order.
proof fn lemma_key_lt_trans(a: Key, b: Key, c: Key)
    requires
        spec_key_lt(a, b) || a == b,
        spec_key_lt(b, c),
    ensures
        spec_key_lt(a, c),
{
}

/// A resolved station comes from the roster.
proof fn lemma_find_station_mem(sts: Seq<GroundStationView>, code: u16)
    ensures
        crate::header::spec_find_station(sts, code) matches Some(v) ==> exists|i: int|
            0 <= i < sts.len() && sts[i] == v,
    decreases sts.len(),
{
    if sts.len() > 0 && sts[0].code != code {
        lemma_find_station_mem(sts.subrange(1, sts.len() as int), code);
        if crate::header::spec_find_station(sts, code) is Some {
            let v = crate::header::spec_find_station(sts, code)->Some_0;
            let s1 = sts.subrange(1, sts.len() as int);
            assert(crate::header::spec_find_station(s1, code) == Some(v));
            let i = choose|q: int| 0 <= q < s1.len() && s1[q] == v;
            assert(sts[i + 1] == v);
        }
    }
}

impl Record {
    /// Parses the record section from the file's lines, from the
    /// first line after the header on: exactly the record that
    /// [`spec_parse_record`] denotes, which is chronologically
    /// sorted with valid TAI keys and well-formed measurements.
    #[verifier::rlimit(100)]
    pub fn parse(header: &Header, lines: &Vec<Vec<u8>>, start: usize) -> (r: Result<
        Record,
        ParsingError,
    >)
        requires
            forall|i: int|
                0 <= i < header@.ground_stations.len() ==> (
                #[trigger] header@.ground_stations[i]).domes.wf(),
        ensures
            match r {
                Ok(rec) => spec_parse_record(
                    header@,
                    crate::lines::views_of(lines@),
                    start as int,
                ) == Ok::<RecordView, ParsingError>(rec@) && spec_record_wf(rec@),
                Err(e) => spec_parse_record(
                    header@,
                    crate::lines::views_of(lines@),
                    start as int,
                ) == Err::<RecordView, ParsingError>(e),
            },
    {
        let ghost h = header@;
        let ghost lv = crate::lines::views_of(lines@);
        let n: usize = lines.len();
        let mut rec: Record = Record::new();
        let mut cur_key: Option<Key> = None;
        let mut cur_m: Measurements = Measurements::default();
        let mut station: Option<GroundStation> = None;
        let mut obs_ptr: usize = 0;
        let mut i: usize = if start > n {
            n
        } else {
            start
        };
        proof {
            assert(rec@.measurements.len() == 0);
            assert(rec.measurements@.len() == 0);
            assert(spec_state_of(rec@, cur_key, cur_m@, spec_opt_station_view(station), obs_ptr as int)
                =~~= spec_record_state_init());
            if start > n {
                assert(spec_parse_record_loop(h, lv, start as int, spec_record_state_init())
                    == Ok::<RecordParseState, ParsingError>(spec_record_state_init()));
                assert(spec_parse_record_loop(h, lv, n as int, spec_record_state_init())
                    == Ok::<RecordParseState, ParsingError>(spec_record_state_init()));
            }
        }
        let mut comment_tag: Vec<u8> = Vec::new();
        comment_tag.push(67);
        comment_tag.push(79);
        comment_tag.push(77);
        comment_tag.push(77);
        comment_tag.push(69);
        comment_tag.push(78);
        comment_tag.push(84);
        proof {
            assert(comment_tag@ =~= crate::lines::spec_comment_marker());
        }
        while i < n
            invariant
                0 <= i <= n,
                n == lines@.len(),
                h == header@,
                lv == crate::lines::views_of(lines@),
                lv.len() == n,
                forall|q: int| 0 <= q < n ==> #[trigger] lv[q] == lines@[q]@,
                comment_tag@ == crate::lines::spec_comment_marker(),
                forall|q: int|
                    0 <= q < header@.ground_stations.len() ==> (
                    #[trigger] header@.ground_stations[q]).domes.wf(),
                obs_ptr <= header.observables@.len(),
                spec_parse_record_loop(h, lv, start as int, spec_record_state_init())
                    == spec_parse_record_loop(
                    h,
                    lv,
                    i as int,
                    spec_state_of(rec@, cur_key, cur_m@, spec_opt_station_view(station), obs_ptr as int),
                ),
                spec_record_sorted(rec@.measurements),
                forall|k: int|
                    0 <= k < rec@.measurements.len() ==> ((
                    #[trigger] rec@.measurements[k]).0.epoch.valid()
                        && rec@.measurements[k].0.epoch.time_scale == TimeScale::TAI
                        && spec_meas_wf(rec@.measurements[k].1)),
                cur_key matches Some(k) ==> k.epoch.valid() && k.epoch.time_scale
                    == TimeScale::TAI,
                spec_meas_wf(cur_m@),
                station matches Some(st) ==> st@.domes.wf(),
            decreases n - i,
        {
            let ghost st0 = spec_state_of(rec@, cur_key, cur_m@, spec_opt_station_view(station), obs_ptr as int);
            let line: &[u8] = lines[i].as_slice();
            let llen: usize = line.len();
            proof {
                assert(line@ == lv[i as int]);
            }
            if llen > 60 && crate::text::contains_bytes(line, comment_tag.as_slice()) {
                rec.comments.push(vstd::slice::slice_to_vec(trim_end_exec(&line[0..60])));
                proof {
                    assert(line@.subrange(0, 60) == lv[i as int].subrange(0, 60));
                    let st1 = spec_state_of(rec@, cur_key, cur_m@, spec_opt_station_view(station), obs_ptr as int);
                    assert(rec@.comments =~= st0.comments.push(
                        crate::text::spec_trim_end(lv[i as int].subrange(0, 60)),
                    ));
                    assert(st1 =~~= (RecordParseState {
                        comments: st0.comments.push(
                            crate::text::spec_trim_end(lv[i as int].subrange(0, 60)),
                        ),
                        ..st0
                    }));
                    assert(spec_record_step(h, st0, lv[i as int]) == Ok::<
                        RecordParseState,
                        ParsingError,
                    >(st1));
                }
                i = i + 1;
                continue;
            }
            if llen > 0 && line[0] == 62 {
                // a new epoch block: close the pending one
                let ghost flushed = match st0.cur {
                    Some((k, m)) => spec_insert_block(st0.measurements, k, m),
                    None => st0.measurements,
                };
                if let Some(k) = cur_key {
                proof {
                    assert(rec@.measurements == Seq::new(
                        rec.measurements@.len(),
                        |w: int| (rec.measurements@[w].0, rec.measurements@[w].1@),
                    ));
                    assert forall|k2: int|
                        0 <= k2 < rec.measurements@.len() implies ((
                    #[trigger] rec.measurements@[k2]).0.epoch.valid()
                        && rec.measurements@[k2].0.epoch.time_scale == TimeScale::TAI
                        && spec_meas_wf(rec.measurements@[k2].1@)) by {
                        assert(rec@.measurements[k2] == (
                            rec.measurements@[k2].0,
                            rec.measurements@[k2].1@,
                        ));
                    }
                }
                    insert_block(&mut rec.measurements, k, cur_m);
                    cur_m = Measurements::default();
                    cur_key = None;
                }
                proof {
                    assert(rec@.measurements == flushed);
                }
                station = None;
                obs_ptr = 0;
                match parse_epoch_line(line) {
                    Ok((k, clock)) => {
                        cur_key = Some(k);
                        cur_m = Measurements::default();
                        cur_m.satellite_clock_offset = clock;
                        proof {
                            assert(spec_meas_wf(cur_m@));
                            let st1 = spec_state_of(
                                rec@,
                                cur_key,
                                cur_m@,
                                spec_opt_station_view(station),
                                obs_ptr as int,
                            );
                            assert(cur_m@ =~~= (MeasurementsView {
                                flag: MeasurementFlag::OK,
                                satellite_clock_offset: clock,
                                observations: Seq::empty(),
                            }));
                            assert(st1 =~~= (RecordParseState {
                                comments: st0.comments,
                                measurements: flushed,
                                cur: Some((k, cur_m@)),
                                station: None,
                                obs_ptr: 0,
                            }));
                            assert(spec_record_step(h, st0, lv[i as int]) == Ok::<
                                RecordParseState,
                                ParsingError,
                            >(st1));
                        }
                    },
                    Err(e) => {
                        proof {
                            assert(spec_record_step(h, st0, lv[i as int]) == Err::<
                                RecordParseState,
                                ParsingError,
                            >(e));
                            assert(spec_parse_record_loop(h, lv, i as int, st0) == Err::<
                                RecordParseState,
                                ParsingError,
                            >(e));
                        }
                        return Err(e);
                    },
                }
                i = i + 1;
                continue;
            }
            if cur_key.is_some() {
                let ghost key0 = cur_key->Some_0;
                let mut offset: usize = 3;
                let ghost ptr_in: int;
                if llen > 0 && line[0] == 68 {
                    // a new station sub-block
                    obs_ptr = 0;
                    station = None;
                    if llen < 3 {
                        proof {
                            assert(spec_record_step(h, st0, lv[i as int]) == Err::<
                                RecordParseState,
                                ParsingError,
                            >(ParsingError::StationFormat));
                            assert(spec_parse_record_loop(h, lv, i as int, st0) == Err::<
                                RecordParseState,
                                ParsingError,
                            >(ParsingError::StationFormat));
                        }
                        return Err(ParsingError::StationFormat);
                    }
                    let code: u16 = match crate::text::parse_u16(trim(&line[1..3])) {
                        Some(v) => v,
                        None => {
                            proof {
                                assert(spec_record_step(h, st0, lv[i as int]) == Err::<
                                    RecordParseState,
                                    ParsingError,
                                >(ParsingError::StationFormat));
                                assert(spec_parse_record_loop(h, lv, i as int, st0) == Err::<
                                    RecordParseState,
                                    ParsingError,
                                >(ParsingError::StationFormat));
                            }
                            return Err(ParsingError::StationFormat);
                        },
                    };
                    match header.ground_station(code) {
                        Some(st) => {
                            proof {
                                lemma_find_station_mem(header@.ground_stations, code);
                            }
                            station = Some(st);
                        },
                        None => {
                            // unknown beacon: the sub-block is skipped
                        },
                    }
                    proof {
                        ptr_in = 0;
                    }
                } else {
                    proof {
                        ptr_in = st0.obs_ptr;
                    }
                }
                let ghost m_in = cur_m@;
                let ghost stv_opt = spec_opt_station_view(station);
                if let Some(st) = &station {
                    let nobs: usize = header.observables.len();
                    proof {
                        assert(spec_apply_cells(m_in, st@, h.observables, ptr_in, lv[i as int], 3)
                            == spec_apply_cells(
                            cur_m@,
                            st@,
                            h.observables,
                            obs_ptr as int,
                            lv[i as int],
                            offset as int,
                        ));
                    }
                    while obs_ptr < nobs && llen >= 14 && offset <= llen - 14
                        invariant
                            0 <= obs_ptr <= nobs,
                            3 <= offset,
                            nobs == header.observables@.len(),
                            h == header@,
                            h.observables == header.observables@,
                            llen == line@.len(),
                            line@ == lv[i as int],
                            0 <= i < lv.len(),
                            st@.domes.wf(),
                            spec_meas_wf(cur_m@),
                            spec_apply_cells(m_in, st@, h.observables, ptr_in, lv[i as int], 3)
                                == spec_apply_cells(
                                cur_m@,
                                st@,
                                h.observables,
                                obs_ptr as int,
                                lv[i as int],
                                offset as int,
                            ),
                        decreases nobs - obs_ptr,
                    {
                        let ghost m_pre = cur_m@;
                        let ghost off_pre = offset as int;
                        let ghost ptr_pre = obs_ptr as int;
                        let cell: &[u8] = trim(&line[offset..offset + 14]);
                        proof {
                            assert(cell@ == crate::text::spec_trim(
                                lv[i as int].subrange(off_pre, off_pre + 14),
                            ));
                        }
                        if cell.len() > 0 {
                            match Decimal::parse(cell) {
                                Some(v) => {
                                    let mut obs = Observation { snr: None, value: v };
                                    let snr_pos: usize = offset + 14;
                                    if snr_pos < llen {
                                        match SNR::parse(&line[snr_pos..snr_pos + 1]) {
                                            Ok(s) => {
                                                obs.snr = Some(s);
                                            },
                                            Err(_) => {},
                                        }
                                    }
                                    let okey = ObservationKey {
                                        station: st.duplicate(),
                                        observable: header.observables[obs_ptr],
                                    };
                                    let ghost oldobs = cur_m@.observations;
                                    cur_m.add_observation(okey, obs);
                                    proof {
                                        let newobs = cur_m@.observations;
                                        assert(okey@.station.domes.wf());
                                        assert(obs.value.wf());
                                        lemma_find_obs_range(oldobs, okey@);
                                        assert(okey@ =~= (ObservationKeyView {
                                            station: st@,
                                            observable: h.observables[ptr_pre],
                                        }));
                                        assert(cur_m@ =~~= spec_add_observation(
                                            m_pre,
                                            okey@,
                                            obs,
                                        ));
                                        assert forall|j: int|
                                            0 <= j < newobs.len() implies (
                                        #[trigger] newobs[j]).1.value.wf()
                                            && newobs[j].0.station.domes.wf() by {
                                            match spec_find_obs(oldobs, okey@) {
                                                Some(fi) => {
                                                    assert(newobs == oldobs.update(
                                                        fi,
                                                        (okey@, obs),
                                                    ));
                                                    if j != fi {
                                                        assert(newobs[j] == oldobs[j]);
                                                    }
                                                },
                                                None => {
                                                    assert(newobs == oldobs.push((okey@, obs)));
                                                    if j < oldobs.len() {
                                                        assert(newobs[j] == oldobs[j]);
                                                    }
                                                },
                                            }
                                        }
                                    }
                                },
                                None => {
                                    // an unreadable cell is read as blank
                                },
                            }
                        }
                        obs_ptr = obs_ptr + 1;
                        if llen >= 16 && offset <= llen - 16 {
                            offset = offset + 16;
                        } else {
                            offset = llen;
                        }
                        proof {
                            lemma_apply_cells_step(
                                m_pre,
                                cur_m@,
                                st@,
                                h.observables,
                                ptr_pre,
                                lv[i as int],
                                off_pre,
                                offset as int,
                            );
                        }
                    }
                    proof {
                        // the exec loop exit matches the fold's stop guard
                        assert(spec_apply_cells(
                            cur_m@,
                            st@,
                            h.observables,
                            obs_ptr as int,
                            lv[i as int],
                            offset as int,
                        ) == (cur_m@, obs_ptr as int));
                        assert(spec_apply_cells(m_in, st@, h.observables, ptr_in, lv[i as int], 3)
                            == (cur_m@, obs_ptr as int));
                    }
                }
                proof {
                    let st1 = spec_state_of(rec@, cur_key, cur_m@, spec_opt_station_view(station), obs_ptr as int);
                    assert(spec_record_step(h, st0, lv[i as int]) == Ok::<
                        RecordParseState,
                        ParsingError,
                    >(st1)) by {
                        assert(st0.cur == Some((key0, m_in)));
                        if lv[i as int].len() > 0 && lv[i as int][0] == 68 {
                            let code_t = crate::text::spec_trim(lv[i as int].subrange(1, 3));
                            match crate::header::spec_find_station(
                                h.ground_stations,
                                crate::text::uint_text_val(code_t) as u16,
                            ) {
                                Some(stv) => {
                                    assert(spec_opt_station_view(station) == Some(stv));
                                    assert(st1 =~~= (RecordParseState {
                                        cur: Some(
                                            (
                                                key0,
                                                spec_apply_cells(
                                                    m_in,
                                                    stv,
                                                    h.observables,
                                                    0,
                                                    lv[i as int],
                                                    3,
                                                ).0,
                                            ),
                                        ),
                                        station: Some(stv),
                                        obs_ptr: spec_apply_cells(
                                            m_in,
                                            stv,
                                            h.observables,
                                            0,
                                            lv[i as int],
                                            3,
                                        ).1,
                                        ..st0
                                    }));
                                },
                                None => {
                                    assert(st1 =~~= (RecordParseState {
                                        station: None,
                                        obs_ptr: 0,
                                        ..st0
                                    }));
                                },
                            }
                        } else {
                            match st0.station {
                                Some(stv) => {
                                    assert(st1 =~~= (RecordParseState {
                                        cur: Some(
                                            (
                                                key0,
                                                spec_apply_cells(
                                                    m_in,
                                                    stv,
                                                    h.observables,
                                                    st0.obs_ptr,
                                                    lv[i as int],
                                                    3,
                                                ).0,
                                            ),
                                        ),
                                        obs_ptr: spec_apply_cells(
                                            m_in,
                                            stv,
                                            h.observables,
                                            st0.obs_ptr,
                                            lv[i as int],
                                            3,
                                        ).1,
                                        ..st0
                                    }));
                                },
                                None => {
                                    assert(st1 =~~= st0);
                                },
                            }
                        }
                    }
                }
            } else {
                proof {
                    let st1 = spec_state_of(rec@, cur_key, cur_m@, spec_opt_station_view(station), obs_ptr as int);
                    assert(st1 =~~= st0);
                    assert(spec_record_step(h, st0, lv[i as int]) == Ok::<
                        RecordParseState,
                        ParsingError,
                    >(st1));
                }
            }
            i = i + 1;
        }
        let ghost st_end = spec_state_of(rec@, cur_key, cur_m@, spec_opt_station_view(station), obs_ptr as int);
        if let Some(k) = cur_key {
            proof {
                assert(rec@.measurements == Seq::new(
                    rec.measurements@.len(),
                    |w: int| (rec.measurements@[w].0, rec.measurements@[w].1@),
                ));
                assert forall|k2: int|
                    0 <= k2 < rec.measurements@.len() implies ((
                #[trigger] rec.measurements@[k2]).0.epoch.valid()
                    && rec.measurements@[k2].0.epoch.time_scale == TimeScale::TAI
                    && spec_meas_wf(rec.measurements@[k2].1@)) by {
                    assert(rec@.measurements[k2] == (
                        rec.measurements@[k2].0,
                        rec.measurements@[k2].1@,
                    ));
                }
            }
            insert_block(&mut rec.measurements, k, cur_m);
        }
        proof {
            assert(spec_parse_record_loop(h, lv, start as int, spec_record_state_init()) == Ok::<
                RecordParseState,
                ParsingError,
            >(st_end));
            assert(rec@.measurements == (match st_end.cur {
                Some((k, m)) => spec_insert_block(st_end.measurements, k, m),
                None => st_end.measurements,
            }));
            assert(spec_parse_record(h, lv, start as int) == Ok::<RecordView, ParsingError>(
                rec@,
            ));
        }
        Ok(rec)
    }
}

/// The view of an optional station.
pub open spec fn spec_opt_station_view(o: Option<GroundStation>) -> Option<GroundStationView> {
    match o {
        Some(st) => Some(st@),
        None => None,
    }
}

/// The spec-level parser state of the executable parser's locals.
pub open spec fn spec_state_of(
    rv: RecordView,
    cur_key: Option<Key>,
    cur_m: MeasurementsView,
    station: Option<GroundStationView>,
    obs_ptr: int,
) -> RecordParseState {
    RecordParseState {
        comments: rv.comments,
        measurements: rv.measurements,
        cur: match cur_key {
            Some(k) => Some((k, cur_m)),
            None => None,
        },
        station,
        obs_ptr,
    }
}

/// One executable cell iteration advances the fold by one step.
proof fn lemma_apply_cells_step(
    m_pre: MeasurementsView,
    m_post: MeasurementsView,
    st: GroundStationView,
    observables: Seq<Observable>,
    ptr: int,
    line: Seq<u8>,
    off: int,
    off_next: int,
)
    requires
        0 <= ptr < observables.len(),
        0 <= off,
        off + 14 <= line.len(),
        off_next == if off + 16 <= line.len() {
            off + 16
        } else {
            line.len() as int
        },
        ({
            let cell = crate::text::spec_trim(line.subrange(off, off + 14));
            m_post == (if cell.len() > 0 {
                match crate::numeric::spec_parse_decimal(cell) {
                    Some((mv, ev)) => {
                        if -1000000000000000 <= mv <= 1000000000000000 && -19 <= ev <= 19 {
                            let snr = if off + 15 <= line.len() {
                                match crate::snr::spec_parse_snr(
                                    crate::text::spec_trim(line.subrange(off + 14, off + 15)),
                                ) {
                                    Ok(s) => Some(s),
                                    Err(_) => None,
                                }
                            } else {
                                None
                            };
                            spec_add_observation(
                                m_pre,
                                ObservationKeyView { station: st, observable: observables[ptr] },
                                Observation {
                                    snr,
                                    value: crate::numeric::Decimal {
                                        mantissa: mv as i64,
                                        exponent: ev as i32,
                                    },
                                },
                            )
                        } else {
                            m_pre
                        }
                    },
                    None => m_pre,
                }
            } else {
                m_pre
            })
        }),
    ensures
        spec_apply_cells(m_pre, st, observables, ptr, line, off) == spec_apply_cells(
            m_post,
            st,
            observables,
            ptr + 1,
            line,
            off_next,
        ),
{
}

/// Parses the epoch header line of a block: the instant in TAI, the
/// epoch flag, and the receiver clock offset with its extrapolation
/// mark.
fn parse_epoch_line(line: &[u8]) -> (r: Result<(Key, Option<ClockOffset>), ParsingError>)
    requires
        line@.len() > 0,
    ensures
        r == spec_parse_epoch_line(line@),
        r matches Ok((k, c)) ==> k.epoch.valid() && k.epoch.time_scale == TimeScale::TAI && (
        c matches Some(co) ==> co.offset.femtoseconds > i128::MIN),
{
    let llen: usize = line.len();
    if llen < 34 {
        return Err(ParsingError::EpochFormat);
    }
    let epoch: Epoch = match crate::epoch::parse_in_timescale(&line[2..34], TimeScale::TAI) {
        Ok(e) => e,
        Err(e) => {
            return Err(e);
        },
    };
    proof {
        assert(epoch.valid());
    }
    let flag: EpochFlag = match crate::flags::EpochFlag::parse(trim(&line[31..34])) {
        Ok(f) => f,
        Err(e) => {
            return Err(e);
        },
    };
    if llen < 52 {
        return Err(ParsingError::ClockOffset);
    }
    let t: &[u8] = trim(&line[38..52]);
    let d: Decimal = match Decimal::parse(t) {
        Some(d) => d,
        None => {
            return Err(ParsingError::ClockOffset);
        },
    };
    let offset: Duration = match Duration::from_decimal_seconds(d) {
        Some(dur) => dur,
        None => {
            return Err(ParsingError::ClockOffset);
        },
    };
    if offset.femtoseconds == i128::MIN {
        return Err(ParsingError::ClockOffset);
    }
    let mut extrapolated: bool = false;
    if llen > 52 {
        let tail: &[u8] = trim(&line[52..llen]);
        if tail.len() == 1 && tail[0] == 49 {
            proof {
                assert(tail@ =~= seq![49u8]);
            }
            extrapolated = true;
        } else {
            proof {
                assert(tail@ != seq![49u8]) by {
                    if tail@ == seq![49u8] {
                        assert(tail@.len() == 1 && tail@[0] == 49);
                    }
                }
            }
        }
    }
    let clock = if extrapolated {
        ClockOffset::from_extrapolated_offset(offset)
    } else {
        ClockOffset::from_measured_offset(offset)
    };
    proof {
        assert(crate::duration::spec_fs_of_scaled(d.mantissa as int, d.exponent + 15)
            == offset.femtoseconds as int);
    }
    Ok((Key { epoch, flag }, Some(clock)))
}

/// ASCII whitespace removed from the end only, as record comments
/// are stored.
fn trim_end_exec(s: &[u8]) -> (r: &[u8])
    ensures
        r@ == crate::text::spec_trim_end(s@),
{
    let len: usize = s.len();
    let mut b: usize = len;
    while b > 0 && crate::text::is_ws(s[b - 1])
        invariant
            0 <= b <= len,
            len == s@.len(),
            forall|i: int| b <= i < len ==> crate::text::spec_is_ws(#[trigger] s@[i]),
        decreases b,
    {
        b = b - 1;
    }
    proof {
        crate::text::lemma_trim_end_char(s@, b as int);
    }
    &s[0..b]
}


/// Sorted insertion of a station code, keeping codes distinct.
pub open spec fn spec_insert_code(codes: Seq<u16>, c: u16) -> Seq<u16>
    decreases codes.len(),
{
    if codes.len() == 0 {
        seq![c]
    } else if c < codes[0] {
        seq![c] + codes
    } else if c == codes[0] {
        codes
    } else {
        seq![codes[0]] + spec_insert_code(codes.subrange(1, codes.len() as int), c)
    }
}

/// The distinct station codes of the first `i` observation slots, in
/// ascending order.
pub open spec fn spec_station_codes(
    obs: Seq<(ObservationKeyView, Observation)>,
    i: int,
) -> Seq<u16>
    decreases i,
{
    if i <= 0 {
        Seq::empty()
    } else {
        spec_insert_code(spec_station_codes(obs, i - 1), obs[i - 1].0.station.code)
    }
}

/// The first observation recorded for a station code and observable.
pub open spec fn spec_find_code_obs(
    obs: Seq<(ObservationKeyView, Observation)>,
    code: u16,
    o: Observable,
) -> Option<Observation>
    decreases obs.len(),
{
    if obs.len() == 0 {
        None
    } else if obs[0].0.station.code == code && obs[0].0.observable == o {
        Some(obs[0].1)
    } else {
        spec_find_code_obs(obs.subrange(1, obs.len() as int), code, o)
    }
}

/// The cells of one station sub-block for the first `i` observables:
/// each observation in fourteen columns with three decimals plus two
/// blanks, blank cells for absent slots, a wrap after every fifth
/// cell and a newline after the last.
pub open spec fn spec_station_cells(
    m: MeasurementsView,
    code: u16,
    observables: Seq<Observable>,
    i: int,
) -> Seq<u8>
    decreases i,
{
    if i <= 0 {
        Seq::empty()
    } else {
        let cell = match spec_find_code_obs(m.observations, code, observables[i - 1]) {
            Some(obs) => crate::numeric::spec_fmt_fixed(obs.value, 3, 14) + seq![32u8, 32],
            None => Seq::new(18, |x: int| 32u8),
        };
        let suffix = if i - 1 == observables.len() - 1 {
            seq![10u8]
        } else if (i - 1) % 5 == 4 {
            seq![10u8, 32, 32, 32]
        } else {
            Seq::empty()
        };
        spec_station_cells(m, code, observables, i - 1) + cell + suffix
    }
}

/// One station sub-block: the station tag and its cells.
pub open spec fn spec_station_block(
    m: MeasurementsView,
    code: u16,
    observables: Seq<Observable>,
) -> Seq<u8> {
    seq![68u8] + crate::text::spec_pad_left(crate::text::spec_digits(code as nat), 2, 48)
        + spec_station_cells(m, code, observables, observables.len() as int)
}

/// The station sub-blocks of the first `i` codes.
pub open spec fn spec_station_blocks(
    m: MeasurementsView,
    codes: Seq<u16>,
    observables: Seq<Observable>,
    i: int,
) -> Seq<u8>
    decreases i,
{
    if i <= 0 {
        Seq::empty()
    } else {
        spec_station_blocks(m, codes, observables, i - 1) + spec_station_block(
            m,
            codes[i - 1],
            observables,
        )
    }
}

/// The epoch header line of a block: the mark, the instant at
/// nanosecond resolution, the flag, the station count, and the clock
/// offset with its extrapolation mark when present; the offset is
/// right-aligned in the fourteen columns the parser reads it from.
pub open spec fn spec_epoch_header_line(key: Key, m: MeasurementsView) -> Seq<u8> {
    let e = key.epoch;
    seq![62u8, 32] + crate::epoch::spec_format_epoch9(e) + seq![32u8, 32] + seq![
        (spec_epoch_flag_rank(key.flag) + 48) as u8,
    ]
        + crate::text::spec_pad_left(
        crate::text::spec_digits(
            spec_station_codes(m.observations, m.observations.len() as int).len() as nat,
        ),
        3,
        32,
    ) + (match m.satellite_clock_offset {
        Some(c) => seq![32u8] + crate::text::spec_pad_left(
            crate::duration::spec_fmt_seconds9(c.offset.femtoseconds as int),
            14,
            32,
        ) + seq![32u8] + seq![
            if c.extrapolated {
                49u8
            } else {
                48u8
            },
        ] + seq![10u8],
        None => seq![10u8],
    })
}

/// One epoch block: the header line, then the station sub-blocks for
/// measured and power-failure epochs (event epochs carry no body).
pub open spec fn spec_format_block(
    key: Key,
    m: MeasurementsView,
    observables: Seq<Observable>,
) -> Seq<u8> {
    let codes = spec_station_codes(m.observations, m.observations.len() as int);
    spec_epoch_header_line(key, m) + (if key.flag == EpochFlag::OK || key.flag
        == EpochFlag::PowerFailure {
        spec_station_blocks(m, codes, observables, codes.len() as int)
    } else {
        Seq::empty()
    })
}

/// The formatted record: the blocks of every epoch, in key order.
pub open spec fn spec_format_record(
    ms: Seq<(Key, MeasurementsView)>,
    observables: Seq<Observable>,
    i: int,
) -> Seq<u8>
    decreases i,
{
    if i <= 0 {
        Seq::empty()
    } else {
        spec_format_record(ms, observables, i - 1) + spec_format_block(
            ms[i - 1].0,
            ms[i - 1].1,
            observables,
        )
    }
}

/// Inserts a station code into an ascending code list.
fn insert_code(codes: &mut Vec<u16>, c: u16)
    ensures
        final(codes)@ == spec_insert_code(old(codes)@, c),
{
    let n: usize = codes.len();
    let mut p: usize = 0;
    while p < n && codes[p] < c
        invariant
            0 <= p <= n,
            n == codes@.len(),
            codes@ == old(codes)@,
            forall|q: int| 0 <= q < p ==> #[trigger] codes@[q] < c,
        decreases n - p,
    {
        p = p + 1;
    }
    if p < n && codes[p] == c {
        proof {
            lemma_insert_code_at(codes@, c, p as int);
        }
        return ;
    }
    codes.insert(p, c);
    proof {
        lemma_insert_code_at(old(codes)@, c, p as int);
    }
}

proof fn lemma_insert_code_at(codes: Seq<u16>, c: u16, p: int)
    requires
        0 <= p <= codes.len(),
        forall|q: int| 0 <= q < p ==> #[trigger] codes[q] < c,
        p < codes.len() ==> codes[p] >= c,
    ensures
        p < codes.len() && codes[p] == c ==> spec_insert_code(codes, c) == codes,
        !(p < codes.len() && codes[p] == c) ==> spec_insert_code(codes, c) == codes.insert(p, c),
    decreases p,
{
    if codes.len() == 0 {
        assert(codes.insert(0, c) =~= seq![c]);
    } else if p == 0 {
        if codes[0] == c {
        } else {
            assert(codes.insert(0, c) =~= seq![c] + codes);
        }
    } else {
        let s1 = codes.subrange(1, codes.len() as int);
        assert forall|q: int| 0 <= q < p - 1 implies #[trigger] s1[q] < c by {
            assert(s1[q] == codes[q + 1]);
        }
        lemma_insert_code_at(s1, c, p - 1);
        if p < codes.len() && codes[p] == c {
            assert(s1[p - 1] == c);
            assert(spec_insert_code(codes, c) =~= codes);
        } else {
            assert(spec_insert_code(codes, c) =~= seq![codes[0]] + s1.insert(p - 1, c));
            assert(seq![codes[0]] + s1.insert(p - 1, c) =~= codes.insert(p, c));
        }
    }
}

impl Record {
    /// Formats the record into its standard lines, against the
    /// header's observable schema.
    pub fn format(&self, header: &Header) -> (r: Vec<u8>)
        requires
            spec_record_wf(self@),
        ensures
            r@ == spec_format_record(
                self@.measurements,
                header@.observables,
                self@.measurements.len() as int,
            ),
    {
        let mut out: Vec<u8> = Vec::new();
        let n: usize = self.measurements.len();
        let mut i: usize = 0;
        while i < n
            invariant
                0 <= i <= n,
                n == self.measurements@.len(),
                spec_record_wf(self@),
                header@.observables == header.observables@,
                out@ =~= spec_format_record(
                    self@.measurements,
                    header@.observables,
                    i as int,
                ),
            decreases n - i,
        {
            proof {
                assert(self@.measurements[i as int].0 == self.measurements@[i as int].0);
                assert(self@.measurements[i as int].1 == self.measurements@[i as int].1@);
            }
            let key: Key = self.measurements[i].0;
            let m: &Measurements = &self.measurements[i].1;
            let mut block = format_block(key, m, &header.observables);
            out.append(&mut block);
            proof {
                assert(out@ =~= spec_format_record(
                    self@.measurements,
                    header@.observables,
                    i + 1,
                ));
            }
            i = i + 1;
        }
        out
    }
}

/// Formats the date and instant portion of an epoch header line.
fn fmt_epoch_date(e: &Epoch) -> (r: Vec<u8>)
    requires
        e.valid(),
    ensures
        r@ == seq![62u8, 32] + crate::epoch::spec_format_epoch9(*e),
{
    let mut out: Vec<u8> = Vec::new();
    out.push(62);
    out.push(32);
    let mut p = crate::text::pad_left(crate::text::fmt_u64(e.year as u64), 4, 48);
    out.append(&mut p);
    out.push(32);
    let mut p = crate::text::pad_left(crate::text::fmt_u64(e.month as u64), 2, 48);
    out.append(&mut p);
    out.push(32);
    let mut p = crate::text::pad_left(crate::text::fmt_u64(e.day as u64), 2, 48);
    out.append(&mut p);
    out.push(32);
    let mut p = crate::text::pad_left(crate::text::fmt_u64(e.hour as u64), 2, 48);
    out.append(&mut p);
    out.push(32);
    let mut p = crate::text::pad_left(crate::text::fmt_u64(e.minute as u64), 2, 48);
    out.append(&mut p);
    out.push(32);
    let mut p = crate::text::pad_left(crate::text::fmt_u64(e.second as u64), 2, 48);
    out.append(&mut p);
    out.push(46);
    let mut p = crate::text::pad_left(crate::text::fmt_u64(e.nanos as u64), 9, 48);
    out.append(&mut p);
    proof {
        assert(out@ =~= seq![62u8, 32] + crate::epoch::spec_format_epoch9(*e));
    }
    out
}

/// Formats the epoch header line of a block.
#[verifier::rlimit(100)]
#[verifier::spinoff_prover]
fn fmt_epoch_header_line(key: Key, m: &Measurements, codes_len: usize) -> (r: Vec<u8>)
    requires
        key.epoch.valid(),
        spec_meas_wf(m@),
        codes_len == spec_station_codes(m@.observations, m@.observations.len() as int).len(),
    ensures
        r@ == spec_epoch_header_line(key, m@),
{
    let e: Epoch = key.epoch;
    let mut out: Vec<u8> = fmt_epoch_date(&e);
    out.push(32);
    out.push(32);
    out.push(key.flag.code());
    let mut p = crate::text::pad_left(crate::text::fmt_u64(codes_len as u64), 3, 32);
    out.append(&mut p);
    match &m.satellite_clock_offset {
        Some(c) => {
            out.push(32);
            let mut p = crate::text::pad_left(c.offset.format_seconds_9(), 14, 32);
            out.append(&mut p);
            out.push(32);
            if c.extrapolated {
                out.push(49);
            } else {
                out.push(48);
            }
            out.push(10);
        },
        None => {
            out.push(10);
        },
    }
    proof {
        assert(out@ =~= spec_epoch_header_line(key, m@));
    }
    out
}

/// Formats one epoch block.
#[verifier::rlimit(100)]
fn format_block(key: Key, m: &Measurements, observables: &Vec<Observable>) -> (r: Vec<u8>)
    requires
        key.epoch.valid(),
        spec_meas_wf(m@),
    ensures
        r@ == spec_format_block(key, m@, observables@),
{
    // the distinct station codes, ascending
    let mut codes: Vec<u16> = Vec::new();
    let nobs: usize = m.observations.len();
    let mut w: usize = 0;
    while w < nobs
        invariant
            0 <= w <= nobs,
            nobs == m.observations@.len(),
            codes@ == spec_station_codes(m@.observations, w as int),
        decreases nobs - w,
    {
        proof {
            assert(m@.observations[w as int].0.station.code == m.observations@[
                w as int
            ].0.station@.code);
        }
        insert_code(&mut codes, m.observations[w].0.station.code);
        w = w + 1;
    }
    let out_line: Vec<u8> = fmt_epoch_header_line(key, m, codes.len());
    let mut out: Vec<u8> = out_line;
    // station sub-blocks for measured epochs
    let is_data: bool = match key.flag {
        EpochFlag::OK | EpochFlag::PowerFailure => true,
        _ => false,
    };
    if is_data {
        let ghost line0 = out@;
        let ncodes: usize = codes.len();
        let mut q: usize = 0;
        while q < ncodes
            invariant
                0 <= q <= ncodes,
                ncodes == codes@.len(),
                codes@ == spec_station_codes(m@.observations, m@.observations.len() as int),
                spec_meas_wf(m@),
                out@ =~= line0 + spec_station_blocks(m@, codes@, observables@, q as int),
            decreases ncodes - q,
        {
            let mut block = format_station_block(m, codes[q], observables);
            out.append(&mut block);
            proof {
                assert(out@ =~= line0 + spec_station_blocks(m@, codes@, observables@, q + 1));
            }
            q = q + 1;
        }
    }
    out
}

/// Formats one station sub-block: tag and cells.
#[verifier::rlimit(100)]
fn format_station_block(m: &Measurements, code: u16, observables: &Vec<Observable>) -> (r: Vec<
    u8,
>)
    requires
        spec_meas_wf(m@),
    ensures
        r@ == spec_station_block(m@, code, observables@),
{
    let mut out: Vec<u8> = Vec::new();
    out.push(68);
    let mut p = crate::text::pad_left(crate::text::fmt_u64(code as u64), 2, 48);
    out.append(&mut p);
    let ghost head = out@;
    let nobs: usize = observables.len();
    let mut i: usize = 0;
    while i < nobs
        invariant
            0 <= i <= nobs,
            nobs == observables@.len(),
            spec_meas_wf(m@),
            out@ =~= head + spec_station_cells(m@, code, observables@, i as int),
        decreases nobs - i,
    {
        match find_code_obs(m, code, observables[i]) {
            Some(obs) => {
                let mut cell = obs.value.fmt_fixed(3, 14);
                out.append(&mut cell);
                out.push(32);
                out.push(32);
            },
            None => {
                let mut w: usize = 0;
                let ghost before = out@;
                while w < 18
                    invariant
                        0 <= w <= 18,
                        out@ =~= before + Seq::new(w as nat, |x: int| 32u8),
                    decreases 18 - w,
                {
                    out.push(32);
                    w = w + 1;
                }
            },
        }
        if i == nobs - 1 {
            out.push(10);
        } else if i % 5 == 4 {
            out.push(10);
            out.push(32);
            out.push(32);
            out.push(32);
        }
        proof {
            assert(out@ =~= head + spec_station_cells(m@, code, observables@, i + 1));
        }
        i = i + 1;
    }
    out
}

/// The first observation held for a station code and observable.
fn find_code_obs(m: &Measurements, code: u16, o: Observable) -> (r: Option<Observation>)
    requires
        spec_meas_wf(m@),
    ensures
        r == spec_find_code_obs(m@.observations, code, o),
        r matches Some(obs) ==> obs.value.wf(),
{
    let n: usize = m.observations.len();
    let mut q: usize = 0;
    while q < n
        invariant
            0 <= q <= n,
            n == m.observations@.len(),
            spec_meas_wf(m@),
            forall|i: int|
                0 <= i < q ==> !((#[trigger] m@.observations[i]).0.station.code == code
                    && m@.observations[i].0.observable == o),
        decreases n - q,
    {
        let entry: &(ObservationKey, Observation) = &m.observations[q];
        if entry.0.station.code == code && entry.0.observable == o {
            proof {
                lemma_find_code_obs_at(m@.observations, code, o, q as int);
            }
            return Some(entry.1);
        }
        q = q + 1;
    }
    proof {
        lemma_find_code_obs_none(m@.observations, code, o);
    }
    None
}

proof fn lemma_find_code_obs_at(
    obs: Seq<(ObservationKeyView, Observation)>,
    code: u16,
    o: Observable,
    q: int,
)
    requires
        0 <= q < obs.len(),
        obs[q].0.station.code == code && obs[q].0.observable == o,
        forall|i: int|
            0 <= i < q ==> !((#[trigger] obs[i]).0.station.code == code && obs[i].0.observable
                == o),
    ensures
        spec_find_code_obs(obs, code, o) == Some(obs[q].1),
    decreases q,
{
    if q > 0 {
        let s1 = obs.subrange(1, obs.len() as int);
        assert forall|i: int|
            0 <= i < q - 1 implies !((#[trigger] s1[i]).0.station.code == code
                && s1[i].0.observable == o) by {
            assert(s1[i] == obs[i + 1]);
        }
        lemma_find_code_obs_at(s1, code, o, q - 1);
    }
}

proof fn lemma_find_code_obs_none(
    obs: Seq<(ObservationKeyView, Observation)>,
    code: u16,
    o: Observable,
)
    requires
        forall|i: int|
            0 <= i < obs.len() ==> !((#[trigger] obs[i]).0.station.code == code
                && obs[i].0.observable == o),
    ensures
        spec_find_code_obs(obs, code, o) is None,
    decreases obs.len(),
{
    if obs.len() > 0 {
        let s1 = obs.subrange(1, obs.len() as int);
        assert forall|i: int|
            0 <= i < s1.len() implies !((#[trigger] s1[i]).0.station.code == code
                && s1[i].0.observable == o) by {
            assert(s1[i] == obs[i + 1]);
        }
        lemma_find_code_obs_none(s1, code, o);
    }
}

} // verus!
