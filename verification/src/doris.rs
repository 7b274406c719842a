//! The DORIS facade: a parsed file as header plus record, with its
//! query surface and file differencing.

use vstd::prelude::*;

use crate::duration::Duration;
use crate::epoch::Epoch;
use crate::errors::{Error, ParsingError};
use crate::header::{spec_header_empty, spec_parse_header_loop, Header, HeaderView};
use crate::matcher::Matcher;
use crate::production::{spec_format_production, ProductionAttributes};
use crate::record::{
    spec_meas_wf, spec_record_wf, ClockOffset, Key, Measurements, MeasurementsView, Observation,
    ObservationKey, Record, RecordView,
};
use crate::station::{spec_station_matches, GroundStation, GroundStationView};

verus! {

/// A DORIS file: its header, its record, and the attributes of its
/// standard file name when it had one.
#[derive(Debug, Clone)]
pub struct DORIS {
    /// General information about the file.
    pub header: Header,
    /// The actual measurements.
    pub record: Record,
    /// Attributes carried by a standard file name.
    pub production: Option<ProductionAttributes>,
}

/// Spec-level image of a DORIS file.
#[verifier::ext_equal]
pub struct DORISView {
    pub header: HeaderView,
    pub record: RecordView,
    pub production: Option<crate::production::ProductionAttributesView>,
}

impl View for DORIS {
    type V = DORISView;

    open spec fn view(&self) -> DORISView {
        DORISView {
            header: self.header@,
            record: self.record@,
            production: match self.production {
                Some(p) => Some(p@),
                None => None,
            },
        }
    }
}

/// Some epoch of the record reports this clock offset at this
/// instant.
pub open spec fn spec_reports_clock(r: RecordView, e: Epoch, c: ClockOffset) -> bool {
    exists|j: int|
        0 <= j < r.measurements.len() && (#[trigger] r.measurements[j]).0.epoch == e
            && r.measurements[j].1.satellite_clock_offset == Some(c)
}


/// The clock offsets of the first `i` epochs that report one, in key
/// order, each (instant, offset) pair listed once.
pub open spec fn spec_clock_list(ms: Seq<(Key, MeasurementsView)>, i: int) -> Seq<
    (Epoch, ClockOffset),
>
    decreases i,
{
    if i <= 0 {
        Seq::empty()
    } else {
        let prev = spec_clock_list(ms, i - 1);
        match ms[i - 1].1.satellite_clock_offset {
            Some(c) => if prev.contains((ms[i - 1].0.epoch, c)) {
                prev
            } else {
                prev.push((ms[i - 1].0.epoch, c))
            },
            None => prev,
        }
    }
}

/// The span between consecutive epochs `j` and `j+1`.
pub open spec fn spec_epoch_gap(ms: Seq<(Key, MeasurementsView)>, j: int) -> Duration {
    Duration {
        femtoseconds: ((crate::epoch::spec_epoch_nanos(ms[j + 1].0.epoch)
            - crate::epoch::spec_epoch_nanos(ms[j].0.epoch)) * 1000000) as i128,
    }
}

/// The first histogram index carrying the span, if any.
pub open spec fn spec_find_gap(h: Seq<(Duration, usize)>, dt: Duration) -> Option<int>
    decreases h.len(),
{
    if h.len() == 0 {
        None
    } else if h[0].0 == dt {
        Some(0)
    } else {
        match spec_find_gap(h.subrange(1, h.len() as int), dt) {
            Some(i) => Some(i + 1),
            None => None,
        }
    }
}

/// One span folded into the histogram: its count grows (up to the
/// counter's capacity) or a new entry appears.
pub open spec fn spec_bump(h: Seq<(Duration, usize)>, dt: Duration) -> Seq<(Duration, usize)> {
    match spec_find_gap(h, dt) {
        Some(i) => h.update(
            i,
            (
                dt,
                if h[i].1 < usize::MAX {
                    (h[i].1 + 1) as usize
                } else {
                    h[i].1
                },
            ),
        ),
        None => h.push((dt, 1)),
    }
}

/// The histogram of the first `i` consecutive-epoch spans.
pub open spec fn spec_histogram(ms: Seq<(Key, MeasurementsView)>, i: int) -> Seq<
    (Duration, usize),
>
    decreases i,
{
    if i <= 0 {
        Seq::empty()
    } else {
        spec_bump(spec_histogram(ms, i - 1), spec_epoch_gap(ms, i - 1))
    }
}

/// The least entry of the first `i` histogram entries, in
/// (span, count) order.
pub open spec fn spec_hist_min(h: Seq<(Duration, usize)>, i: int) -> (Duration, usize)
    decreases i,
{
    if i <= 1 {
        h[0]
    } else {
        let b = spec_hist_min(h, i - 1);
        let e = h[i - 1];
        if e.0.femtoseconds < b.0.femtoseconds || (e.0.femtoseconds == b.0.femtoseconds && e.1
            < b.1) {
            e
        } else {
            b
        }
    }
}

proof fn lemma_find_gap_at(h: Seq<(Duration, usize)>, dt: Duration, q: int)
    requires
        0 <= q < h.len(),
        h[q].0 == dt,
        forall|i: int| 0 <= i < q ==> (#[trigger] h[i]).0 != dt,
    ensures
        spec_find_gap(h, dt) == Some(q),
    decreases q,
{
    if q > 0 {
        let s1 = h.subrange(1, h.len() as int);
        assert forall|i: int| 0 <= i < q - 1 implies (#[trigger] s1[i]).0 != dt by {
            assert(s1[i] == h[i + 1]);
        }
        lemma_find_gap_at(s1, dt, q - 1);
    }
}

proof fn lemma_find_gap_none(h: Seq<(Duration, usize)>, dt: Duration)
    requires
        forall|i: int| 0 <= i < h.len() ==> (#[trigger] h[i]).0 != dt,
    ensures
        spec_find_gap(h, dt) is None,
    decreases h.len(),
{
    if h.len() > 0 {
        let s1 = h.subrange(1, h.len() as int);
        assert forall|i: int| 0 <= i < s1.len() implies (#[trigger] s1[i]).0 != dt by {
            assert(s1[i] == h[i + 1]);
        }
        lemma_find_gap_none(s1, dt);
    }
}


/// Magnitude of an integer.
pub open spec fn spec_abs_int(x: int) -> int {
    if x >= 0 {
        x
    } else {
        -x
    }
}

/// Temporal distance of two instants, at femtosecond resolution.
pub open spec fn spec_epoch_dist(a: Epoch, b: Epoch) -> Duration {
    Duration {
        femtoseconds: spec_abs_int(
            (crate::epoch::spec_epoch_nanos(a) - crate::epoch::spec_epoch_nanos(b)) * 1000000,
        ) as i128,
    }
}

/// The reference scan over one epoch's slots: each slot matching the
/// key at a distance no larger than the best so far becomes the
/// reference (later candidates win ties).
pub open spec fn spec_scan_obs(
    okey: crate::record::ObservationKeyView,
    obs: Seq<(crate::record::ObservationKeyView, Observation)>,
    dt: Duration,
    st: (Option<Observation>, Duration),
    w: int,
) -> (Option<Observation>, Duration)
    decreases w,
{
    if w <= 0 {
        st
    } else {
        let prev = spec_scan_obs(okey, obs, dt, st, w - 1);
        if obs[w - 1].0 == okey && dt.femtoseconds <= prev.1.femtoseconds {
            (Some(obs[w - 1].1), dt)
        } else {
            prev
        }
    }
}

/// The reference scan over the first `q` epochs of the other file:
/// epochs within the half period contribute their slots.
pub open spec fn spec_scan_ms(
    okey: crate::record::ObservationKeyView,
    key: Key,
    ms: Seq<(Key, MeasurementsView)>,
    half: Duration,
    st: (Option<Observation>, Duration),
    q: int,
) -> (Option<Observation>, Duration)
    decreases q,
{
    if q <= 0 {
        st
    } else {
        let prev = spec_scan_ms(okey, key, ms, half, st, q - 1);
        let d = spec_epoch_dist(ms[q - 1].0.epoch, key.epoch);
        if d.femtoseconds <= half.femtoseconds {
            spec_scan_obs(okey, ms[q - 1].1.observations, d, prev, ms[q - 1].1.observations.len() as int)
        } else {
            prev
        }
    }
}

/// The temporally closest observation of the other file for the
/// same station and observable, within the half sampling period.
pub open spec fn spec_closest_reference(
    okey: crate::record::ObservationKeyView,
    key: Key,
    ms: Seq<(Key, MeasurementsView)>,
    half: Duration,
) -> Option<Observation> {
    spec_scan_ms(okey, key, ms, half, (None, Duration { femtoseconds: i128::MAX }), ms.len() as int).0
}

/// The residual observations of one epoch: each paired slot becomes
/// its difference with the reference, unpaired slots are dropped.
pub open spec fn spec_sub_obs(
    obs: Seq<(crate::record::ObservationKeyView, Observation)>,
    key: Key,
    rhs_ms: Seq<(Key, MeasurementsView)>,
    half: Duration,
    w: int,
) -> Seq<(crate::record::ObservationKeyView, Observation)>
    decreases w,
{
    if w <= 0 {
        Seq::empty()
    } else {
        let prev = spec_sub_obs(obs, key, rhs_ms, half, w - 1);
        match spec_closest_reference(obs[w - 1].0, key, rhs_ms, half) {
            Some(refo) => prev.push(
                (
                    obs[w - 1].0,
                    Observation {
                        snr: obs[w - 1].1.snr,
                        value: crate::numeric::spec_decimal_sub(obs[w - 1].1.value, refo.value),
                    },
                ),
            ),
            None => prev,
        }
    }
}

/// The residual record of the first `q` epochs: epochs left without
/// observations disappear.
pub open spec fn spec_substract_ms(
    ms: Seq<(Key, MeasurementsView)>,
    rhs_ms: Seq<(Key, MeasurementsView)>,
    half: Duration,
    q: int,
) -> Seq<(Key, MeasurementsView)>
    decreases q,
{
    if q <= 0 {
        Seq::empty()
    } else {
        let prev = spec_substract_ms(ms, rhs_ms, half, q - 1);
        let newobs = spec_sub_obs(
            ms[q - 1].1.observations,
            ms[q - 1].0,
            rhs_ms,
            half,
            ms[q - 1].1.observations.len() as int,
        );
        if newobs.len() > 0 {
            prev.push(
                (
                    ms[q - 1].0,
                    MeasurementsView {
                        flag: ms[q - 1].1.flag,
                        satellite_clock_offset: ms[q - 1].1.satellite_clock_offset,
                        observations: newobs,
                    },
                ),
            )
        } else {
            prev
        }
    }
}

/// Half a span, truncated toward zero.
pub open spec fn spec_trunc_half(fs: int) -> int {
    if fs >= 0 {
        fs / 2
    } else {
        -((-fs) / 2)
    }
}


/// The scan state keeps a positive distance while only positive
/// distances are offered.
proof fn lemma_scan_obs_shape(
    okey: crate::record::ObservationKeyView,
    obs: Seq<(crate::record::ObservationKeyView, Observation)>,
    dt: Duration,
    st: (Option<Observation>, Duration),
    w: int,
)
    ensures
        spec_scan_obs(okey, obs, dt, st, w) == st || spec_scan_obs(okey, obs, dt, st, w).1 == dt,
    decreases w,
{
    if w > 0 {
        lemma_scan_obs_shape(okey, obs, dt, st, w - 1);
    }
}

/// With a unique matching slot and a non-smaller best distance, the
/// scan of one epoch lands on that slot.
proof fn lemma_scan_obs_unique_hit(
    okey: crate::record::ObservationKeyView,
    obs: Seq<(crate::record::ObservationKeyView, Observation)>,
    dt: Duration,
    st: (Option<Observation>, Duration),
    j: int,
    w: int,
)
    requires
        0 <= j < w <= obs.len(),
        obs[j].0 == okey,
        forall|a: int| 0 <= a < w && a != j ==> (#[trigger] obs[a]).0 != okey,
        dt.femtoseconds <= st.1.femtoseconds,
    ensures
        spec_scan_obs(okey, obs, dt, st, w) == (Some(obs[j].1), dt),
    decreases w,
{
    if w - 1 == j {
        lemma_scan_obs_shape(okey, obs, dt, st, j);
    } else {
        lemma_scan_obs_unique_hit(okey, obs, dt, st, j, w - 1);
    }
}

/// Without a matching slot the scan of one epoch changes nothing.
proof fn lemma_scan_obs_no_hit(
    okey: crate::record::ObservationKeyView,
    obs: Seq<(crate::record::ObservationKeyView, Observation)>,
    dt: Duration,
    st: (Option<Observation>, Duration),
    w: int,
)
    requires
        forall|a: int| 0 <= a < w ==> (#[trigger] obs[a]).0 != okey,
    ensures
        spec_scan_obs(okey, obs, dt, st, w) == st,
    decreases w,
{
    if w > 0 {
        lemma_scan_obs_no_hit(okey, obs, dt, st, w - 1);
    }
}

/// A matched slot never beats a strictly smaller best distance.
proof fn lemma_scan_obs_far(
    okey: crate::record::ObservationKeyView,
    obs: Seq<(crate::record::ObservationKeyView, Observation)>,
    dt: Duration,
    st: (Option<Observation>, Duration),
    w: int,
)
    requires
        st.1.femtoseconds < dt.femtoseconds,
    ensures
        spec_scan_obs(okey, obs, dt, st, w) == st,
    decreases w,
{
    if w > 0 {
        lemma_scan_obs_far(okey, obs, dt, st, w - 1);
    }
}

/// Scanning a self-record up to an epoch leaves a strictly positive
/// best distance when all instants are distinct.
proof fn lemma_scan_self_before(
    okey: crate::record::ObservationKeyView,
    key: Key,
    ms: Seq<(Key, MeasurementsView)>,
    half: Duration,
    q: int,
    qk: int,
)
    requires
        0 <= q <= qk < ms.len(),
        key == ms[qk].0,
        forall|a: int, b: int|
            0 <= a < b < ms.len() ==> crate::epoch::spec_epoch_nanos((#[trigger] ms[a]).0.epoch)
                < crate::epoch::spec_epoch_nanos((#[trigger] ms[b]).0.epoch),
    ensures
        spec_scan_ms(
            okey,
            key,
            ms,
            half,
            (None::<Observation>, Duration { femtoseconds: i128::MAX }),
            q,
        ).1.femtoseconds > 0,
    decreases q,
{
    let init = (None::<Observation>, Duration { femtoseconds: i128::MAX });
    if q > 0 {
        lemma_scan_self_before(okey, key, ms, half, q - 1, qk);
        let prev = spec_scan_ms(okey, key, ms, half, init, q - 1);
        let d = spec_epoch_dist(ms[q - 1].0.epoch, key.epoch);
        assert(crate::epoch::spec_epoch_nanos(ms[q - 1].0.epoch) < crate::epoch::spec_epoch_nanos(
            key.epoch,
        ));
        assert(d.femtoseconds > 0);
        if d.femtoseconds <= half.femtoseconds {
            lemma_scan_obs_shape(
                okey,
                ms[q - 1].1.observations,
                d,
                prev,
                ms[q - 1].1.observations.len() as int,
            );
        }
    }
}

/// Once the scan has locked on a zero distance, later epochs of a
/// distinct-instant record change nothing.
proof fn lemma_scan_self_after(
    okey: crate::record::ObservationKeyView,
    key: Key,
    ms: Seq<(Key, MeasurementsView)>,
    half: Duration,
    q: int,
    qk: int,
    st: (Option<Observation>, Duration),
)
    requires
        0 <= qk < q <= ms.len(),
        key == ms[qk].0,
        st.1.femtoseconds == 0,
        spec_scan_ms(
            okey,
            key,
            ms,
            half,
            (None::<Observation>, Duration { femtoseconds: i128::MAX }),
            qk + 1,
        ) == st,
        forall|a: int, b: int|
            0 <= a < b < ms.len() ==> crate::epoch::spec_epoch_nanos((#[trigger] ms[a]).0.epoch)
                < crate::epoch::spec_epoch_nanos((#[trigger] ms[b]).0.epoch),
    ensures
        spec_scan_ms(
            okey,
            key,
            ms,
            half,
            (None::<Observation>, Duration { femtoseconds: i128::MAX }),
            q,
        ) == st,
    decreases q,
{
    let init = (None::<Observation>, Duration { femtoseconds: i128::MAX });
    if q > qk + 1 {
        lemma_scan_self_after(okey, key, ms, half, q - 1, qk, st);
        let d = spec_epoch_dist(ms[q - 1].0.epoch, key.epoch);
        assert(crate::epoch::spec_epoch_nanos(key.epoch) < crate::epoch::spec_epoch_nanos(
            ms[q - 1].0.epoch,
        ));
        assert(d.femtoseconds > 0);
        if d.femtoseconds <= half.femtoseconds {
            lemma_scan_obs_far(
                okey,
                ms[q - 1].1.observations,
                d,
                st,
                ms[q - 1].1.observations.len() as int,
            );
        }
    }
}

/// In a self-comparison over distinct instants, the closest
/// reference of a slot is the slot's own observation.
proof fn lemma_closest_self(
    ms: Seq<(Key, MeasurementsView)>,
    half: Duration,
    qk: int,
    j: int,
)
    requires
        0 <= qk < ms.len(),
        0 <= j < ms[qk].1.observations.len(),
        half.femtoseconds >= 0,
        forall|a: int, b: int|
            0 <= a < b < ms.len() ==> crate::epoch::spec_epoch_nanos((#[trigger] ms[a]).0.epoch)
                < crate::epoch::spec_epoch_nanos((#[trigger] ms[b]).0.epoch),
        forall|a: int, b: int|
            0 <= a < b < ms[qk].1.observations.len() ==> (#[trigger] ms[qk].1.observations[a]).0
                != (#[trigger] ms[qk].1.observations[b]).0,
    ensures
        spec_closest_reference(ms[qk].1.observations[j].0, ms[qk].0, ms, half) == Some(
            ms[qk].1.observations[j].1,
        ),
{
    let okey = ms[qk].1.observations[j].0;
    let key = ms[qk].0;
    let init = (None::<Observation>, Duration { femtoseconds: i128::MAX });
    lemma_scan_self_before(okey, key, ms, half, qk, qk);
    let pre = spec_scan_ms(okey, key, ms, half, init, qk);
    let d = spec_epoch_dist(ms[qk].0.epoch, key.epoch);
    assert(d.femtoseconds == 0);
    assert(d.femtoseconds <= half.femtoseconds);
    assert forall|a: int|
        0 <= a < ms[qk].1.observations.len() && a != j implies (
    #[trigger] ms[qk].1.observations[a]).0 != okey by {
        if a < j {
            assert(ms[qk].1.observations[a].0 != ms[qk].1.observations[j].0);
        } else {
            assert(ms[qk].1.observations[j].0 != ms[qk].1.observations[a].0);
        }
    }
    lemma_scan_obs_unique_hit(
        okey,
        ms[qk].1.observations,
        d,
        pre,
        j,
        ms[qk].1.observations.len() as int,
    );
    let st = spec_scan_ms(okey, key, ms, half, init, qk + 1);
    assert(st == (Some(ms[qk].1.observations[j].1), d));
    lemma_scan_self_after(okey, key, ms, half, ms.len() as int, qk, st);
}

/// A value subtracted from itself has a zero mantissa.
proof fn lemma_decimal_sub_self(x: crate::numeric::Decimal)
    ensures
        crate::numeric::spec_decimal_sub(x, x).mantissa == 0,
{
    assert(crate::text::pow10(0) == 1);
}

/// Every residual of one epoch in a self-comparison carries a zero
/// mantissa.
proof fn lemma_sub_obs_self_zero(
    ms: Seq<(Key, MeasurementsView)>,
    half: Duration,
    qk: int,
    w: int,
)
    requires
        0 <= qk < ms.len(),
        0 <= w <= ms[qk].1.observations.len(),
        half.femtoseconds >= 0,
        forall|a: int, b: int|
            0 <= a < b < ms.len() ==> crate::epoch::spec_epoch_nanos((#[trigger] ms[a]).0.epoch)
                < crate::epoch::spec_epoch_nanos((#[trigger] ms[b]).0.epoch),
        forall|a: int, b: int|
            0 <= a < b < ms[qk].1.observations.len() ==> (#[trigger] ms[qk].1.observations[a]).0
                != (#[trigger] ms[qk].1.observations[b]).0,
    ensures
        ({
            let res = spec_sub_obs(ms[qk].1.observations, ms[qk].0, ms, half, w);
            &&& res.len() == w
            &&& forall|x: int| 0 <= x < res.len() ==> (#[trigger] res[x]).1.value.mantissa == 0
        }),
    decreases w,
{
    if w > 0 {
        lemma_sub_obs_self_zero(ms, half, qk, w - 1);
        lemma_closest_self(ms, half, qk, w - 1);
        lemma_decimal_sub_self(ms[qk].1.observations[w - 1].1.value);
    }
}

/// Substract identity: differencing a record against itself, over
/// distinct instants and distinct slots within each epoch, keeps
/// every epoch and leaves every retained observation with a zero
/// value mantissa.
pub proof fn lemma_substract_self_zero(
    ms: Seq<(Key, MeasurementsView)>,
    half: Duration,
    q: int,
)
    requires
        0 <= q <= ms.len(),
        half.femtoseconds >= 0,
        forall|a: int, b: int|
            0 <= a < b < ms.len() ==> crate::epoch::spec_epoch_nanos((#[trigger] ms[a]).0.epoch)
                < crate::epoch::spec_epoch_nanos((#[trigger] ms[b]).0.epoch),
        forall|k: int, a: int, b: int|
            0 <= k < ms.len() && 0 <= a < b < (#[trigger] ms[k]).1.observations.len() ==> (
            #[trigger] ms[k].1.observations[a]).0 != (#[trigger] ms[k].1.observations[b]).0,
    ensures
        ({
            let res = spec_substract_ms(ms, ms, half, q);
            forall|x: int, y: int|
                0 <= x < res.len() && 0 <= y < (#[trigger] res[x]).1.observations.len() ==> (
                #[trigger] res[x].1.observations[y]).1.value.mantissa == 0
        }),
    decreases q,
{
    if q > 0 {
        lemma_substract_self_zero(ms, half, q - 1);
        assert forall|a: int, b: int|
            0 <= a < b < ms[q - 1].1.observations.len() implies (
        #[trigger] ms[q - 1].1.observations[a]).0 != (
        #[trigger] ms[q - 1].1.observations[b]).0 by {
            assert(0 <= q - 1 < ms.len());
        }
        lemma_sub_obs_self_zero(ms, half, q - 1, ms[q - 1].1.observations.len() as int);
    }
}

/// The first roster station selected by a matcher.
pub open spec fn spec_find_matching(sts: Seq<GroundStationView>, m: Matcher) -> Option<
    GroundStationView,
>
    decreases sts.len(),
{
    if sts.len() == 0 {
        None
    } else if spec_station_matches(sts[0], m) {
        Some(sts[0])
    } else {
        spec_find_matching(sts.subrange(1, sts.len() as int), m)
    }
}

impl DORIS {
    /// Builds a DORIS file from a header and a record.
    pub fn new(header: Header, record: Record) -> (r: DORIS)
        ensures
            r@.header == header@,
            r@.record == record@,
            r@.production is None,
    {
        DORIS { header, record, production: None }
    }

    /// Copies and returns this file with another header; the name
    /// attributes are dropped.
    pub fn with_header(&self, header: Header) -> (r: Self)
        ensures
            r@.header == header@,
            r@.record == self@.record,
            r@.production is None,
    {
        DORIS { header, record: self.record.duplicate_record(), production: None }
    }

    /// Replaces the header in place.
    pub fn replace_header(&mut self, header: Header)
        ensures
            final(self)@.header == header@,
            final(self)@.record == old(self)@.record,
            final(self)@.production == old(self)@.production,
    {
        self.header = header;
    }

    /// Copies and returns this file with another record.
    pub fn with_record(&self, record: Record) -> (r: Self)
        ensures
            r@.header == self@.header,
            r@.record == record@,
            r@.production == self@.production,
    {
        DORIS {
            header: self.header.duplicate(),
            record,
            production: match &self.production {
                Some(p) => Some(p.duplicate_production()),
                None => None,
            },
        }
    }

    /// Replaces the record in place.
    pub fn replace_record(&mut self, record: Record)
        ensures
            final(self)@.header == old(self)@.header,
            final(self)@.record == record@,
            final(self)@.production == old(self)@.production,
    {
        self.record = record;
    }

    /// Parses a whole file: the header section closed by its end
    /// marker, then the record from the next line on.
    pub fn parse(input: &[u8]) -> (r: Result<DORIS, ParsingError>)
        ensures
            match r {
                Ok(d) => ({
                    &&& spec_parse_header_loop(
                        crate::lines::spec_lines(input@),
                        0,
                        spec_header_empty(),
                    ) matches Ok((hv, next)) && d@.header == hv
                        && crate::record::spec_parse_record(
                        hv,
                        crate::lines::spec_lines(input@),
                        next,
                    ) == Ok::<RecordView, ParsingError>(d@.record)
                    &&& spec_record_wf(d@.record)
                    &&& d@.production is None
                }),
                Err(e) => match spec_parse_header_loop(
                    crate::lines::spec_lines(input@),
                    0,
                    spec_header_empty(),
                ) {
                    Err(e2) => e == e2,
                    Ok((hv, next)) => crate::record::spec_parse_record(
                        hv,
                        crate::lines::spec_lines(input@),
                        next,
                    ) == Err::<RecordView, ParsingError>(e),
                },
            },
    {
        let lines: Vec<Vec<u8>> = crate::lines::split_lines(input);
        proof {
            assert(crate::lines::views_of(lines@) =~= crate::lines::spec_lines(input@));
        }
        let (header, next): (Header, usize) = match Header::parse(&lines, 0) {
            Ok(p) => p,
            Err(e) => {
                return Err(e);
            },
        };
        proof {
            crate::header::lemma_parsed_header_stations_wf(
                crate::lines::views_of(lines@),
                0,
                spec_header_empty(),
            );
        }
        let record: Record = match Record::parse(&header, &lines, next) {
            Ok(rec) => rec,
            Err(e) => {
                return Err(e);
            },
        };
        Ok(DORIS { header, record, production: None })
    }

    /// Formats the whole file: header lines, then the record.
    pub fn format(&self) -> (r: Vec<u8>)
        requires
            self@.header.cospar matches Some(c) ==> c.wf(),
            self@.header.time_of_first_observation matches Some(e) ==> e.valid(),
            self@.header.time_of_last_observation matches Some(e) ==> e.valid(),
            forall|i: int|
                0 <= i < self@.header.ground_stations.len() ==> (
                #[trigger] self@.header.ground_stations[i]).domes.wf(),
            spec_record_wf(self@.record),
        ensures
            r@ == crate::header::spec_format_header(self@.header) + crate::record::spec_format_record(
                self@.record.measurements,
                self@.header.observables,
                self@.record.measurements.len() as int,
            ),
    {
        let mut out = self.header.format();
        let mut rec = self.record.format(&self.header);
        out.append(&mut rec);
        out
    }

    /// True if a FILE MERGE comment marks this file as the merge of
    /// several files.
    pub fn is_merged(&self) -> (r: bool)
        ensures
            r == exists|i: int|
                0 <= i < self@.header.comments.len() && #[trigger] self@.header.comments[i]
                    == seq![70u8, 73, 76, 69, 32, 77, 69, 82, 71, 69],
    {
        let n: usize = self.header.comments.len();
        let mut q: usize = 0;
        while q < n
            invariant
                0 <= q <= n,
                n == self.header.comments@.len(),
                forall|i: int|
                    0 <= i < q ==> #[trigger] self@.header.comments[i] != seq![
                        70u8, 73, 76, 69, 32, 77, 69, 82, 71, 69,
                    ],
            decreases n - q,
        {
            let c: &[u8] = self.header.comments[q].as_slice();
            if c.len() == 10 && c[0] == 70 && c[1] == 73 && c[2] == 76 && c[3] == 69 && c[4] == 32
                && c[5] == 77 && c[6] == 69 && c[7] == 82 && c[8] == 71 && c[9] == 69 {
                proof {
                    assert(self@.header.comments[q as int] =~= seq![
                        70u8, 73, 76, 69, 32, 77, 69, 82, 71, 69,
                    ]);
                }
                return true;
            }
            proof {
                assert(self@.header.comments[q as int] != seq![
                    70u8, 73, 76, 69, 32, 77, 69, 82, 71, 69,
                ]);
            }
            q = q + 1;
        }
        false
    }

    /// The first roster station selected by the matcher.
    pub fn ground_station(&self, matcher: Matcher) -> (r: Option<GroundStation>)
        ensures
            match r {
                Some(st) => spec_find_matching(self@.header.ground_stations, matcher) == Some(
                    st@,
                ),
                None => spec_find_matching(self@.header.ground_stations, matcher) is None,
            },
    {
        let n: usize = self.header.ground_stations.len();
        let mut q: usize = 0;
        while q < n
            invariant
                0 <= q <= n,
                n == self.header.ground_stations@.len(),
                forall|i: int|
                    0 <= i < q ==> !spec_station_matches(
                        #[trigger] self@.header.ground_stations[i],
                        matcher,
                    ),
            decreases n - q,
        {
            if self.header.ground_stations[q].matches(&matcher) {
                proof {
                    lemma_find_matching_at(self@.header.ground_stations, matcher, q as int);
                }
                return Some(self.header.ground_stations[q].duplicate());
            }
            q = q + 1;
        }
        proof {
            lemma_find_matching_none(self@.header.ground_stations, matcher);
        }
        None
    }

    /// The satellite clock offsets, one per epoch that reports one,
    /// in chronological order, with repeated identical entries kept
    /// once.
    pub fn satellite_clock_offset_iter(&self) -> (r: Vec<(Epoch, ClockOffset)>)
        ensures
            r@ == spec_clock_list(self@.record.measurements, self@.record.measurements.len() as int),
            forall|i: int|
                0 <= i < r@.len() ==> spec_reports_clock(
                    self@.record,
                    (#[trigger] r@[i]).0,
                    r@[i].1,
                ),
    {
        let mut r: Vec<(Epoch, ClockOffset)> = Vec::new();
        let n: usize = self.record.measurements.len();
        let mut q: usize = 0;
        while q < n
            invariant
                0 <= q <= n,
                n == self.record.measurements@.len(),
                r@ == spec_clock_list(self@.record.measurements, q as int),
                forall|i: int|
                    0 <= i < r@.len() ==> spec_reports_clock(
                        self@.record,
                        (#[trigger] r@[i]).0,
                        r@[i].1,
                    ),
            decreases n - q,
        {
            let key = self.record.measurements[q].0;
            let clock: Option<ClockOffset> = self.record.measurements[q].1.satellite_clock_offset;
            proof {
                assert(self@.record.measurements[q as int].0 == key);
                assert(self@.record.measurements[q as int].1.satellite_clock_offset == clock);
            }
            if let Some(c) = clock {
                let mut seen: bool = false;
                let mut w: usize = 0;
                while w < r.len()
                    invariant
                        0 <= w <= r@.len(),
                        seen == exists|x: int| 0 <= x < w && r@[x] == (key.epoch, c),
                    decreases r@.len() - w,
                {
                    let e: &(Epoch, ClockOffset) = &r[w];
                    if e.0 == key.epoch && e.1 == c {
                        seen = true;
                    }
                    w = w + 1;
                }
                proof {
                    assert(seen == r@.contains((key.epoch, c)));
                }
                if !seen {
                    r.push((key.epoch, c));
                    proof {
                        assert(spec_reports_clock(self@.record, key.epoch, c)) by {
                            assert((self@.record.measurements[q as int]).0.epoch == key.epoch);
                            assert(self@.record.measurements[
                                q as int
                            ].1.satellite_clock_offset == Some(c));
                        }
                    }
                }
            }
            q = q + 1;
        }
        r
    }

    /// Histogram of the sampling period: every span between two
    /// consecutive epochs, with the count of its occurrences. Empty
    /// when the record holds fewer than two epochs.
    pub fn sampling_histogram(&self) -> (r: Vec<(Duration, usize)>)
        requires
            spec_record_wf(self@.record),
        ensures
            r@ == spec_histogram(
                self@.record.measurements,
                self@.record.measurements.len() - 1,
            ),
            (r@.len() == 0) == (self@.record.measurements.len() < 2),
    {
        let mut r: Vec<(Duration, usize)> = Vec::new();
        let n: usize = self.record.measurements.len();
        if n < 2 {
            return r;
        }
        let mut q: usize = 0;
        while q < n - 1
            invariant
                0 <= q <= n - 1,
                2 <= n == self.record.measurements@.len(),
                spec_record_wf(self@.record),
                r@ == spec_histogram(self@.record.measurements, q as int),
                q > 0 ==> r@.len() > 0,
            decreases n - 1 - q,
        {
            proof {
                assert(self@.record.measurements[q as int].0.epoch.valid());
                assert(self@.record.measurements[q + 1].0.epoch.valid());
            }
            let e1: Epoch = self.record.measurements[q].0.epoch;
            let e2: Epoch = self.record.measurements[q + 1].0.epoch;
            let dt: Duration = e2.diff(&e1);
            proof {
                assert(dt == spec_epoch_gap(self@.record.measurements, q as int));
            }
            let mut found: bool = false;
            let mut w: usize = 0;
            let ghost h0 = r@;
            while w < r.len() && !found
                invariant
                    0 <= w <= r@.len(),
                    r@.len() == h0.len(),
                    !found ==> r@ == h0 && (forall|i: int|
                        0 <= i < w ==> (#[trigger] h0[i]).0 != dt),
                    found ==> r@ == spec_bump(h0, dt) && h0.len() > 0,
                decreases r@.len() - w,
            {
                if r[w].0 == dt {
                    let count: usize = r[w].1;
                    proof {
                        lemma_find_gap_at(h0, dt, w as int);
                    }
                    if count < usize::MAX {
                        r.set(w, (dt, count + 1));
                    } else {
                        proof {
                            assert(r@ =~= h0.update(w as int, (dt, h0[w as int].1)));
                        }
                    }
                    found = true;
                }
                w = w + 1;
            }
            if !found {
                proof {
                    lemma_find_gap_none(h0, dt);
                }
                r.push((dt, 1));
            }
            q = q + 1;
        }
        proof {
            if r@.len() == 0 {
                assert(false);
            }
        }
        r
    }

    /// The dominant sampling period: the least histogram entry in
    /// (span, count) order. `None` when fewer than two epochs exist.
    pub fn dominant_sampling_period(&self) -> (r: Option<Duration>)
        requires
            spec_record_wf(self@.record),
        ensures
            (r is None) == (self@.record.measurements.len() < 2),
            r matches Some(dt) ==> ({
                let h = spec_histogram(
                    self@.record.measurements,
                    self@.record.measurements.len() - 1,
                );
                dt == spec_hist_min(h, h.len() as int).0
            }),
    {
        let hist: Vec<(Duration, usize)> = self.sampling_histogram();
        let n: usize = hist.len();
        if n == 0 {
            return None;
        }
        let mut best: (Duration, usize) = hist[0];
        let mut q: usize = 1;
        while q < n
            invariant
                1 <= q <= n,
                n == hist@.len(),
                hist@ == spec_histogram(
                    self@.record.measurements,
                    self@.record.measurements.len() - 1,
                ),
                best == spec_hist_min(hist@, q as int),
            decreases n - q,
        {
            let e: (Duration, usize) = hist[q];
            if e.0.femtoseconds < best.0.femtoseconds || (e.0.femtoseconds
                == best.0.femtoseconds && e.1 < best.1) {
                best = e;
            }
            q = q + 1;
        }
        Some(best.0)
    }
}

proof fn lemma_find_matching_at(sts: Seq<GroundStationView>, m: Matcher, q: int)
    requires
        0 <= q < sts.len(),
        spec_station_matches(sts[q], m),
        forall|i: int| 0 <= i < q ==> !spec_station_matches(#[trigger] sts[i], m),
    ensures
        spec_find_matching(sts, m) == Some(sts[q]),
    decreases q,
{
    if q > 0 {
        let s1 = sts.subrange(1, sts.len() as int);
        assert forall|i: int| 0 <= i < q - 1 implies !spec_station_matches(#[trigger] s1[i], m) by {
            assert(s1[i] == sts[i + 1]);
        }
        lemma_find_matching_at(s1, m, q - 1);
    }
}

proof fn lemma_find_matching_none(sts: Seq<GroundStationView>, m: Matcher)
    requires
        forall|i: int| 0 <= i < sts.len() ==> !spec_station_matches(#[trigger] sts[i], m),
    ensures
        spec_find_matching(sts, m) is None,
    decreases sts.len(),
{
    if sts.len() > 0 {
        let s1 = sts.subrange(1, sts.len() as int);
        assert forall|i: int| 0 <= i < s1.len() implies !spec_station_matches(#[trigger] s1[i], m)
            by {
            assert(s1[i] == sts[i + 1]);
        }
        lemma_find_matching_none(s1, m);
    }
}

impl Record {
    /// An equal record, copied entry by entry.
    pub(crate) fn duplicate_record(&self) -> (r: Record)
        ensures
            r@ == self@,
    {
        let mut comments: Vec<Vec<u8>> = Vec::new();
        let mut q: usize = 0;
        while q < self.comments.len()
            invariant
                0 <= q <= self.comments@.len(),
                comments@.len() == q,
                forall|i: int| 0 <= i < q ==> #[trigger] comments@[i]@ == self.comments@[i]@,
            decreases self.comments@.len() - q,
        {
            comments.push(vstd::slice::slice_to_vec(self.comments[q].as_slice()));
            q = q + 1;
        }
        let mut measurements: Vec<(crate::record::Key, Measurements)> = Vec::new();
        let mut q: usize = 0;
        while q < self.measurements.len()
            invariant
                0 <= q <= self.measurements@.len(),
                measurements@.len() == q,
                forall|i: int|
                    0 <= i < q ==> #[trigger] measurements@[i].0 == self.measurements@[i].0
                        && measurements@[i].1@ == self.measurements@[i].1@,
            decreases self.measurements@.len() - q,
        {
            let e: &(crate::record::Key, Measurements) = &self.measurements[q];
            measurements.push((e.0, e.1.duplicate()));
            q = q + 1;
        }
        let r = Record { comments, measurements };
        proof {
            assert(r@.comments =~= self@.comments);
            assert(r@.measurements =~= self@.measurements);
            assert(r@ =~~= self@);
        }
        r
    }
}

impl ProductionAttributes {
    /// Equal attributes, copied field by field.
    pub(crate) fn duplicate_production(&self) -> (r: ProductionAttributes)
        ensures
            r@ == self@,
    {
        let r = ProductionAttributes {
            satellite: vstd::slice::slice_to_vec(self.satellite.as_slice()),
            year: self.year,
            doy: self.doy,
            gzip_compressed: self.gzip_compressed,
        };
        proof {
            assert(r@ =~= self@);
        }
        r
    }
}


/// The standard file name derived from the header alone: the
/// satellite tag, the year of the first observation relative to the
/// century, and its day of year (rounded up past noon); zeros when
/// no first observation is declared.
pub open spec fn spec_filename_from_header(h: HeaderView) -> Seq<u8> {
    let sat5 = crate::production::spec_sat5(h.satellite);
    match h.time_of_first_observation {
        Some(e) => {
            let doy = crate::epoch::spec_day_number(e.year as int, e.month as int, e.day as int)
                - crate::epoch::spec_day_number(e.year as int, 1, 1) + 1 + (
            if crate::epoch::spec_tod_nanos(
                e.hour as int,
                e.minute as int,
                e.second as int,
                e.nanos as int,
            ) >= 43200000000000 {
                1int
            } else {
                0int
            });
            sat5 + crate::text::spec_pad_left(
                crate::text::spec_int_digits(e.year - 2000),
                2,
                48,
            ) + crate::text::spec_pad_left(crate::text::spec_digits(doy as nat), 3, 48)
        },
        None => sat5 + crate::text::spec_pad_left(crate::text::spec_digits(0), 2, 48)
            + crate::text::spec_pad_left(crate::text::spec_digits(0), 3, 48),
    }
}

impl DORIS {
    /// The standardized (uppercase) file name of this data set: from
    /// the name attributes when the file had a standard name, else
    /// derived from the header.
    pub fn standard_filename(&self) -> (r: Vec<u8>)
        requires
            self@.production matches Some(p) ==> 2000 <= p.year <= 2099 && p.doy <= 999,
            self@.production is None ==> (self@.header.time_of_first_observation matches Some(e)
                ==> e.valid()),
        ensures
            match self@.production {
                Some(p) => r@ == spec_format_production(p),
                None => r@ == spec_filename_from_header(self@.header),
            },
    {
        if let Some(p) = &self.production {
            return p.format();
        }
        let slen: usize = self.header.satellite.len();
        let mut out: Vec<u8>;
        if slen >= 5 {
            out = vstd::slice::slice_to_vec(&self.header.satellite.as_slice()[0..5]);
        } else {
            out = vstd::slice::slice_to_vec(self.header.satellite.as_slice());
            let mut i: usize = slen;
            while i < 5
                invariant
                    slen <= i <= 5,
                    out@ =~= self.header.satellite@ + Seq::new((i - slen) as nat, |q: int| 88u8),
                decreases 5 - i,
            {
                out.push(88);
                i = i + 1;
            }
        }
        proof {
            assert(out@ =~= crate::production::spec_sat5(self@.header.satellite));
        }
        match &self.header.time_of_first_observation {
            Some(e) => {
                let yy: i64 = (e.year as i64) - 2000;
                let mut p = crate::text::pad_left(crate::text::fmt_i64(yy), 2, 48);
                out.append(&mut p);
                let dn: i64 = e.day_number();
                let jan1 = Epoch {
                    year: e.year,
                    month: 1,
                    day: 1,
                    hour: 0,
                    minute: 0,
                    second: 0,
                    nanos: 0,
                    time_scale: e.time_scale,
                };
                let dn0: i64 = jan1.day_number();
                let tod: i64 = ((e.hour as i64) * 3600 + (e.minute as i64) * 60 + (
                e.second as i64)) * 1000000000 + (e.nanos as i64);
                let mut doy: i64 = dn - dn0 + 1;
                if tod >= 43200000000000 {
                    doy = doy + 1;
                }
                proof {
                    lemma_doy_bounds(
                        e.year as int,
                        e.month as int,
                        e.day as int,
                    );
                }
                let mut p = crate::text::pad_left(crate::text::fmt_u64(doy as u64), 3, 48);
                out.append(&mut p);
            },
            None => {
                let mut p = crate::text::pad_left(crate::text::fmt_u64(0), 2, 48);
                out.append(&mut p);
                let mut p = crate::text::pad_left(crate::text::fmt_u64(0), 3, 48);
                out.append(&mut p);
            },
        }
        proof {
            assert(out@ =~= spec_filename_from_header(self@.header));
        }
        out
    }

    /// Copies and returns the residual file of ground station
    /// differencing against another file.
    pub fn substract(&self, rhs: &Self) -> (r: Result<DORIS, Error>)
        requires
            spec_record_wf(self@.record),
            spec_record_wf(rhs@.record),
        ensures
            r matches Ok(d) ==> ({
                let msv0 = self@.record.measurements;
                let hist = spec_histogram(msv0, msv0.len() - 1);
                let dom = spec_hist_min(hist, hist.len() as int).0;
                let halfv = Duration {
                    femtoseconds: spec_trunc_half(dom.femtoseconds as int) as i128,
                };
                &&& d@.record.measurements == spec_substract_ms(
                    msv0,
                    rhs@.record.measurements,
                    halfv,
                    msv0.len() as int,
                )
                &&& d@.record.comments == self@.record.comments
                &&& d@.header == self@.header
                &&& d@.production == self@.production
                &&& spec_record_wf(d@.record)
            }),
            (r is Err) == (self@.record.measurements.len() < 2),
            r matches Err(e) ==> e == Error::UndeterminedSamplingRate,
    {
        let mut s = DORIS {
            header: self.header.duplicate(),
            record: self.record.duplicate_record(),
            production: match &self.production {
                Some(p) => Some(p.duplicate_production()),
                None => None,
            },
        };
        match s.substract_mut(rhs) {
            Ok(()) => Ok(s),
            Err(e) => Err(e),
        }
    }

    /// Substracts (in place) another file from this one, keeping a
    /// residual: every observation paired with the temporally
    /// closest matching observation of the other file, within half
    /// the dominant sampling period, becomes their difference;
    /// unpaired observations are dropped, and epochs left without
    /// observations disappear.
    #[verifier::rlimit(100)]
    pub fn substract_mut(&mut self, rhs: &Self) -> (r: Result<(), Error>)
        requires
            spec_record_wf(old(self)@.record),
            spec_record_wf(rhs@.record),
        ensures
            r matches Ok(()) ==> ({
                let msv0 = old(self)@.record.measurements;
                let hist = spec_histogram(msv0, msv0.len() - 1);
                let dom = spec_hist_min(hist, hist.len() as int).0;
                let halfv = Duration {
                    femtoseconds: spec_trunc_half(dom.femtoseconds as int) as i128,
                };
                &&& final(self)@.record.measurements == spec_substract_ms(
                    msv0,
                    rhs@.record.measurements,
                    halfv,
                    msv0.len() as int,
                )
                &&& final(self)@.record.comments == old(self)@.record.comments
                &&& final(self)@.header == old(self)@.header
                &&& final(self)@.production == old(self)@.production
                &&& spec_record_wf(final(self)@.record)
            }),
            (r is Err) == (old(self)@.record.measurements.len() < 2),
            r matches Err(e) ==> e == Error::UndeterminedSamplingRate && final(self)@ == old(
                self,
            )@,
    {
        let dt: Duration = match self.dominant_sampling_period() {
            Some(d) => d,
            None => {
                return Err(Error::UndeterminedSamplingRate);
            },
        };
        let hf: i128 = if dt.femtoseconds >= 0 {
            dt.femtoseconds / 2
        } else if dt.femtoseconds == i128::MIN {
            -85070591730234615865843651857942052864i128
        } else {
            -((-dt.femtoseconds) / 2)
        };
        let half: Duration = Duration::from_femtoseconds(hf);
        proof {
            assert(half.femtoseconds as int == spec_trunc_half(dt.femtoseconds as int));
        }
        let n: usize = self.record.measurements.len();
        let mut new_ms: Vec<(crate::record::Key, Measurements)> = Vec::new();
        let ghost msv = self@.record.measurements;
        let ghost rhsv = rhs@.record.measurements;
        let mut q: usize = 0;
        let ghost mut last_src: int = 0;
        while q < n
            invariant
                0 <= q <= n,
                n == self.record.measurements@.len(),
                self@ == old(self)@,
                spec_record_wf(self@.record),
                spec_record_wf(rhs@.record),
                msv == self@.record.measurements,
                rhsv == rhs@.record.measurements,
                Seq::new(new_ms@.len(), |x: int| (new_ms@[x].0, new_ms@[x].1@))
                    == spec_substract_ms(msv, rhsv, half, q as int),
                new_ms@.len() > 0 ==> 0 <= last_src < q && new_ms@[new_ms@.len() - 1].0 == msv[
                    last_src
                ].0,
                forall|a: int, b: int|
                    0 <= a < b < new_ms@.len() ==> crate::record::spec_key_lt(
                        (#[trigger] new_ms@[a]).0,
                        (#[trigger] new_ms@[b]).0,
                    ),
                forall|a: int|
                    0 <= a < new_ms@.len() ==> ((#[trigger] new_ms@[a]).0.epoch.valid()
                        && new_ms@[a].0.epoch.time_scale == crate::epoch::TimeScale::TAI
                        && spec_meas_wf(new_ms@[a].1@)),
            decreases n - q,
        {
            proof {
                assert(self@.record.measurements[q as int].0 == self.record.measurements@[
                    q as int
                ].0);
                assert(self@.record.measurements[q as int].1 == self.record.measurements@[
                    q as int
                ].1@);
            }
            let key: crate::record::Key = self.record.measurements[q].0;
            let m: &Measurements = &self.record.measurements[q].1;
            let ghost obsv = self@.record.measurements[q as int].1.observations;
            let mut new_obs: Vec<(ObservationKey, Observation)> = Vec::new();
            let nobs: usize = m.observations.len();
            let mut w: usize = 0;
            proof {
                assert(obsv.len() == nobs);
                assert(key == msv[q as int].0);
            }
            while w < nobs
                invariant
                    0 <= w <= nobs,
                    0 <= q < n,
                    n == self.record.measurements@.len(),
                    nobs == m.observations@.len(),
                    m == &self.record.measurements@[q as int].1,
                    obsv == self@.record.measurements[q as int].1.observations,
                    msv == self@.record.measurements,
                    rhsv == rhs@.record.measurements,
                    key == msv[q as int].0,
                    spec_record_wf(self@.record),
                    spec_record_wf(rhs@.record),
                    key.epoch.valid(),
                    spec_meas_wf(self@.record.measurements[q as int].1),
                    Seq::new(new_obs@.len(), |x: int| (new_obs@[x].0@, new_obs@[x].1))
                        == spec_sub_obs(obsv, key, rhsv, half, w as int),
                    forall|a: int|
                        0 <= a < new_obs@.len() ==> ((#[trigger] new_obs@[a]).1.value.wf()
                            && new_obs@[a].0.station@.domes.wf()),
                decreases nobs - w,
            {
                proof {
                    assert(self@.record.measurements[q as int].1.observations[w as int]
                        == (m.observations@[w as int].0@, m.observations@[w as int].1));
                }
                let entry: &(ObservationKey, Observation) = &m.observations[w];
                match closest_reference(&entry.0, &key, rhs, half) {
                    Some(reference) => {
                        let value: crate::numeric::Decimal = entry.1.value.sub(reference.value);
                        new_obs.push(
                            (
                                ObservationKey {
                                    station: entry.0.station.duplicate(),
                                    observable: entry.0.observable,
                                },
                                Observation { snr: entry.1.snr, value },
                            ),
                        );
                        proof {
                            assert(new_obs@[new_obs@.len() - 1].0@ =~= obsv[w as int].0);
                            assert(Seq::new(
                                new_obs@.len(),
                                |x: int| (new_obs@[x].0@, new_obs@[x].1),
                            ) =~= spec_sub_obs(obsv, key, rhsv, half, w + 1));
                        }
                    },
                    None => {
                        proof {
                            assert(Seq::new(
                                new_obs@.len(),
                                |x: int| (new_obs@[x].0@, new_obs@[x].1),
                            ) =~= spec_sub_obs(obsv, key, rhsv, half, w + 1));
                        }
                    },
                }
                w = w + 1;
            }
            let ghost subbed = spec_sub_obs(obsv, key, rhsv, half, obsv.len() as int);
            proof {
                assert(Seq::new(new_obs@.len(), |x: int| (new_obs@[x].0@, new_obs@[x].1))
                    == subbed);
                assert(new_obs@.len() == subbed.len());
            }
            if new_obs.len() > 0 {
                let nm = Measurements {
                    flag: m.flag,
                    satellite_clock_offset: m.satellite_clock_offset,
                    observations: new_obs,
                };
                proof {
                    assert(spec_meas_wf(nm@)) by {
                        assert forall|a: int|
                            0 <= a < nm@.observations.len() implies (
                        #[trigger] nm@.observations[a]).1.value.wf()
                            && nm@.observations[a].0.station.domes.wf() by {
                            assert(nm@.observations[a].0 == nm.observations@[a].0@);
                        }
                        assert(nm@.satellite_clock_offset
                            == self@.record.measurements[q as int].1.satellite_clock_offset);
                    }
                    if new_ms@.len() > 0 {
                        assert(crate::record::spec_key_lt(msv[last_src].0, msv[q as int].0));
                    }
                }
                new_ms.push((key, nm));
                proof {
                    last_src = q as int;
                    assert(nm@ =~~= (MeasurementsView {
                        flag: msv[q as int].1.flag,
                        satellite_clock_offset: msv[q as int].1.satellite_clock_offset,
                        observations: subbed,
                    }));
                    assert(Seq::new(new_ms@.len(), |x: int| (new_ms@[x].0, new_ms@[x].1@))
                        =~= spec_substract_ms(msv, rhsv, half, q + 1));
                }
            } else {
                proof {
                    assert(Seq::new(new_ms@.len(), |x: int| (new_ms@[x].0, new_ms@[x].1@))
                        =~= spec_substract_ms(msv, rhsv, half, q + 1));
                }
            }
            q = q + 1;
        }
        self.record.measurements = new_ms;
        proof {
            assert(final(self)@.record.measurements =~= Seq::new(
                self.record.measurements@.len(),
                |i: int| (self.record.measurements@[i].0, self.record.measurements@[i].1@),
            ));
            assert(final(self)@.record.comments =~= old(self)@.record.comments);
        }
        Ok(())
    }
}

/// Day-of-year stays within three digits.
proof fn lemma_doy_bounds(y: int, m: int, d: int)
    requires
        1 <= m <= 12,
        1 <= d <= 31,
        1 <= y <= 9999,
    ensures
        0 <= crate::epoch::spec_day_number(y, m, d) - crate::epoch::spec_day_number(y, 1, 1) + 1,
        crate::epoch::spec_day_number(y, m, d) - crate::epoch::spec_day_number(y, 1, 1) + 2 <= 999,
{
}

/// The temporally closest observation of the other file for the
/// same station and observable, within the half sampling period;
/// later candidates win ties, as the reference scan reads them.
fn closest_reference(
    okey: &ObservationKey,
    key: &crate::record::Key,
    rhs: &DORIS,
    half: Duration,
) -> (r: Option<Observation>)
    requires
        spec_record_wf(rhs@.record),
        key.epoch.valid(),
    ensures
        r == spec_closest_reference(okey@, *key, rhs@.record.measurements, half),
        r matches Some(obs) ==> obs.value.wf(),
{
    let ghost msv = rhs@.record.measurements;
    let ghost init = (None::<Observation>, Duration { femtoseconds: i128::MAX });
    let mut best: Option<Observation> = None;
    let mut min_dt: Duration = Duration::from_femtoseconds(i128::MAX);
    let n: usize = rhs.record.measurements.len();
    let mut q: usize = 0;
    while q < n
        invariant
            0 <= q <= n,
            n == rhs.record.measurements@.len(),
            msv == rhs@.record.measurements,
            spec_record_wf(rhs@.record),
            key.epoch.valid(),
            (best, min_dt) == spec_scan_ms(okey@, *key, msv, half, init, q as int),
            init == (None::<Observation>, Duration { femtoseconds: i128::MAX }),
            best matches Some(obs) ==> obs.value.wf(),
        decreases n - q,
    {
        proof {
            assert(rhs@.record.measurements[q as int].0 == rhs.record.measurements@[q as int].0);
            assert(rhs@.record.measurements[q as int].1 == rhs.record.measurements@[
                q as int
            ].1@);
        }
        let k2: crate::record::Key = rhs.record.measurements[q].0;
        let d: Duration = k2.epoch.diff(&key.epoch);
        proof {
            crate::epoch::lemma_epoch_nanos_bounds(k2.epoch);
            crate::epoch::lemma_epoch_nanos_bounds(key.epoch);
        }
        let dt: Duration = d.abs();
        proof {
            assert(dt == spec_epoch_dist(msv[q as int].0.epoch, key.epoch));
        }
        if dt.le(half) {
            let m2: &Measurements = &rhs.record.measurements[q].1;
            let ghost obsv = msv[q as int].1.observations;
            let ghost st_in = (best, min_dt);
            let mut w: usize = 0;
            let on: usize = m2.observations.len();
            proof {
                assert(obsv.len() == on);
            }
            while w < on
                invariant
                    0 <= w <= on,
                    0 <= q < n,
                    n == rhs.record.measurements@.len(),
                    on == m2.observations@.len(),
                    m2 == &rhs.record.measurements@[q as int].1,
                    obsv == msv[q as int].1.observations,
                    msv == rhs@.record.measurements,
                    spec_record_wf(rhs@.record),
                    (best, min_dt) == spec_scan_obs(okey@, obsv, dt, st_in, w as int),
                    best matches Some(obs) ==> obs.value.wf(),
                decreases on - w,
            {
                let entry: &(ObservationKey, Observation) = &m2.observations[w];
                proof {
                    assert(obsv[w as int] == (entry.0@, entry.1));
                }
                let hit: bool = entry.0 == *okey;
                if hit && dt.le(min_dt) {
                    proof {
                        assert(spec_meas_wf(rhs@.record.measurements[q as int].1));
                        assert(rhs@.record.measurements[q as int].1.observations[w as int].1
                            == m2.observations@[w as int].1);
                    }
                    best = Some(entry.1);
                    min_dt = dt;
                }
                w = w + 1;
            }
        }
        q = q + 1;
    }
    best
}

} // verus!
