//! Request latency metrics.  One record per request id holds the
//! response-latency clock, the processor clock, and one interval per
//! actor that handled the request; the aggregate query averages over
//! the finished records.  The clock itself is the caller's: every entry
//! point takes the reading as a plain value.

use vstd::prelude::*;
use crate::budget::{idx_of, lemma_idx_of};
use crate::json::{lemma_ser_pairs_snoc, ser_pairs};
use crate::text::{chars_of_str, dec_int, dec_nat, push_dec_u64, string_from_chars};

verus! {

/// One interval: when it started, and how long it ran once closed.
pub struct Metric {
    pub start_time: u64,
    pub end_time: Option<u64>,
}

/// The elapsed time between two readings, floored at zero.
pub open spec fn spec_elapsed(start: int, now: int) -> int {
    if now >= start {
        now - start
    } else {
        0
    }
}

impl Metric {
    /// An open interval starting now.
    pub fn new(now: u64) -> (r: Metric)
        ensures
            r.start_time == now,
            r.end_time is None,
    {
        Metric { start_time: now, end_time: None }
    }

    /// Closes the interval at this reading.
    pub fn end(&mut self, now: u64)
        ensures
            final(self).start_time == old(self).start_time,
            final(self).end_time == Some(
                spec_elapsed(old(self).start_time as int, now as int) as u64,
            ),
    {
        let d: u64 = if now >= self.start_time {
            now - self.start_time
        } else {
            0
        };
        self.end_time = Some(d);
    }

    /// Whether the interval has closed.
    pub fn is_done(&self) -> (r: bool)
        ensures
            r == (self.end_time is Some),
    {
        self.end_time.is_some()
    }
}

/// Index of the interval recorded under this actor name, or -1.
pub open spec fn m_idx(ts: Seq<(String, Metric)>, name: Seq<char>) -> int
    decreases ts.len(),
{
    if ts.len() == 0 {
        -1
    } else if ts[0].0@ == name {
        0
    } else {
        let r = m_idx(ts.skip(1), name);
        if r < 0 {
            -1
        } else {
            r + 1
        }
    }
}

pub proof fn lemma_m_idx(ts: Seq<(String, Metric)>, name: Seq<char>)
    ensures
        -1 <= m_idx(ts, name) < ts.len(),
        m_idx(ts, name) >= 0 ==> ts[m_idx(ts, name)].0@ == name,
        m_idx(ts, name) == -1 ==> forall|i: int| 0 <= i < ts.len() ==> (#[trigger] ts[i]).0@ != name,
        forall|i: int| 0 <= i < m_idx(ts, name) ==> (#[trigger] ts[i]).0@ != name,
    decreases ts.len(),
{
    if ts.len() > 0 && ts[0].0@ != name {
        lemma_m_idx(ts.skip(1), name);
        assert(forall|i: int| 1 <= i < ts.len() ==> #[trigger] ts[i] == ts.skip(1)[i - 1]);
    }
}

/// The clocks of one request: response latency, processor latency, and
/// one interval per actor that touched the request.
pub struct StreamMetrics {
    pub id: usize,
    pub response_time: Metric,
    pub real_time: Metric,
    pub thread_times: Vec<(String, Metric)>,
}

/// A record is complete when its response went out and every actor
/// interval on it has closed.
pub open spec fn sm_done(sm: StreamMetrics) -> bool {
    &&& sm.response_time.end_time is Some
    &&& forall|j: int|
        0 <= j < sm.thread_times@.len() ==> (#[trigger] sm.thread_times@[j]).1.end_time is Some
}

impl StreamMetrics {
    /// A fresh record for a request arriving now.
    pub fn new(id: usize, now: u64) -> (r: StreamMetrics)
        ensures
            r.id == id,
            r.response_time == (Metric { start_time: now, end_time: None::<u64> }),
            r.real_time == (Metric { start_time: now, end_time: None::<u64> }),
            r.thread_times@ == Seq::<(String, Metric)>::empty(),
    {
        StreamMetrics {
            id,
            response_time: Metric::new(now),
            real_time: Metric::new(now),
            thread_times: Vec::new(),
        }
    }

    /// Opens (or reopens) the interval for one actor.
    pub fn thread_start(&mut self, name: String, now: u64)
        ensures
            final(self).id == old(self).id,
            final(self).response_time == old(self).response_time,
            final(self).real_time == old(self).real_time,
            ({
                let ts = old(self).thread_times@;
                let k = m_idx(ts, name@);
                if k >= 0 {
                    final(self).thread_times@ == ts.update(
                        k,
                        (name, Metric { start_time: now, end_time: None::<u64> }),
                    )
                } else {
                    final(self).thread_times@ == ts.push(
                        (name, Metric { start_time: now, end_time: None::<u64> }),
                    )
                }
            }),
    {
        proof {
            lemma_m_idx(self.thread_times@, name@);
        }
        let n = self.thread_times.len();
        let mut i: usize = 0;
        while i < n
            invariant
                n == self.thread_times@.len(),
                i <= n,
                self.id == old(self).id,
                self.response_time == old(self).response_time,
                self.real_time == old(self).real_time,
                self.thread_times == old(self).thread_times,
                forall|j: int| 0 <= j < i ==> (#[trigger] self.thread_times@[j]).0@ != name@,
            decreases n - i,
        {
            let hit = {
                let e = &self.thread_times[i];
                e.0 == name
            };
            if hit {
                proof {
                    lemma_m_idx(self.thread_times@, name@);
                    let kk = m_idx(self.thread_times@, name@);
                    assert(self.thread_times@[i as int].0@ == name@);
                    if kk == -1 {
                        assert(false);
                    } else if kk < i {
                        assert(self.thread_times@[kk].0@ == name@);
                        assert(false);
                    } else if kk > i {
                        assert(self.thread_times@[i as int].0@ != name@);
                        assert(false);
                    }
                }
                self.thread_times[i] = (name, Metric::new(now));
                proof {
                    let ts = old(self).thread_times@;
                    let k = m_idx(ts, name@);
                    assert(final(self).thread_times@ =~= ts.update(
                        k,
                        (name, Metric { start_time: now, end_time: None::<u64> }),
                    ));
                }
                return ;
            }
            i = i + 1;
        }
        self.thread_times.push((name, Metric::new(now)));
    }

    /// Closes the interval for one actor; an unknown name changes
    /// nothing.
    pub fn thread_end(&mut self, name: &String, now: u64)
        ensures
            final(self).id == old(self).id,
            final(self).response_time == old(self).response_time,
            final(self).real_time == old(self).real_time,
            ({
                let ts = old(self).thread_times@;
                let k = m_idx(ts, name@);
                if k >= 0 {
                    final(self).thread_times@ == ts.update(
                        k,
                        (
                            ts[k].0,
                            Metric {
                                start_time: ts[k].1.start_time,
                                end_time: Some(
                                    spec_elapsed(ts[k].1.start_time as int, now as int) as u64,
                                ),
                            },
                        ),
                    )
                } else {
                    final(self).thread_times@ == ts
                }
            }),
    {
        proof {
            lemma_m_idx(self.thread_times@, name@);
        }
        let n = self.thread_times.len();
        let mut i: usize = 0;
        while i < n
            invariant
                n == self.thread_times@.len(),
                i <= n,
                self.id == old(self).id,
                self.response_time == old(self).response_time,
                self.real_time == old(self).real_time,
                self.thread_times == old(self).thread_times,
                forall|j: int| 0 <= j < i ==> (#[trigger] self.thread_times@[j]).0@ != name@,
            decreases n - i,
        {
            let hit = {
                let e = &self.thread_times[i];
                e.0 == *name
            };
            if hit {
                proof {
                    lemma_m_idx(self.thread_times@, name@);
                    let kk = m_idx(self.thread_times@, name@);
                    assert(self.thread_times@[i as int].0@ == name@);
                    if kk == -1 {
                        assert(false);
                    } else if kk < i {
                        assert(self.thread_times@[kk].0@ == name@);
                        assert(false);
                    } else if kk > i {
                        assert(self.thread_times@[i as int].0@ != name@);
                        assert(false);
                    }
                }
                self.thread_times[i].1.end(now);
                proof {
                    let ts = old(self).thread_times@;
                    let k = m_idx(ts, name@);
                    assert(final(self).thread_times@ =~= ts.update(
                        k,
                        (
                            ts[k].0,
                            Metric {
                                start_time: ts[k].1.start_time,
                                end_time: Some(
                                    spec_elapsed(ts[k].1.start_time as int, now as int) as u64,
                                ),
                            },
                        ),
                    ));
                }
                return ;
            }
            i = i + 1;
        }
    }

    /// Marks the response as sent.
    pub fn stream_close(&mut self, now: u64)
        ensures
            final(self).id == old(self).id,
            final(self).thread_times == old(self).thread_times,
            final(self).real_time == old(self).real_time,
            final(self).response_time.start_time == old(self).response_time.start_time,
            final(self).response_time.end_time == Some(
                spec_elapsed(old(self).response_time.start_time as int, now as int) as u64,
            ),
    {
        self.response_time.end(now);
    }

    /// Whether the record is complete.
    pub fn is_done(&self) -> (r: bool)
        ensures
            r == sm_done(*self),
    {
        if !self.response_time.is_done() {
            return false;
        }
        let n = self.thread_times.len();
        let mut i: usize = 0;
        while i < n
            invariant
                n == self.thread_times@.len(),
                i <= n,
                forall|j: int| 0 <= j < i ==> (#[trigger] self.thread_times@[j]).1.end_time is Some,
            decreases n - i,
        {
            let open_interval = {
                let e = &self.thread_times[i];
                e.1.end_time.is_none()
            };
            if open_interval {
                return false;
            }
            i = i + 1;
        }
        true
    }
}

/// The metrics actor's whole state: the startup stamp, the next
/// request id, and one record per request, stored at its id.
pub struct MetricsState {
    pub startup: Option<u64>,
    pub next_metric_id: usize,
    pub streams: Vec<StreamMetrics>,
}

/// Ids are handed out in order, and each record sits at its own id.
pub open spec fn ms_wf(ms: MetricsState) -> bool {
    &&& ms.next_metric_id == ms.streams@.len()
    &&& forall|i: int| 0 <= i < ms.streams@.len() ==> (#[trigger] ms.streams@[i]).id == i
}

/// A record passes into the aggregate when both of its clocks closed.
pub open spec fn sm_counted(sm: StreamMetrics) -> bool {
    sm.response_time.end_time is Some && sm.real_time.end_time is Some
}

/// Sum capped at the machine word.
pub open spec fn sat_u64(x: int) -> int {
    if x > u64::MAX {
        u64::MAX as int
    } else if x < 0 {
        0
    } else {
        x
    }
}

/// Sum of the closed response clocks of the counted records.
pub open spec fn resp_sum(ss: Seq<StreamMetrics>) -> int
    decreases ss.len(),
{
    if ss.len() == 0 {
        0
    } else {
        sat_u64(
            resp_sum(ss.drop_last()) + (if sm_counted(ss.last()) {
                ss.last().response_time.end_time->0 as int
            } else {
                0
            }),
        )
    }
}

/// Sum of the closed processor clocks of the counted records.
pub open spec fn cpu_sum(ss: Seq<StreamMetrics>) -> int
    decreases ss.len(),
{
    if ss.len() == 0 {
        0
    } else {
        sat_u64(
            cpu_sum(ss.drop_last()) + (if sm_counted(ss.last()) {
                ss.last().real_time.end_time->0 as int
            } else {
                0
            }),
        )
    }
}

/// How many records are counted into the aggregate.
pub open spec fn counted_count(ss: Seq<StreamMetrics>) -> int
    decreases ss.len(),
{
    if ss.len() == 0 {
        0
    } else {
        counted_count(ss.drop_last()) + (if sm_counted(ss.last()) {
            1int
        } else {
            0int
        })
    }
}

impl MetricsState {
    /// A fresh actor state.
    pub fn new() -> (r: MetricsState)
        ensures
            r.startup is None,
            r.next_metric_id == 0,
            r.streams@ == Seq::<StreamMetrics>::empty(),
            ms_wf(r),
    {
        let r = MetricsState { startup: None, next_metric_id: 0, streams: Vec::new() };
        proof {
            assert(r.streams@ =~= Seq::<StreamMetrics>::empty());
        }
        r
    }

    /// Hands out the next request id.
    pub fn next_id(&mut self) -> (r: usize)
        requires
            old(self).next_metric_id < usize::MAX,
        ensures
            r == old(self).next_metric_id,
            final(self).next_metric_id == old(self).next_metric_id + 1,
            final(self).streams == old(self).streams,
            final(self).startup == old(self).startup,
    {
        let out = self.next_metric_id;
        self.next_metric_id = self.next_metric_id + 1;
        out
    }

    /// Stamps the startup time.
    pub fn begin_startup(&mut self, now: u64)
        ensures
            final(self).startup == Some(now),
            final(self).next_metric_id == old(self).next_metric_id,
            final(self).streams == old(self).streams,
    {
        self.startup = Some(now);
    }

    /// Opens the record for a fresh request and hands its id out.
    pub fn start(&mut self, now: u64) -> (r: usize)
        requires
            old(self).next_metric_id < usize::MAX,
        ensures
            r == old(self).next_metric_id,
            final(self).next_metric_id == old(self).next_metric_id + 1,
            final(self).streams@ == old(self).streams@.push(final(self).streams@.last()),
            final(self).streams@.last().id == r,
            final(self).streams@.last().response_time == (Metric {
                start_time: now,
                end_time: None::<u64>,
            }),
            final(self).streams@.last().real_time == (Metric {
                start_time: now,
                end_time: None::<u64>,
            }),
            final(self).streams@.last().thread_times@ == Seq::<(String, Metric)>::empty(),
            final(self).startup == old(self).startup,
            ms_wf(*old(self)) ==> ms_wf(*final(self)),
    {
        let id = self.next_id();
        let sm = StreamMetrics::new(id, now);
        self.streams.push(sm);
        proof {
            assert(final(self).streams@ =~= old(self).streams@.push(final(self).streams@.last()));
        }
        id
    }

    /// Opens the interval of one actor on a request's record; an
    /// unknown id changes nothing.
    pub fn arrive(&mut self, id: usize, source: String, now: u64)
        ensures
            final(self).startup == old(self).startup,
            final(self).next_metric_id == old(self).next_metric_id,
            id >= old(self).streams@.len() ==> final(self).streams == old(self).streams,
            id < old(self).streams@.len() ==> ({
                let sm = old(self).streams@[id as int];
                let ts = sm.thread_times@;
                let k = m_idx(ts, source@);
                &&& final(self).streams@.len() == old(self).streams@.len()
                &&& (forall|j: int|
                    0 <= j < old(self).streams@.len() && j != id ==> final(self).streams@[j]
                        == #[trigger] old(self).streams@[j])
                &&& final(self).streams@[id as int].id == sm.id
                &&& final(self).streams@[id as int].response_time == sm.response_time
                &&& final(self).streams@[id as int].real_time == sm.real_time
                &&& final(self).streams@[id as int].thread_times@ == (if k >= 0 {
                    ts.update(k, (source, Metric { start_time: now, end_time: None::<u64> }))
                } else {
                    ts.push((source, Metric { start_time: now, end_time: None::<u64> }))
                })
            }),
    {
        if id < self.streams.len() {
            self.streams[id].thread_start(source, now);
        }
    }

    /// Marks a request's response as sent and closes its processor
    /// clock once the record completes; an unknown id changes nothing.
    pub fn response_sent(&mut self, id: usize, now: u64)
        ensures
            final(self).startup == old(self).startup,
            final(self).next_metric_id == old(self).next_metric_id,
            id >= old(self).streams@.len() ==> final(self).streams == old(self).streams,
            id < old(self).streams@.len() ==> ({
                let sm = old(self).streams@[id as int];
                let closed = Metric {
                    start_time: sm.response_time.start_time,
                    end_time: Some(
                        spec_elapsed(sm.response_time.start_time as int, now as int) as u64,
                    ),
                };
                &&& final(self).streams@.len() == old(self).streams@.len()
                &&& (forall|j: int|
                    0 <= j < old(self).streams@.len() && j != id ==> final(self).streams@[j]
                        == #[trigger] old(self).streams@[j])
                &&& final(self).streams@[id as int].id == sm.id
                &&& final(self).streams@[id as int].thread_times == sm.thread_times
                &&& final(self).streams@[id as int].response_time == closed
                &&& final(self).streams@[id as int].real_time == (if sm_done(
                    StreamMetrics { response_time: closed, ..sm },
                ) {
                    Metric {
                        start_time: sm.real_time.start_time,
                        end_time: Some(
                            spec_elapsed(sm.real_time.start_time as int, now as int) as u64,
                        ),
                    }
                } else {
                    sm.real_time
                })
            }),
    {
        if id < self.streams.len() {
            self.streams[id].stream_close(now);
            let done = self.streams[id].is_done();
            if done {
                self.streams[id].real_time.end(now);
            }
        }
    }

    /// Closes the interval of one actor on a request's record, and the
    /// processor clock once the record completes; an unknown id changes
    /// nothing.
    pub fn end(&mut self, id: usize, source: &String, now: u64)
        ensures
            final(self).startup == old(self).startup,
            final(self).next_metric_id == old(self).next_metric_id,
            id >= old(self).streams@.len() ==> final(self).streams == old(self).streams,
            id < old(self).streams@.len() ==> ({
                let sm = old(self).streams@[id as int];
                let ts = sm.thread_times@;
                let k = m_idx(ts, source@);
                let fin = final(self).streams@[id as int];
                &&& final(self).streams@.len() == old(self).streams@.len()
                &&& (forall|j: int|
                    0 <= j < old(self).streams@.len() && j != id ==> final(self).streams@[j]
                        == #[trigger] old(self).streams@[j])
                &&& fin.id == sm.id
                &&& fin.response_time == sm.response_time
                &&& fin.thread_times@ == (if k >= 0 {
                    ts.update(
                        k,
                        (
                            ts[k].0,
                            Metric {
                                start_time: ts[k].1.start_time,
                                end_time: Some(
                                    spec_elapsed(ts[k].1.start_time as int, now as int) as u64,
                                ),
                            },
                        ),
                    )
                } else {
                    ts
                })
                &&& fin.real_time == (if sm.response_time.end_time is Some && (forall|j: int|
                    0 <= j < fin.thread_times@.len() ==> (#[trigger] fin.thread_times@[j]).1.end_time
                        is Some) {
                    Metric {
                        start_time: sm.real_time.start_time,
                        end_time: Some(
                            spec_elapsed(sm.real_time.start_time as int, now as int) as u64,
                        ),
                    }
                } else {
                    sm.real_time
                })
            }),
    {
        if id < self.streams.len() {
            self.streams[id].thread_end(source, now);
            let done = self.streams[id].is_done();
            if done {
                self.streams[id].real_time.end(now);
            }
        }
    }

    /// The aggregate: total closed response and processor time over
    /// the completed records, averaged across those records alone.
    pub fn query(&self) -> (r: (u64, u64))
        ensures
            ({
                let c = counted_count(self.streams@);
                if c == 0 {
                    r == (0u64, 0u64)
                } else {
                    r.0 as int == resp_sum(self.streams@) / c && r.1 as int == cpu_sum(
                        self.streams@,
                    ) / c
                }
            }),
    {
        let n = self.streams.len();
        let mut rs: u64 = 0;
        let mut cs: u64 = 0;
        let mut cnt: u64 = 0;
        let mut i: usize = 0;
        while i < n
            invariant
                n == self.streams@.len(),
                i <= n,
                cnt as int == counted_count(self.streams@.take(i as int)),
                cnt <= i,
                rs as int == resp_sum(self.streams@.take(i as int)),
                cs as int == cpu_sum(self.streams@.take(i as int)),
            decreases n - i,
        {
            let sm = &self.streams[i];
            proof {
                assert(self.streams@.take(i + 1).drop_last() =~= self.streams@.take(i as int));
                assert(self.streams@.take(i + 1).last() == self.streams@[i as int]);
            }
            let counted = sm.response_time.is_done() && sm.real_time.is_done();
            if counted {
                let rd = match sm.response_time.end_time {
                    Some(d) => d,
                    None => 0,
                };
                let cd = match sm.real_time.end_time {
                    Some(d) => d,
                    None => 0,
                };
                rs = if rs <= u64::MAX - rd {
                    rs + rd
                } else {
                    u64::MAX
                };
                cs = if cs <= u64::MAX - cd {
                    cs + cd
                } else {
                    u64::MAX
                };
                cnt = cnt + 1;
            }
            i = i + 1;
        }
        proof {
            assert(self.streams@.take(n as int) =~= self.streams@);
        }
        if cnt == 0 {
            return (0, 0);
        }
        (rs / cnt, cs / cnt)
    }
}

/// The views of an actor-latency accumulator: per actor name, how many
/// closed intervals were counted and their total time.
pub open spec fn agg_views(v: Seq<(String, u64, u64)>) -> Seq<(Seq<char>, int, int)> {
    v.map_values(|e: (String, u64, u64)| (e.0@, e.1 as int, e.2 as int))
}

/// Counts one closed interval into the accumulator.
pub open spec fn agg_add(agg: Seq<(Seq<char>, int, int)>, name: Seq<char>, d: int) -> Seq<
    (Seq<char>, int, int),
> {
    let k = idx_of(agg, name);
    if k >= 0 {
        agg.update(k, (name, sat_u64(agg[k].1 + 1), sat_u64(agg[k].2 + d)))
    } else {
        agg.push((name, 1, d))
    }
}

/// The accumulator after the first `j` intervals of one record.
pub open spec fn agg_thread(
    agg: Seq<(Seq<char>, int, int)>,
    ts: Seq<(String, Metric)>,
    j: int,
) -> Seq<(Seq<char>, int, int)>
    decreases j,
{
    if j <= 0 {
        agg
    } else {
        let a = agg_thread(agg, ts, j - 1);
        match ts[j - 1].1.end_time {
            Some(d) => agg_add(a, ts[j - 1].0@, d as int),
            None => a,
        }
    }
}

/// The accumulator over the first `k` records; only counted records
/// contribute.
pub open spec fn agg_streams(ss: Seq<StreamMetrics>, k: int) -> Seq<(Seq<char>, int, int)>
    decreases k,
{
    if k <= 0 {
        Seq::<(Seq<char>, int, int)>::empty()
    } else {
        let a = agg_streams(ss, k - 1);
        if sm_counted(ss[k - 1]) {
            agg_thread(a, ss[k - 1].thread_times@, ss[k - 1].thread_times@.len() as int)
        } else {
            a
        }
    }
}

/// The per-actor averages an accumulator denotes.
pub open spec fn avgs_of(agg: Seq<(Seq<char>, int, int)>) -> Seq<(Seq<char>, int)> {
    agg.map_values(
        |e: (Seq<char>, int, int)|
            (
                e.0,
                if e.1 > 0 {
                    e.2 / e.1
                } else {
                    0
                },
            ),
    )
}

/// The views of the rendered averages.
pub open spec fn avg_views(v: Seq<(String, u64)>) -> Seq<(Seq<char>, int)> {
    v.map_values(|e: (String, u64)| (e.0@, e.1 as int))
}

/// Counts one closed interval into the running accumulator.
fn agg_record(agg: &mut Vec<(String, u64, u64)>, name: &String, d: u64)
    ensures
        agg_views(final(agg)@) == agg_add(agg_views(old(agg)@), name@, d as int),
{
    proof {
        lemma_idx_of(agg_views(agg@), name@);
    }
    let n = agg.len();
    let mut i: usize = 0;
    while i < n
        invariant
            n == agg@.len(),
            i <= n,
            agg == old(agg),
            forall|j: int| 0 <= j < i ==> (#[trigger] agg_views(agg@)[j]).0 != name@,
        decreases n - i,
    {
        let hit = {
            let e = &agg[i];
            e.0 == *name
        };
        if hit {
            proof {
                lemma_idx_of(agg_views(agg@), name@);
                let kk = idx_of(agg_views(agg@), name@);
                assert(agg_views(agg@)[i as int].0 == name@);
                if kk == -1 {
                    assert(false);
                } else if kk < i {
                    assert(agg_views(agg@)[kk].0 == name@);
                    assert(false);
                } else if kk > i {
                    assert(agg_views(agg@)[i as int].0 != name@);
                    assert(false);
                }
            }
            let count = agg[i].1;
            let total = agg[i].2;
            let new_count: u64 = if count < u64::MAX {
                count + 1
            } else {
                u64::MAX
            };
            let new_total: u64 = if total <= u64::MAX - d {
                total + d
            } else {
                u64::MAX
            };
            agg[i] = (name.clone(), new_count, new_total);
            proof {
                assert(agg_views(agg@) =~= agg_add(agg_views(old(agg)@), name@, d as int));
            }
            return ;
        }
        i = i + 1;
    }
    agg.push((name.clone(), 1, d));
    proof {
        assert(agg_views(agg@) =~= agg_add(agg_views(old(agg)@), name@, d as int));
    }
}

impl MetricsState {
    /// The per-actor latency averages over the counted records: for
    /// each actor name, the mean of its closed intervals.
    pub fn thread_latency_averages(&self) -> (r: Vec<(String, u64)>)
        ensures
            avg_views(r@) == avgs_of(
                agg_streams(self.streams@, self.streams@.len() as int),
            ),
    {
        let ghost ss = self.streams@;
        let mut agg: Vec<(String, u64, u64)> = Vec::new();
        proof {
            assert(agg_views(agg@) =~= Seq::<(Seq<char>, int, int)>::empty());
        }
        let n = self.streams.len();
        let mut i: usize = 0;
        while i < n
            invariant
                n == ss.len(),
                ss == self.streams@,
                i <= n,
                agg_views(agg@) == agg_streams(ss, i as int),
            decreases n - i,
        {
            let sm = &self.streams[i];
            let counted = sm.response_time.is_done() && sm.real_time.is_done();
            if counted {
                let ghost base = agg_views(agg@);
                let ghost ts = sm.thread_times@;
                let m = sm.thread_times.len();
                let mut j: usize = 0;
                while j < m
                    invariant
                        ss == self.streams@,
                        i < ss.len(),
                        sm == &self.streams[i as int],
                        ts == sm.thread_times@,
                        m == ts.len(),
                        j <= m,
                        agg_views(agg@) == agg_thread(base, ts, j as int),
                    decreases m - j,
                {
                    let entry = &sm.thread_times[j];
                    match entry.1.end_time {
                        Some(d) => {
                            agg_record(&mut agg, &entry.0, d);
                        }
                        None => {}
                    }
                    j = j + 1;
                }
            }
            i = i + 1;
        }
        let mut out: Vec<(String, u64)> = Vec::new();
        let ghost final_agg = agg_views(agg@);
        let an = agg.len();
        let mut k: usize = 0;
        while k < an
            invariant
                an == agg@.len(),
                final_agg == agg_views(agg@),
                k <= an,
                out@.len() == k,
                forall|t: int|
                    0 <= t < k ==> #[trigger] avg_views(out@)[t] == avgs_of(final_agg)[t],
            decreases an - k,
        {
            let e = &agg[k];
            let avg: u64 = if e.1 > 0 {
                e.2 / e.1
            } else {
                0
            };
            let ghost prev = out@;
            out.push((e.0.clone(), avg));
            proof {
                assert(final_agg[k as int] == (
                    agg@[k as int].0@,
                    agg@[k as int].1 as int,
                    agg@[k as int].2 as int,
                ));
                assert(avg_views(out@)[k as int] == (e.0@, avg as int));
                assert(avgs_of(final_agg)[k as int] == (
                    final_agg[k as int].0,
                    if final_agg[k as int].1 > 0 {
                        final_agg[k as int].2 / final_agg[k as int].1
                    } else {
                        0int
                    },
                ));
                assert forall|t: int| 0 <= t < k + 1 implies #[trigger] avg_views(out@)[t]
                    == avgs_of(final_agg)[t] by {
                    if t < k {
                        assert(out@[t] == prev[t]);
                        assert(avg_views(out@)[t] == (out@[t].0@, out@[t].1 as int));
                        assert(avg_views(prev)[t] == (prev[t].0@, prev[t].1 as int));
                    }
                }
            }
            k = k + 1;
        }
        proof {
            assert(avg_views(out@) =~= avgs_of(final_agg));
        }
        out
    }
}

/// The averages as the triples the pair renderer takes.
pub open spec fn avg_triples(v: Seq<(String, u64)>) -> Seq<(Seq<char>, int, int)> {
    v.map_values(|e: (String, u64)| (e.0@, e.1 as int, 0int))
}

/// Renders the aggregate as the telemetry reply body.
pub fn query_json(avg_response: u64, avg_processor: u64, thread_avgs: &Vec<(String, u64)>) -> (r:
    String)
    ensures
        r@ == "{\"average_response_latency\":"@ + dec_nat(avg_response as nat)
            + ",\"average_processor_latency\":"@ + dec_nat(avg_processor as nat)
            + ",\"average_thread_latencies\":{"@ + ser_pairs(avg_triples(thread_avgs@), true)
            + "}}"@,
{
    let mut out: Vec<char> = Vec::new();
    let mut lit = chars_of_str("{\"average_response_latency\":");
    out.append(&mut lit);
    push_dec_u64(avg_response, &mut out);
    let mut lit2 = chars_of_str(",\"average_processor_latency\":");
    out.append(&mut lit2);
    push_dec_u64(avg_processor, &mut out);
    let mut lit3 = chars_of_str(",\"average_thread_latencies\":{");
    out.append(&mut lit3);
    let ghost head = "{\"average_response_latency\":"@ + dec_nat(avg_response as nat)
        + ",\"average_processor_latency\":"@ + dec_nat(avg_processor as nat)
        + ",\"average_thread_latencies\":{"@;
    let n = thread_avgs.len();
    let mut i: usize = 0;
    while i < n
        invariant
            n == thread_avgs@.len(),
            i <= n,
            out@ == head + ser_pairs(avg_triples(thread_avgs@).take(i as int), true),
        decreases n - i,
    {
        if i > 0 {
            out.push(',');
        }
        out.push('"');
        let e = &thread_avgs[i];
        crate::json::push_escaped(&mut out, e.0.as_str());
        out.push('"');
        out.push(':');
        push_dec_u64(e.1, &mut out);
        proof {
            let es = avg_triples(thread_avgs@);
            lemma_ser_pairs_snoc(es.take(i as int), es[i as int], true);
            assert(es.take(i as int).push(es[i as int]) =~= es.take(i + 1));
            assert(dec_int(e.1 as int) == dec_nat(e.1 as nat));
            assert(out@ =~= head + ser_pairs(es.take(i + 1), true));
        }
        i = i + 1;
    }
    let mut lit4 = chars_of_str("}}");
    out.append(&mut lit4);
    proof {
        assert(avg_triples(thread_avgs@).take(n as int) =~= avg_triples(thread_avgs@));
        assert(out@ =~= head + ser_pairs(avg_triples(thread_avgs@), true) + "}}"@);
    }
    string_from_chars(&out)
}

} // verus!
