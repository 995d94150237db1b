//! Per-node health: a smoothed latency and a penalty window, fed by the
//! outcome of every attempt and read by every routing decision.

use crate::routing::NodeRef;
use crate::topology::{ClusterData, Node};
use std::collections::HashMap;
use vstd::prelude::*;

verus! {

/// The parameters of latency awareness. Latencies are in microseconds, times
/// in milliseconds.
#[derive(Clone, Copy, Debug)]
pub struct LatencyAwareness {
    /// A node is slow once its average exceeds this percentage of the lowest
    /// average of its tier.
    pub exclusion_threshold_percent: u64,
    /// How long a measurement counts, and how long a penalty lasts.
    pub cooldown: u64,
    /// The number of measurements below which an average says nothing.
    pub minimum_measurements: u64,
    /// The share of the old average in the new one, in percent; a value
    /// above 100 counts as 100.
    pub history_weight_percent: u8,
    /// The number of failures in a row that starts a penalty.
    pub failure_limit: u32,
    /// The number of successes in a row that ends a penalty.
    pub recovery_successes: u32,
}

/// What is known of one node's health.
#[derive(Clone, Copy, Debug)]
pub struct LatencyStat {
    pub average: u64,
    pub measurements: u64,
    pub last_update: u64,
    pub successes_in_a_row: u32,
    pub failures_in_a_row: u32,
    pub penalized_until: Option<u64>,
}

/// `value + 1`, held at the largest `u64`.
pub open spec fn next_u64(value: u64) -> u64 {
    if value == u64::MAX {
        value
    } else {
        (value + 1) as u64
    }
}

/// `value + 1`, held at the largest `u32`.
pub open spec fn next_u32(value: u32) -> u32 {
    if value == u32::MAX {
        value
    } else {
        (value + 1) as u32
    }
}

/// `now + span`, held at the largest `u64`.
pub open spec fn deadline(now: u64, span: u64) -> u64 {
    if now + span > u64::MAX {
        u64::MAX
    } else {
        (now + span) as u64
    }
}

impl LatencyAwareness {
    /// The weight of the old average, at most 100.
    pub open spec fn weight(&self) -> int {
        if self.history_weight_percent > 100 {
            100
        } else {
            self.history_weight_percent as int
        }
    }

    /// The average after `sample`: the weighted mean of the old average and
    /// the sample, rounded down.
    pub open spec fn blend(&self, average: u64, sample: u64) -> int {
        (average * self.weight() + sample * (100 - self.weight())) / 100
    }

    /// The weighted mean lies between the two values that it is made of.
    pub proof fn lemma_blend_bounds(&self, average: u64, sample: u64)
        ensures
            self.blend(average, sample) <= if average >= sample {
                average
            } else {
                sample
            },
            self.blend(average, sample) >= if average <= sample {
                average
            } else {
                sample
            },
    {
        let w = self.weight();
        let high: int = if average >= sample {
            average as int
        } else {
            sample as int
        };
        let low: int = if average <= sample {
            average as int
        } else {
            sample as int
        };
        assert(average * w + sample * (100 - w) <= high * 100) by (nonlinear_arith)
            requires
                0 <= w <= 100,
                average <= high,
                sample <= high,
        ;
        assert(average * w + sample * (100 - w) >= low * 100) by (nonlinear_arith)
            requires
                0 <= w <= 100,
                average >= low,
                sample >= low,
        ;
    }

    /// The statistic after a measurement of `sample` microseconds at `now`.
    pub open spec fn with_sample(&self, stat: Option<LatencyStat>, sample: u64, now: u64) -> LatencyStat {
        match stat {
            None => LatencyStat {
                average: sample,
                measurements: 1,
                last_update: now,
                successes_in_a_row: 0,
                failures_in_a_row: 0,
                penalized_until: None,
            },
            Some(s) => LatencyStat {
                average: if s.measurements == 0 {
                    sample
                } else {
                    self.blend(s.average, sample) as u64
                },
                measurements: next_u64(s.measurements),
                last_update: now,
                ..s
            },
        }
    }

    /// The statistic of a node of which no latency was observed at `now`:
    /// the one it has, or one without measurements.
    pub open spec fn unmeasured(&self, stat: Option<LatencyStat>, now: u64) -> LatencyStat {
        match stat {
            Some(s) => s,
            None => LatencyStat {
                average: 0,
                measurements: 0,
                last_update: now,
                successes_in_a_row: 0,
                failures_in_a_row: 0,
                penalized_until: None,
            },
        }
    }

    /// The statistic after a success: the latency is folded in, and enough
    /// successes in a row end a penalty.
    pub open spec fn after_success(&self, stat: Option<LatencyStat>, sample: u64, now: u64) -> LatencyStat {
        let s = self.with_sample(stat, sample, now);
        let successes = next_u32(s.successes_in_a_row);
        LatencyStat {
            successes_in_a_row: successes,
            failures_in_a_row: 0,
            penalized_until: if successes >= self.recovery_successes {
                None
            } else {
                s.penalized_until
            },
            ..s
        }
    }

    /// The statistic after a failure that counts: the latency is folded in,
    /// unless it is zero, which stands for a latency that was not observed,
    /// and enough failures in a row start a penalty of one cooldown.
    pub open spec fn after_failure(&self, stat: Option<LatencyStat>, sample: u64, now: u64) -> LatencyStat {
        let s = if sample == 0 {
            self.unmeasured(stat, now)
        } else {
            self.with_sample(stat, sample, now)
        };
        let failures = next_u32(s.failures_in_a_row);
        LatencyStat {
            successes_in_a_row: 0,
            failures_in_a_row: failures,
            penalized_until: if failures >= self.failure_limit {
                Some(deadline(now, self.cooldown))
            } else {
                s.penalized_until
            },
            ..s
        }
    }

    /// Whether `stat` still says something at `now`: it rests on enough
    /// measurements, the last of them less than one cooldown old.
    pub open spec fn is_reliable(&self, stat: LatencyStat, now: u64) -> bool {
        stat.measurements >= self.minimum_measurements && now - stat.last_update < self.cooldown
    }

    /// Whether a node with `stat` is slow against `floor`, the lowest
    /// reliable average of its tier.
    pub open spec fn is_slow(&self, stat: LatencyStat, floor: Option<u64>, now: u64) -> bool {
        self.is_reliable(stat, now) && (floor matches Some(f) && stat.average * 100 > f
            * self.exclusion_threshold_percent)
    }

    /// Whether a node with `stat` goes behind the healthy nodes of its tier
    /// at `now`: it is under a penalty, or slow.
    pub open spec fn is_deprioritized(&self, stat: LatencyStat, floor: Option<u64>, now: u64) -> bool {
        (stat.penalized_until matches Some(until) && now < until) || self.is_slow(stat, floor, now)
    }

    fn fold(&self, stat: Option<LatencyStat>, sample: u64, now: u64) -> (r: LatencyStat)
        ensures
            r == self.with_sample(stat, sample, now),
    {
        match stat {
            None => LatencyStat {
                average: sample,
                measurements: 1,
                last_update: now,
                successes_in_a_row: 0,
                failures_in_a_row: 0,
                penalized_until: None,
            },
            Some(s) => {
                let average = if s.measurements == 0 {
                    sample
                } else {
                    let weight: u128 = if self.history_weight_percent > 100 {
                        100
                    } else {
                        self.history_weight_percent as u128
                    };
                    proof {
                        self.lemma_blend_bounds(s.average, sample);
                        assert(s.average * weight <= u64::MAX * 100) by (nonlinear_arith)
                            requires
                                s.average <= u64::MAX,
                                0 <= weight <= 100,
                        ;
                        assert(sample * (100 - weight) <= u64::MAX * 100) by (nonlinear_arith)
                            requires
                                sample <= u64::MAX,
                                0 <= weight <= 100,
                        ;
                    }
                    let mixed: u128 = (s.average as u128 * weight + sample as u128 * (100 - weight))
                        / 100;
                    mixed as u64
                };
                LatencyStat {
                    average,
                    measurements: if s.measurements == u64::MAX {
                        s.measurements
                    } else {
                        s.measurements + 1
                    },
                    last_update: now,
                    successes_in_a_row: s.successes_in_a_row,
                    failures_in_a_row: s.failures_in_a_row,
                    penalized_until: s.penalized_until,
                }
            },
        }
    }

    /// Computes `after_success`.
    pub fn record_success(&self, stat: Option<LatencyStat>, sample: u64, now: u64) -> (r:
        LatencyStat)
        ensures
            r == self.after_success(stat, sample, now),
    {
        let s = self.fold(stat, sample, now);
        let successes = if s.successes_in_a_row == u32::MAX {
            s.successes_in_a_row
        } else {
            s.successes_in_a_row + 1
        };
        LatencyStat {
            average: s.average,
            measurements: s.measurements,
            last_update: s.last_update,
            successes_in_a_row: successes,
            failures_in_a_row: 0,
            penalized_until: if successes >= self.recovery_successes {
                None
            } else {
                s.penalized_until
            },
        }
    }

    /// Computes `after_failure`.
    pub fn record_failure(&self, stat: Option<LatencyStat>, sample: u64, now: u64) -> (r:
        LatencyStat)
        ensures
            r == self.after_failure(stat, sample, now),
    {
        let s = if sample == 0 {
            match stat {
                Some(known) => known,
                None => LatencyStat {
                    average: 0,
                    measurements: 0,
                    last_update: now,
                    successes_in_a_row: 0,
                    failures_in_a_row: 0,
                    penalized_until: None,
                },
            }
        } else {
            self.fold(stat, sample, now)
        };
        let failures = if s.failures_in_a_row == u32::MAX {
            s.failures_in_a_row
        } else {
            s.failures_in_a_row + 1
        };
        LatencyStat {
            average: s.average,
            measurements: s.measurements,
            last_update: s.last_update,
            successes_in_a_row: 0,
            failures_in_a_row: failures,
            penalized_until: if failures >= self.failure_limit {
                Some(
                    if now > u64::MAX - self.cooldown {
                        u64::MAX
                    } else {
                        now + self.cooldown
                    },
                )
            } else {
                s.penalized_until
            },
        }
    }

    /// Decides `is_reliable`.
    pub fn reliable(&self, stat: &LatencyStat, now: u64) -> (r: bool)
        ensures
            r == self.is_reliable(*stat, now),
    {
        stat.measurements >= self.minimum_measurements && (now < stat.last_update || now
            - stat.last_update < self.cooldown)
    }

    /// Decides `is_deprioritized`.
    pub fn deprioritized(&self, stat: &LatencyStat, floor: Option<u64>, now: u64) -> (r: bool)
        ensures
            r == self.is_deprioritized(*stat, floor, now),
    {
        let penalized = match stat.penalized_until {
            Some(until) => now < until,
            None => false,
        };
        if penalized {
            return true;
        }
        if !self.reliable(stat, now) {
            return false;
        }
        match floor {
            Some(f) => {
                proof {
                    assert(stat.average * 100 <= u64::MAX * 100) by (nonlinear_arith)
                        requires
                            stat.average <= u64::MAX,
                    ;
                    assert(f * self.exclusion_threshold_percent <= u64::MAX * u64::MAX)
                        by (nonlinear_arith)
                        requires
                            0 <= f <= u64::MAX,
                            0 <= self.exclusion_threshold_percent <= u64::MAX,
                    ;
                }
                stat.average as u128 * 100 > f as u128 * self.exclusion_threshold_percent as u128
            },
            None => false,
        }
    }
}

impl LatencyAwareness {
    /// The statistic after a run of failures that count, each with its
    /// sample and its time, the last one last.
    pub open spec fn after_failures(&self, stat: Option<LatencyStat>, run: Seq<(u64, u64)>) -> Option<
        LatencyStat,
    >
        decreases run.len(),
    {
        if run.len() == 0 {
            stat
        } else {
            Some(
                self.after_failure(
                    self.after_failures(stat, run.drop_last()),
                    run.last().0,
                    run.last().1,
                ),
            )
        }
    }

    /// The statistic after a run of successes, each with its sample and its
    /// time, the last one last.
    pub open spec fn after_successes(&self, stat: Option<LatencyStat>, run: Seq<(u64, u64)>) -> Option<
        LatencyStat,
    >
        decreases run.len(),
    {
        if run.len() == 0 {
            stat
        } else {
            Some(
                self.after_success(
                    self.after_successes(stat, run.drop_last()),
                    run.last().0,
                    run.last().1,
                ),
            )
        }
    }

    /// A run of failures is counted, as far as a `u32` counts.
    pub proof fn lemma_failures_are_counted(&self, stat: Option<LatencyStat>, run: Seq<(u64, u64)>)
        requires
            run.len() > 0,
        ensures
            self.after_failures(stat, run) is Some,
            self.after_failures(stat, run)->0.failures_in_a_row >= run.len()
                || self.after_failures(stat, run)->0.failures_in_a_row == u32::MAX,
            self.after_failures(stat, run)->0.successes_in_a_row == 0,
        decreases run.len(),
    {
        if run.len() > 1 {
            self.lemma_failures_are_counted(stat, run.drop_last());
        }
    }

    /// A run of successes is counted, as far as a `u32` counts.
    pub proof fn lemma_successes_are_counted(&self, stat: Option<LatencyStat>, run: Seq<(u64, u64)>)
        requires
            run.len() > 0,
        ensures
            self.after_successes(stat, run) is Some,
            self.after_successes(stat, run)->0.successes_in_a_row >= run.len()
                || self.after_successes(stat, run)->0.successes_in_a_row == u32::MAX,
            self.after_successes(stat, run)->0.failures_in_a_row == 0,
        decreases run.len(),
    {
        if run.len() > 1 {
            self.lemma_successes_are_counted(stat, run.drop_last());
        }
    }

    /// After as many failures in a row as the limit asks for, and at least
    /// one, the node is under a penalty that lasts one cooldown from the
    /// last of them: until then it goes behind the healthy nodes of its
    /// tier, whatever its average.
    pub proof fn lemma_failures_start_a_penalty(
        &self,
        stat: Option<LatencyStat>,
        run: Seq<(u64, u64)>,
        floor: Option<u64>,
        at: u64,
    )
        requires
            run.len() > 0,
            run.len() >= self.failure_limit,
            at < deadline(run.last().1, self.cooldown),
        ensures
            self.after_failures(stat, run)->0.penalized_until == Some(
                deadline(run.last().1, self.cooldown),
            ),
            self.is_deprioritized(self.after_failures(stat, run)->0, floor, at),
    {
        self.lemma_failures_are_counted(stat, run);
    }

    /// After as many successes in a row as recovery asks for, and at least
    /// one, no penalty is left: the node goes behind the others only where it
    /// is slow.
    pub proof fn lemma_successes_end_a_penalty(
        &self,
        stat: Option<LatencyStat>,
        run: Seq<(u64, u64)>,
        floor: Option<u64>,
        at: u64,
    )
        requires
            run.len() > 0,
            run.len() >= self.recovery_successes,
        ensures
            self.after_successes(stat, run)->0.penalized_until is None,
            self.is_deprioritized(self.after_successes(stat, run)->0, floor, at) == self.is_slow(
                self.after_successes(stat, run)->0,
                floor,
                at,
            ),
    {
        self.lemma_successes_are_counted(stat, run);
    }
}

/// The settings that latency awareness starts from.
pub const DEFAULT_EXCLUSION_THRESHOLD_PERCENT: u64 = 200;

pub const DEFAULT_COOLDOWN: u64 = 10000;

pub const DEFAULT_MINIMUM_MEASUREMENTS: u64 = 50;

pub const DEFAULT_HISTORY_WEIGHT_PERCENT: u8 = 80;

pub const DEFAULT_FAILURE_LIMIT: u32 = 3;

pub const DEFAULT_RECOVERY_SUCCESSES: u32 = 3;

/// Builds the parameters of latency awareness, one setting at a time.
pub struct LatencyAwarenessBuilder {
    pub settings: LatencyAwareness,
}

impl LatencyAwarenessBuilder {
    pub fn new() -> (r: Self)
        ensures
            r.settings == (LatencyAwareness {
                exclusion_threshold_percent: DEFAULT_EXCLUSION_THRESHOLD_PERCENT,
                cooldown: DEFAULT_COOLDOWN,
                minimum_measurements: DEFAULT_MINIMUM_MEASUREMENTS,
                history_weight_percent: DEFAULT_HISTORY_WEIGHT_PERCENT,
                failure_limit: DEFAULT_FAILURE_LIMIT,
                recovery_successes: DEFAULT_RECOVERY_SUCCESSES,
            }),
    {
        LatencyAwarenessBuilder {
            settings: LatencyAwareness {
                exclusion_threshold_percent: DEFAULT_EXCLUSION_THRESHOLD_PERCENT,
                cooldown: DEFAULT_COOLDOWN,
                minimum_measurements: DEFAULT_MINIMUM_MEASUREMENTS,
                history_weight_percent: DEFAULT_HISTORY_WEIGHT_PERCENT,
                failure_limit: DEFAULT_FAILURE_LIMIT,
                recovery_successes: DEFAULT_RECOVERY_SUCCESSES,
            },
        }
    }

    pub fn exclusion_threshold_percent(self, percent: u64) -> (r: Self)
        ensures
            r.settings == (LatencyAwareness {
                exclusion_threshold_percent: percent,
                ..self.settings
            }),
    {
        let mut settings = self.settings;
        settings.exclusion_threshold_percent = percent;
        LatencyAwarenessBuilder { settings }
    }

    pub fn cooldown(self, millis: u64) -> (r: Self)
        ensures
            r.settings == (LatencyAwareness { cooldown: millis, ..self.settings }),
    {
        let mut settings = self.settings;
        settings.cooldown = millis;
        LatencyAwarenessBuilder { settings }
    }

    pub fn minimum_measurements(self, count: u64) -> (r: Self)
        ensures
            r.settings == (LatencyAwareness { minimum_measurements: count, ..self.settings }),
    {
        let mut settings = self.settings;
        settings.minimum_measurements = count;
        LatencyAwarenessBuilder { settings }
    }

    pub fn history_weight_percent(self, percent: u8) -> (r: Self)
        ensures
            r.settings == (LatencyAwareness { history_weight_percent: percent, ..self.settings }),
    {
        let mut settings = self.settings;
        settings.history_weight_percent = percent;
        LatencyAwarenessBuilder { settings }
    }

    pub fn failure_limit(self, count: u32) -> (r: Self)
        ensures
            r.settings == (LatencyAwareness { failure_limit: count, ..self.settings }),
    {
        let mut settings = self.settings;
        settings.failure_limit = count;
        LatencyAwarenessBuilder { settings }
    }

    pub fn recovery_successes(self, count: u32) -> (r: Self)
        ensures
            r.settings == (LatencyAwareness { recovery_successes: count, ..self.settings }),
    {
        let mut settings = self.settings;
        settings.recovery_successes = count;
        LatencyAwarenessBuilder { settings }
    }

    pub fn build(self) -> (r: LatencyAwareness)
        ensures
            r == self.settings,
    {
        self.settings
    }
}

/// The host ids of the nodes of a snapshot.
pub open spec fn member_ids(nodes: Seq<Node>) -> Set<u128> {
    Set::new(|host: u128| exists|i: int| 0 <= i < nodes.len() && (#[trigger] nodes[i]).host_id == host)
}

/// The statistics of the nodes that have been heard of, by host id.
pub struct LatencyTracker {
    pub stats: HashMap<u128, LatencyStat>,
}

impl View for LatencyTracker {
    type V = Map<u128, LatencyStat>;

    open spec fn view(&self) -> Map<u128, LatencyStat> {
        self.stats@
    }
}

impl LatencyTracker {
    /// The tracker that has heard of no node.
    pub fn new() -> (r: Self)
        ensures
            r@ == Map::<u128, LatencyStat>::empty(),
    {
        LatencyTracker { stats: HashMap::new() }
    }

    /// What is known of the node `host_id`.
    pub fn stat(&self, host_id: u128) -> (r: Option<LatencyStat>)
        ensures
            r is Some <==> self@.contains_key(host_id),
            r matches Some(s) ==> s == self@[host_id],
    {
        match self.stats.get(&host_id) {
            Some(s) => Some(*s),
            None => None,
        }
    }

    /// Forgets the nodes that are not in the snapshot: a node's statistic
    /// lasts as long as the node is a member of the cluster.
    pub fn retain_members(&mut self, cluster: &ClusterData)
        ensures
            final(self)@ == old(self)@.restrict(member_ids(cluster.nodes())),
    {
        let mut kept: HashMap<u128, LatencyStat> = HashMap::new();
        let count = cluster.num_nodes();
        let mut i: usize = 0;
        while i < count
            invariant
                count == cluster.nodes().len(),
                i <= count,
                kept@ == self@.restrict(member_ids(cluster.nodes().take(i as int))),
            decreases count - i,
        {
            let ghost before = kept@;
            let ghost seen = cluster.nodes().take(i as int);
            let ghost more = cluster.nodes().take(i + 1);
            if let Some(node) = cluster.node(NodeRef { index: i }) {
                let host = node.host_id;
                if let Some(stat) = self.stats.get(&host) {
                    kept.insert(host, *stat);
                }
                proof {
                    assert(more[i as int].host_id == host);
                    assert forall|h: u128| member_ids(more).contains(h) <==> (member_ids(
                        seen,
                    ).contains(h) || h == host) by {
                        if member_ids(seen).contains(h) {
                            let k = choose|k: int| 0 <= k < seen.len() && (#[trigger] seen[k]).host_id == h;
                            assert(more[k].host_id == h);
                        }
                        if member_ids(more).contains(h) && h != host {
                            let k = choose|k: int| 0 <= k < more.len() && (#[trigger] more[k]).host_id == h;
                            assert(seen[k].host_id == h);
                        }
                    }
                    assert(kept@ =~= self@.restrict(member_ids(more)));
                }
            }
            i += 1;
        }
        proof {
            assert(cluster.nodes().take(count as int) =~= cluster.nodes());
        }
        self.stats = kept;
    }

    /// Replaces what is known of the node `host_id`.
    pub fn store(&mut self, host_id: u128, stat: LatencyStat)
        ensures
            final(self)@ == old(self)@.insert(host_id, stat),
    {
        self.stats.insert(host_id, stat);
    }
}

} // verus!
