//! Scan settings: the fixed timing profiles, the calibration that derives
//! settings from measured round trips, and the collection of the open ports
//! that the probes found.
use vstd::prelude::*;
use crate::analyzer::Fingerprint;

verus! {

broadcast use vstd::seq_lib::group_to_multiset_ensures;

/// How a scan is paced: at most `concurrency` probes at a time, and each
/// connect, handshake and read bounded by `timeout_nanos`.
#[derive(Debug, Clone, Copy, PartialEq, Eq, Structural)]
pub struct ScanSettings {
    pub concurrency: usize,
    pub timeout_nanos: u64,
}

pub const NANOS_PER_MILLI: u64 = 1_000_000;

/// Where the settings of a scan come from.
#[derive(Debug, Clone, Copy, PartialEq, Eq, Structural)]
pub enum TimingProfile {
    Fixed(ScanSettings),
    Calibrate,
}

pub open spec fn settings(concurrency: usize, timeout_millis: u64) -> ScanSettings {
    ScanSettings { concurrency, timeout_nanos: (timeout_millis * NANOS_PER_MILLI) as u64 }
}

/// The profile of each timing level: 0 paranoid, 1 sneaky, 2 polite,
/// 3 (and any other level) normal, 4 calibrated, 5 insane.
pub open spec fn profile_of(level: u8) -> TimingProfile {
    match level {
        5 => TimingProfile::Fixed(settings(5000, 300)),
        4 => TimingProfile::Calibrate,
        2 => TimingProfile::Fixed(settings(400, 1200)),
        1 => TimingProfile::Fixed(settings(100, 5000)),
        0 => TimingProfile::Fixed(settings(5, 15000)),
        _ => TimingProfile::Fixed(settings(1000, 800)),
    }
}

/// The timing profile of a level.
pub fn timing_profile(level: u8) -> (r: TimingProfile)
    ensures
        r == profile_of(level),
{
    match level {
        5 => TimingProfile::Fixed(
            ScanSettings { concurrency: 5000, timeout_nanos: 300 * NANOS_PER_MILLI },
        ),
        4 => TimingProfile::Calibrate,
        2 => TimingProfile::Fixed(
            ScanSettings { concurrency: 400, timeout_nanos: 1200 * NANOS_PER_MILLI },
        ),
        1 => TimingProfile::Fixed(
            ScanSettings { concurrency: 100, timeout_nanos: 5000 * NANOS_PER_MILLI },
        ),
        0 => TimingProfile::Fixed(
            ScanSettings { concurrency: 5, timeout_nanos: 15000 * NANOS_PER_MILLI },
        ),
        _ => TimingProfile::Fixed(
            ScanSettings { concurrency: 1000, timeout_nanos: 800 * NANOS_PER_MILLI },
        ),
    }
}

/// The ports that calibration tries to connect to.
pub fn calibration_ports() -> (r: Vec<u16>)
    ensures
        r@ == seq![80u16, 443, 22, 53, 3389, 8080, 1337, 31337],
{
    let r: Vec<u16> = vec![80, 443, 22, 53, 3389, 8080, 1337, 31337];
    r
}

/// How long calibration waits for each connect.
pub const CALIBRATION_CONNECT_MILLIS: u64 = 2000;

/// Settings used when no calibration port answered.
pub open spec fn fallback_settings() -> ScanSettings {
    settings(500, 3000)
}

/// Files the process keeps open besides its probes.
pub const FD_RESERVE: u64 = 50;

pub open spec fn total(s: Seq<u64>) -> int
    decreases s.len(),
{
    if s.len() == 0 {
        0
    } else {
        total(s.drop_last()) + s.last()
    }
}

/// The arithmetic mean of the round-trip samples, rounded down.
pub open spec fn mean_rtt(s: Seq<u64>) -> int {
    total(s) / (s.len() as int)
}

/// Five round trips plus 400 ms, kept between 500 ms and 4 s.
pub open spec fn calibrated_timeout(mean: int) -> int {
    let t = mean * 5 + 400 * NANOS_PER_MILLI;
    if t < 500 * NANOS_PER_MILLI {
        500 * NANOS_PER_MILLI as int
    } else if t > 4000 * NANOS_PER_MILLI {
        4000 * NANOS_PER_MILLI as int
    } else {
        t
    }
}

/// Faster targets get more probes at a time.
pub open spec fn concurrency_tier(mean: int) -> int {
    if mean < 100 * NANOS_PER_MILLI {
        2500
    } else if mean < 250 * NANOS_PER_MILLI {
        1800
    } else {
        1000
    }
}

/// The concurrency kept under the open-file limit, less a reserve, where the
/// limit is known; never below one probe at a time.
pub open spec fn capped_concurrency(c: int, fd_soft_limit: Option<u64>) -> int {
    match fd_soft_limit {
        Some(l) => {
            let safe = if l > FD_RESERVE {
                l - FD_RESERVE
            } else {
                1
            };
            if c > safe {
                safe
            } else {
                c
            }
        },
        None => c,
    }
}

/// What calibration decided, and what it measured.
#[derive(Debug, Clone, Copy)]
pub struct Calibration {
    pub settings: ScanSettings,
    /// The mean round trip; `None` when no port answered.
    pub mean_rtt_nanos: Option<u64>,
    /// Whether the open-file limit lowered the concurrency.
    pub capped: bool,
}

proof fn lemma_total_bound(s: Seq<u64>)
    ensures
        0 <= total(s) <= s.len() * 0xffff_ffff_ffff_ffff,
    decreases s.len(),
{
    if s.len() > 0 {
        lemma_total_bound(s.drop_last());
    }
}

/// Derives scan settings from the round trips, in nanoseconds, of the
/// connects that succeeded, capping the concurrency under the process's
/// open-file soft limit where that is known.
pub fn determine_optimal_settings(rtt_samples_nanos: &[u64], fd_soft_limit: Option<u64>) -> (r:
    Calibration)
    ensures
        rtt_samples_nanos@.len() == 0 ==> r.settings == fallback_settings() && r.mean_rtt_nanos
            is None && !r.capped,
        rtt_samples_nanos@.len() > 0 ==> {
            let m = mean_rtt(rtt_samples_nanos@);
            let c = concurrency_tier(m);
            &&& r.mean_rtt_nanos == Some(m as u64)
            &&& r.settings.timeout_nanos == calibrated_timeout(m)
            &&& r.settings.concurrency == capped_concurrency(c, fd_soft_limit)
            &&& r.capped == (capped_concurrency(c, fd_soft_limit) < c)
        },
{
    let n = rtt_samples_nanos.len();
    if n == 0 {
        return Calibration {
            settings: ScanSettings { concurrency: 500, timeout_nanos: 3000 * NANOS_PER_MILLI },
            mean_rtt_nanos: None,
            capped: false,
        };
    }
    let mut sum: u128 = 0;
    let mut i: usize = 0;
    while i < n
        invariant
            n == rtt_samples_nanos@.len(),
            i <= n,
            sum == total(rtt_samples_nanos@.take(i as int)),
        decreases n - i,
    {
        proof {
            lemma_total_bound(rtt_samples_nanos@.take(i as int));
            assert(rtt_samples_nanos@.take(i + 1).drop_last() =~= rtt_samples_nanos@.take(
                i as int,
            ));
            assert(i * 0xffff_ffff_ffff_ffff + 0xffff_ffff_ffff_ffff <= 0xffff_ffff_ffff_ffff_ffff_ffff_ffff_ffffu128) by (nonlinear_arith)
                requires
                    i <= 0xffff_ffff_ffff_ffffu64,
            ;
        }
        sum = sum + rtt_samples_nanos[i] as u128;
        i = i + 1;
    }
    assert(rtt_samples_nanos@.take(n as int) =~= rtt_samples_nanos@);
    proof {
        lemma_total_bound(rtt_samples_nanos@);
        assert((sum as int) / (n as int) <= 0xffff_ffff_ffff_ffff) by (nonlinear_arith)
            requires
                sum <= n * 0xffff_ffff_ffff_ffff,
                n > 0,
        ;
    }
    let mean: u128 = sum / (n as u128);
    let t: u128 = mean * 5 + 400 * NANOS_PER_MILLI as u128;
    let timeout: u128 = if t < 500 * NANOS_PER_MILLI as u128 {
        500 * NANOS_PER_MILLI as u128
    } else if t > 4000 * NANOS_PER_MILLI as u128 {
        4000 * NANOS_PER_MILLI as u128
    } else {
        t
    };
    let tier: usize = if mean < 100 * NANOS_PER_MILLI as u128 {
        2500
    } else if mean < 250 * NANOS_PER_MILLI as u128 {
        1800
    } else {
        1000
    };
    let concurrency = cap_concurrency(tier, fd_soft_limit);
    Calibration {
        settings: ScanSettings { concurrency, timeout_nanos: timeout as u64 },
        mean_rtt_nanos: Some(mean as u64),
        capped: concurrency < tier,
    }
}

/// Keeps a concurrency under the open-file soft limit less a reserve.
pub fn cap_concurrency(concurrency: usize, fd_soft_limit: Option<u64>) -> (r: usize)
    ensures
        r == capped_concurrency(concurrency as int, fd_soft_limit),
{
    match fd_soft_limit {
        Some(l) => {
            let safe: u64 = if l > FD_RESERVE {
                l - FD_RESERVE
            } else {
                1
            };
            if concurrency as u64 > safe {
                safe as usize
            } else {
                concurrency
            }
        },
        None => concurrency,
    }
}

} // verus!

verus! {

/// The open ports among probe outcomes: each port whose probe produced a
/// fingerprint, with it.
pub open spec fn open_entries(outcomes: Seq<(u16, Option<Fingerprint>)>) -> Seq<(u16, Fingerprint)>
    decreases outcomes.len(),
{
    if outcomes.len() == 0 {
        seq![]
    } else {
        let rest = open_entries(outcomes.drop_last());
        match outcomes.last().1 {
            Some(f) => rest.push((outcomes.last().0, f)),
            None => rest,
        }
    }
}

pub open spec fn sorted_by_port(s: Seq<(u16, Fingerprint)>) -> bool {
    forall|i: int, j: int| 0 <= i < j < s.len() ==> s[i].0 <= s[j].0
}

proof fn lemma_insert_multiset(s: Seq<(u16, Fingerprint)>, j: int, x: (u16, Fingerprint))
    requires
        0 <= j <= s.len(),
    ensures
        s.insert(j, x).to_multiset() == s.to_multiset().insert(x),
{
    let t = s.insert(j, x);
    assert(t.remove(j) =~= s);
    assert(t[j] == x);
    assert(t.contains(x));
    assert(t.to_multiset().remove(x) == s.to_multiset());
    assert(t.to_multiset() =~= s.to_multiset().insert(x));
}

/// Whether no port occurs twice among the outcomes.
pub open spec fn distinct_ports(outcomes: Seq<(u16, Option<Fingerprint>)>) -> bool {
    forall|a: int, b: int| 0 <= a < b < outcomes.len() ==> outcomes[a].0 != outcomes[b].0
}

/// The report of a scan: the ports whose probe found them open, each with
/// its fingerprint, in ascending port order whatever order the probes
/// finished in. Ports whose connect failed are left out. Where each port was
/// probed once, each open port is reported once.
pub fn collect_open_ports(outcomes: Vec<(u16, Option<Fingerprint>)>) -> (r: Vec<(u16, Fingerprint)>)
    ensures
        sorted_by_port(r@),
        r@.to_multiset() == open_entries(outcomes@).to_multiset(),
        distinct_ports(outcomes@) ==> forall|a: int, b: int|
            0 <= a < b < r@.len() ==> r@[a].0 < r@[b].0,
{
    let mut rest = outcomes;
    let mut out: Vec<(u16, Fingerprint)> = Vec::new();
    while rest.len() > 0
        invariant
            sorted_by_port(out@),
            out@.to_multiset().add(open_entries(rest@).to_multiset()) == open_entries(
                outcomes@,
            ).to_multiset(),
            rest@.len() <= outcomes@.len(),
            rest@ == outcomes@.take(rest@.len() as int),
            forall|k: int|
                0 <= k < out@.len() ==> exists|m: int|
                    rest@.len() <= m < outcomes@.len() && #[trigger] outcomes@[m].0 == (
                    #[trigger] out@[k]).0,
            distinct_ports(outcomes@) ==> forall|a: int, b: int|
                0 <= a < b < out@.len() ==> out@[a].0 != out@[b].0,
        decreases rest@.len(),
    {
        let ghost before = rest@;
        let last = rest.pop();
        assert(before.drop_last() =~= rest@);
        assert(rest@ =~= outcomes@.take(rest@.len() as int));
        assert(before.last() == outcomes@[rest@.len() as int]);
        if let Some((port, found)) = last {
            if let Some(fp) = found {
                let mut j: usize = 0;
                while j < out.len() && out[j].0 <= port
                    invariant
                        j <= out@.len(),
                        forall|k: int| 0 <= k < j ==> out@[k].0 <= port,
                    decreases out@.len() - j,
                {
                    j = j + 1;
                }
                let ghost old_out = out@;
                let ghost x = (port, fp);
                out.insert(j, (port, fp));
                proof {
                    lemma_insert_multiset(old_out, j as int, x);
                    assert(open_entries(before) == open_entries(rest@).push(x));
                    assert(open_entries(before).to_multiset() =~= open_entries(
                        rest@,
                    ).to_multiset().insert(x));
                    assert(out@.to_multiset().add(open_entries(rest@).to_multiset())
                        =~= old_out.to_multiset().add(open_entries(before).to_multiset()));
                    assert forall|k: int| 0 <= k < out@.len() implies exists|m: int|
                        rest@.len() <= m < outcomes@.len() && #[trigger] outcomes@[m].0 == (
                        #[trigger] out@[k]).0 by {
                        if k < j {
                            assert(out@[k] == old_out[k]);
                        } else if k == j {
                            assert(outcomes@[rest@.len() as int].0 == out@[k].0);
                        } else {
                            assert(out@[k] == old_out[k - 1]);
                        }
                    }
                    if distinct_ports(outcomes@) {
                        assert forall|k: int| 0 <= k < old_out.len() implies old_out[k].0
                            != port by {
                            let m = choose|m: int|
                                before.len() <= m < outcomes@.len() && #[trigger] outcomes@[m].0
                                    == old_out[k].0;
                            assert(outcomes@[rest@.len() as int].0 == port);
                        }
                        assert forall|a: int, b: int| 0 <= a < b < out@.len() implies out@[a].0
                            != out@[b].0 by {
                            if b < j {
                            } else if b == j {
                            } else if a < j {
                                assert(out@[b] == old_out[b - 1]);
                            } else if a == j {
                                assert(out@[b] == old_out[b - 1]);
                            } else {
                                assert(out@[a] == old_out[a - 1]);
                                assert(out@[b] == old_out[b - 1]);
                            }
                        }
                    }
                    assert forall|a: int, b: int| 0 <= a < b < out@.len() implies out@[a].0
                        <= out@[b].0 by {
                        if b < j {
                        } else if b == j {
                        } else if a < j {
                            assert(out@[b] == old_out[b - 1]);
                            if j < old_out.len() {
                                assert(old_out[j as int].0 > port);
                            }
                        } else if a == j {
                            assert(out@[b] == old_out[b - 1]);
                            assert(old_out[j as int].0 > port);
                        } else {
                            assert(out@[a] == old_out[a - 1]);
                            assert(out@[b] == old_out[b - 1]);
                        }
                    }
                }
            }
        }
    }
    assert(open_entries(rest@) =~= seq![]);
    assert(out@.to_multiset().add(open_entries(rest@).to_multiset()) =~= out@.to_multiset());
    out
}

} // verus!
