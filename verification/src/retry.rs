//! The connection establisher's retry plan.
//!
//! Opening the backing store is a startup-time barrier: an attempt that
//! fails is followed by a wait, the wait doubles up to a cap, and after a
//! fixed number of consecutive failures the whole establishment fails for good. The
//! decisions of that loop live here, verified; the caller performs the
//! actual connection attempts and sleeps, and feeds every failure back.

use vstd::arithmetic::power2::lemma_pow2_pos;
use vstd::arithmetic::power2::lemma_pow2_strictly_increases;
use vstd::arithmetic::power2::lemma_pow2_unfold;
use vstd::arithmetic::power2::pow2;
use vstd::math::min;
use vstd::prelude::*;

verus! {

/// The compiled-in bounds of the establisher: how many consecutive
/// failures are tolerated, the first wait, and the cap on waits.
#[derive(Clone, Copy)]
pub struct BackoffPolicy {
    pub max_attempts: u32,
    pub initial_delay_ms: u64,
    pub max_delay_ms: u64,
}

impl BackoffPolicy {
    /// A policy is usable when it allows at least one attempt and its
    /// first wait is positive and no longer than the cap.
    pub open spec fn wf(&self) -> bool {
        &&& self.max_attempts >= 1
        &&& 1 <= self.initial_delay_ms <= self.max_delay_ms
    }

    /// The default bounds: ten attempts, a one-second first wait
    /// doubling up to a ten-second cap.
    pub fn standard() -> (p: BackoffPolicy)
        ensures
            p.wf(),
            p.max_attempts == 10,
            p.initial_delay_ms == 1000,
            p.max_delay_ms == 10000,
    {
        BackoffPolicy { max_attempts: 10, initial_delay_ms: 1000, max_delay_ms: 10000 }
    }
}

/// The wait prescribed after the failure at index `k` (the first failure
/// has index 0): the first wait doubled `k` times, capped.
pub open spec fn delay_after(p: BackoffPolicy, k: nat) -> int {
    min(p.initial_delay_ms as int * pow2(k) as int, p.max_delay_ms as int)
}

/// One doubling step of the prescribed wait: doubled while that stays at
/// or under the cap, the cap afterwards.
pub proof fn lemma_delay_step(p: BackoffPolicy, k: nat)
    requires
        p.wf(),
    ensures
        delay_after(p, k + 1) == if delay_after(p, k) <= p.max_delay_ms as int / 2 {
            2 * delay_after(p, k)
        } else {
            p.max_delay_ms as int
        },
{
    lemma_pow2_unfold(k + 1);
    lemma_pow2_pos(k);
    let i = p.initial_delay_ms as int;
    let m = p.max_delay_ms as int;
    let v = i * pow2(k) as int;
    assert(i * pow2(k + 1) as int == 2 * v) by (nonlinear_arith)
        requires
            pow2(k + 1) == 2 * pow2(k),
            v == i * pow2(k) as int,
    ;
    assert(v >= 1) by (nonlinear_arith)
        requires
            i >= 1,
            pow2(k) >= 1,
            v == i * pow2(k) as int,
    ;
    let d = delay_after(p, k);
    if d <= m / 2 {
        assert(d == v);
        assert(2 * v <= m);
    } else {
        assert(2 * d > m);
    }
}

/// Prescribed waits never shrink from one failure to the next, and never
/// pass the cap.
pub proof fn lemma_delay_monotone(p: BackoffPolicy, a: nat, b: nat)
    requires
        p.wf(),
        a <= b,
    ensures
        delay_after(p, a) <= delay_after(p, b),
        delay_after(p, b) <= p.max_delay_ms as int,
{
    let i = p.initial_delay_ms as int;
    if a < b {
        lemma_pow2_strictly_increases(a, b);
    }
    assert(i * pow2(a) as int <= i * pow2(b) as int) by (nonlinear_arith)
        requires
            i >= 1,
            pow2(a) <= pow2(b),
    ;
}

/// The running state of the establisher: the policy, the failures seen
/// so far, and the wait the next failure will prescribe.
pub struct Establisher {
    policy: BackoffPolicy,
    failures: u32,
    delay_ms: u64,
}

impl Establisher {
    /// The policy the establisher was started with.
    pub closed spec fn plan(&self) -> BackoffPolicy {
        self.policy
    }

    /// How many failed attempts have been recorded.
    pub closed spec fn failures(&self) -> nat {
        self.failures as nat
    }

    /// The establisher invariant: failures stay within the attempt budget and
    /// the stored wait is the prescribed one.
    pub closed spec fn inv(&self) -> bool {
        &&& self.policy.wf()
        &&& self.failures <= self.policy.max_attempts
        &&& self.delay_ms as int == delay_after(self.policy, self.failures as nat)
    }

    /// A fresh establisher under the given policy: no failures recorded yet.
    pub fn start(policy: BackoffPolicy) -> (e: Establisher)
        requires
            policy.wf(),
        ensures
            e.inv(),
            e.plan() == policy,
            e.failures() == 0,
    {
        proof {
            vstd::arithmetic::power::lemma_pow0(2);
            assert(pow2(0) == 1);
        }
        Establisher { policy: policy, failures: 0, delay_ms: policy.initial_delay_ms }
    }

    /// How many attempts have been made and failed, for diagnostics.
    pub fn attempts_made(&self) -> (n: u32)
        ensures
            n as nat == self.failures(),
    {
        self.failures
    }

    /// Record one failed connection attempt. Returns the wait to perform
    /// before the next attempt, or nothing when the attempt budget is
    /// spent and the whole establishment fails for good. The wait after the k-th
    /// consecutive failure is the first wait doubled k-1 times, capped.
    pub fn on_failure(&mut self) -> (retry: Option<u64>)
        requires
            old(self).inv(),
        ensures
            final(self).inv(),
            final(self).plan() == old(self).plan(),
            final(self).failures() == if old(self).failures() < old(
                self,
            ).plan().max_attempts as nat {
                old(self).failures() + 1
            } else {
                old(self).failures()
            },
            retry == if old(self).failures() + 1 < old(self).plan().max_attempts as nat {
                Some(delay_after(old(self).plan(), old(self).failures()) as u64)
            } else {
                None::<u64>
            },
    {
        if self.failures >= self.policy.max_attempts {
            return None;
        }
        proof {
            lemma_delay_step(self.policy, self.failures as nat);
            lemma_delay_monotone(self.policy, self.failures as nat, self.failures as nat);
        }
        let wait = self.delay_ms;
        self.delay_ms = if self.delay_ms <= self.policy.max_delay_ms / 2 {
            self.delay_ms * 2
        } else {
            self.policy.max_delay_ms
        };
        self.failures = self.failures + 1;
        if self.failures < self.policy.max_attempts {
            Some(wait)
        } else {
            None
        }
    }
}

/// What one run of the establisher did: whether it connected, how many
/// attempts it made, and the waits it performed between attempts.
pub struct EstablishReport {
    pub connected: bool,
    pub attempts: u32,
    pub waits: Vec<u64>,
}

/// The establish loop itself, run against a given trace of attempt
/// outcomes: `outcomes[k]` says whether the `k+1`-th connection attempt
/// would succeed. It attempts, waits the prescribed backoff after
/// each failure, and stops at the first success or when the attempt
/// budget is spent. It connects exactly when one of the first
/// `max_attempts` outcomes is a success; the waits it performed never
/// shrink and never pass the cap.
pub fn run_establish(policy: &BackoffPolicy, outcomes: &Vec<bool>) -> (r: EstablishReport)
    requires
        policy.wf(),
        outcomes@.len() >= policy.max_attempts,
    ensures
        r.connected <==> exists|k: int| 0 <= k < policy.max_attempts && outcomes@[k],
        1 <= r.attempts <= policy.max_attempts,
        r.connected ==> outcomes@[r.attempts - 1] && (forall|k: int|
            0 <= k < r.attempts - 1 ==> !outcomes@[k]),
        !r.connected ==> r.attempts == policy.max_attempts,
        r.waits@.len() == r.attempts - 1,
        forall|i: int| 0 <= i < r.waits@.len() ==> (#[trigger] r.waits@[i]) as int == delay_after(
            *policy,
            i as nat,
        ),
        forall|i: int, j: int|
            0 <= i <= j < r.waits@.len() ==> #[trigger] r.waits@[i] <= #[trigger] r.waits@[j],
        forall|i: int| 0 <= i < r.waits@.len() ==> #[trigger] r.waits@[i] <= policy.max_delay_ms,
{
    let mut est = Establisher::start(*policy);
    let mut waits: Vec<u64> = Vec::new();
    let mut attempts: u32 = 0;
    let mut connected = false;
    while !connected && attempts < policy.max_attempts
        invariant
            policy.wf(),
            outcomes@.len() >= policy.max_attempts,
            est.inv(),
            est.plan() == *policy,
            attempts <= policy.max_attempts,
            est.failures() == if connected {
                (attempts - 1) as nat
            } else {
                attempts as nat
            },
            connected ==> 1 <= attempts && outcomes@[attempts - 1],
            forall|k: int|
                0 <= k < (if connected {
                    attempts - 1
                } else {
                    attempts as int
                }) ==> !outcomes@[k],
            waits@.len() == if connected || attempts < policy.max_attempts {
                est.failures() as int
            } else {
                est.failures() - 1
            },
            forall|i: int| 0 <= i < waits@.len() ==> (#[trigger] waits@[i]) as int == delay_after(
                *policy,
                i as nat,
            ),
        decreases policy.max_attempts - attempts + (if connected {
            0int
        } else {
            1int
        }),
    {
        let ok = outcomes[attempts as usize];
        attempts = attempts + 1;
        if ok {
            connected = true;
        } else {
            match est.on_failure() {
                Some(d) => { waits.push(d) },
                None => {},
            }
        }
    }
    proof {
        assert forall|i: int, j: int| 0 <= i <= j < waits@.len() implies #[trigger] waits@[i]
            <= #[trigger] waits@[j] by {
            lemma_delay_monotone(*policy, i as nat, j as nat);
        }
        assert forall|i: int| 0 <= i < waits@.len() implies #[trigger] waits@[i]
            <= policy.max_delay_ms by {
            lemma_delay_monotone(*policy, i as nat, i as nat);
        }
    }
    EstablishReport { connected: connected, attempts: attempts, waits: waits }
}

} // verus!
