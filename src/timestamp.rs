use vstd::prelude::*;
use vstd::arithmetic::div_mod::lemma_fundamental_div_mod_converse;

verus! {

/// Nanoseconds in one second.
pub const NANOS_PER_SEC: i64 = 1_000_000_000;

/// Seconds since 1970 of the earliest instant kept: -262143-01-01T00:00:00Z,
/// the first instant chrono can represent.
pub const MIN_SECS: i64 = -8_334_601_228_800;

/// Seconds since 1970 of the last whole second kept: +262142-12-31T23:59:59Z,
/// in the last day chrono can represent.
pub const MAX_SECS: i64 = 8_210_266_876_799;

/// An instant in UTC: whole seconds since 1970-01-01T00:00:00Z and the
/// nanoseconds past that second.
#[derive(Clone, Copy, Debug, PartialEq, Eq, Structural)]
pub struct Timestamp {
    pub secs: i64,
    pub nanos: u32,
}

/// Truncation toward zero of `n / NANOS_PER_SEC`.
pub open spec fn trunc_secs(n: int) -> int {
    if n >= 0 {
        n / (NANOS_PER_SEC as int)
    } else {
        -((-n) / (NANOS_PER_SEC as int))
    }
}

impl Timestamp {
    /// The instant is within the supported range and its nanoseconds are below one second.
    pub open spec fn wf(&self) -> bool {
        MIN_SECS <= self.secs <= MAX_SECS && (self.nanos as int) < (NANOS_PER_SEC as int)
    }

    /// Whether seconds `secs` and nanoseconds `nanos` make an instant within range.
    pub open spec fn range_ok(secs: int, nanos: int) -> bool {
        MIN_SECS <= secs <= MAX_SECS && 0 <= nanos < NANOS_PER_SEC
    }

    /// The instant as nanoseconds since 1970.
    pub open spec fn total_nanos(&self) -> int {
        self.secs * (NANOS_PER_SEC as int) + self.nanos
    }

    /// Whole seconds from `earlier` to `self`, truncated toward zero.
    pub open spec fn spec_seconds_since(&self, earlier: Timestamp) -> int {
        trunc_secs(self.total_nanos() - earlier.total_nanos())
    }

    /// Builds an instant from its parts, if they are within range.
    pub fn from_parts(secs: i64, nanos: u32) -> (r: Option<Timestamp>)
        ensures
            r is Some <==> Timestamp::range_ok(secs as int, nanos as int),
            r matches Some(t) ==> t.secs == secs && t.nanos == nanos,
    {
        if MIN_SECS <= secs && secs <= MAX_SECS && (nanos as i64) < NANOS_PER_SEC {
            Some(Timestamp { secs, nanos })
        } else {
            None
        }
    }

    /// Whether the instant is within range.
    pub fn is_valid(&self) -> (r: bool)
        ensures
            r == self.wf(),
    {
        MIN_SECS <= self.secs && self.secs <= MAX_SECS && (self.nanos as i64) < NANOS_PER_SEC
    }

    /// Whole seconds elapsed from `earlier` to `self`, truncated toward zero
    /// (negative when `earlier` is later).
    pub fn seconds_since(&self, earlier: &Timestamp) -> (r: i64)
        requires
            self.wf(),
            earlier.wf(),
        ensures
            r as int == self.spec_seconds_since(*earlier),
            MIN_SECS - MAX_SECS <= r <= MAX_SECS - MIN_SECS,
    {
        let ds: i64 = self.secs - earlier.secs;
        let dn: i64 = self.nanos as i64 - earlier.nanos as i64;
        let ghost d: int = NANOS_PER_SEC as int;
        let ghost n: int = ds as int * d + dn as int;
        assert(n == self.total_nanos() - earlier.total_nanos()) by (nonlinear_arith)
            requires
                ds == self.secs - earlier.secs,
                dn == self.nanos - earlier.nanos,
                n == ds * d + dn,
                self.total_nanos() == self.secs * d + self.nanos,
                earlier.total_nanos() == earlier.secs * d + earlier.nanos,
        ;
        if ds > 0 && dn < 0 {
            proof {
                assert(n == (ds - 1) * d + (dn + d)) by (nonlinear_arith)
                    requires n == ds * d + dn;
                lemma_fundamental_div_mod_converse(n, d, (ds - 1) as int, dn + d);
            }
            ds - 1
        } else if ds < 0 && dn > 0 {
            proof {
                assert(-n == (-ds - 1) * d + (d - dn)) by (nonlinear_arith)
                    requires n == ds * d + dn;
                lemma_fundamental_div_mod_converse(-n, d, (-ds - 1) as int, d - dn);
            }
            ds + 1
        } else if ds >= 0 && dn >= 0 {
            proof {
                lemma_fundamental_div_mod_converse(n, d, ds as int, dn as int);
            }
            ds
        } else if ds == 0 {
            // dn < 0
            proof {
                assert(-n == 0 * d + (-dn)) by (nonlinear_arith)
                    requires n == ds * d + dn, ds == 0;
                lemma_fundamental_div_mod_converse(-n, d, 0, -dn);
            }
            ds
        } else {
            // ds < 0 && dn <= 0
            proof {
                assert(-n == (-ds) * d + (-dn)) by (nonlinear_arith)
                    requires n == ds * d + dn;
                if n >= 0 {
                    assert(n < 0) by (nonlinear_arith)
                        requires n == ds * d + dn, ds < 0, dn <= 0, d > 0;
                }
                lemma_fundamental_div_mod_converse(-n, d, -ds as int, -dn as int);
            }
            ds
        }
    }
}

/// The whole seconds elapsed since `then` never decrease as `now` moves later.
pub proof fn lemma_seconds_since_monotone(then: Timestamp, now1: Timestamp, now2: Timestamp)
    requires
        now1.total_nanos() <= now2.total_nanos(),
    ensures
        now1.spec_seconds_since(then) <= now2.spec_seconds_since(then),
{
    let a = now1.total_nanos() - then.total_nanos();
    let b = now2.total_nanos() - then.total_nanos();
    let d = NANOS_PER_SEC as int;
    if a >= 0 {
        vstd::arithmetic::div_mod::lemma_div_is_ordered(a, b, d);
    } else if b >= 0 {
        vstd::arithmetic::div_mod::lemma_div_pos_is_pos(-a, d);
        vstd::arithmetic::div_mod::lemma_div_pos_is_pos(b, d);
    } else {
        vstd::arithmetic::div_mod::lemma_div_is_ordered(-b, -a, d);
    }
}

/// An instant taken less than a second after `then` is zero whole seconds after it.
pub proof fn lemma_seconds_since_within_a_second(then: Timestamp, now: Timestamp)
    requires
        then.total_nanos() <= now.total_nanos() < then.total_nanos() + NANOS_PER_SEC,
    ensures
        now.spec_seconds_since(then) == 0,
{
    let a = now.total_nanos() - then.total_nanos();
    lemma_fundamental_div_mod_converse(a, NANOS_PER_SEC as int, 0, a);
}

} // verus!
